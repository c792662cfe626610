//! The pool's model of the external staking backend.
//!
//! The backend tracks, per stash account, the actively bonded amount, and
//! remembers the validator set it was last told to nominate.  A stash is a
//! registered staker exactly when it has a bonded entry.  Eras are counted
//! by the backend; the pool only reads them.

use vstd::prelude::*;
use crate::amount_map::AmountMap;

verus! {

/// An external staking backend: era clock, bonded amounts and the current
/// nomination set.
pub struct StakingBackend {
    pub current_era: u32,
    pub bonding_duration: u32,
    pub minimum_bond: u128,
    pub bonded: AmountMap,
    pub nominations: Option<Vec<u64>>,
    /// The accounts that are eligible candidate validators.
    pub validators: Vec<u64>,
}

impl StakingBackend {
    /// The era in which newly unbonded funds become withdrawable can be
    /// counted without wrapping.
    pub open spec fn wf(self) -> bool {
        &&& self.bonded.wf()
        &&& self.current_era + self.bonding_duration <= u32::MAX
    }

    pub fn new(current_era: u32, bonding_duration: u32, minimum_bond: u128) -> (r: StakingBackend)
        requires
            current_era + bonding_duration <= u32::MAX,
        ensures
            r.wf(),
            r.current_era == current_era,
            r.bonding_duration == bonding_duration,
            r.minimum_bond == minimum_bond,
            r.bonded.as_map() == Map::<u64, u128>::empty(),
            r.nominations is None,
            r.validators@ == Seq::<u64>::empty(),
    {
        StakingBackend {
            current_era,
            bonding_duration,
            minimum_bond,
            bonded: AmountMap::new(),
            nominations: None,
            validators: Vec::new(),
        }
    }

    /// Advance (or rewind) the backend's era clock.
    pub fn set_era(&mut self, era: u32)
        requires
            old(self).wf(),
            era + old(self).bonding_duration <= u32::MAX,
        ensures
            final(self).wf(),
            *final(self) == (StakingBackend { current_era: era, ..*old(self) }),
    {
        self.current_era = era;
    }

    /// The amount a stash has actively bonded; absent when the stash is not
    /// a registered staker.
    pub fn active_stake(&self, stash: u64) -> (r: Option<u128>)
        requires
            self.wf(),
        ensures
            match r {
                Some(v) => self.bonded.as_map().dom().contains(stash) && self.bonded.as_map()[stash]
                    == v,
                None => !self.bonded.as_map().dom().contains(stash),
            },
    {
        self.bonded.get(stash)
    }

    /// Register a stash as a staker with an initial bonded amount.
    pub fn bond(&mut self, stash: u64, _controller: u64, value: u128, _payee: u64)
        requires
            old(self).wf(),
        ensures
            final(self).wf(),
            final(self).bonded.as_map() == old(self).bonded.as_map().insert(stash, value),
            final(self).current_era == old(self).current_era,
            final(self).bonding_duration == old(self).bonding_duration,
            final(self).minimum_bond == old(self).minimum_bond,
            final(self).nominations == old(self).nominations,
            final(self).validators == old(self).validators,
    {
        self.bonded.set(stash, value);
    }

    /// Bond additional funds of an already registered stash; the backend
    /// clamps its bonded total at the largest amount.  Fails, changing
    /// nothing, exactly when the stash is not a registered staker.
    pub fn bond_extra(&mut self, stash: u64, extra: u128) -> (ok: bool)
        requires
            old(self).wf(),
        ensures
            final(self).wf(),
            ok <==> old(self).bonded.as_map().dom().contains(stash),
            !ok ==> *final(self) == *old(self),
            ok ==> final(self).bonded.as_map() == old(self).bonded.as_map().insert(
                stash,
                (if old(self).bonded.amount_of(stash) + extra <= u128::MAX {
                    (old(self).bonded.amount_of(stash) + extra) as u128
                } else {
                    u128::MAX
                }),
            ),
            final(self).current_era == old(self).current_era,
            final(self).bonding_duration == old(self).bonding_duration,
            final(self).minimum_bond == old(self).minimum_bond,
            final(self).nominations == old(self).nominations,
            final(self).validators == old(self).validators,
    {
        let cur = match self.bonded.get(stash) {
            Some(c) => c,
            None => {
                return false;
            },
        };
        let grown = match cur.checked_add(extra) {
            Some(n) => n,
            None => u128::MAX,
        };
        self.bonded.set(stash, grown);
        true
    }

    /// Replace the validator set the backend nominates for the stash.
    pub fn nominate(&mut self, _stash: u64, targets: Vec<u64>)
        requires
            old(self).wf(),
        ensures
            final(self).wf(),
            final(self).nominations == Some(targets),
            final(self).bonded == old(self).bonded,
            final(self).current_era == old(self).current_era,
            final(self).bonding_duration == old(self).bonding_duration,
            final(self).minimum_bond == old(self).minimum_bond,
            final(self).validators == old(self).validators,
    {
        self.nominations = Some(targets);
    }

    /// Whether an account is an eligible candidate validator.
    pub fn is_validator(&self, v: u64) -> (r: bool)
        ensures
            r == self.validators@.contains(v),
    {
        let mut i: usize = 0;
        while i < self.validators.len()
            invariant
                i <= self.validators@.len(),
                forall|j: int| 0 <= j < i ==> self.validators@[j] != v,
            decreases self.validators@.len() - i,
        {
            if self.validators[i] == v {
                return true;
            }
            i = i + 1;
        }
        false
    }

    /// Make an account an eligible candidate validator.
    pub fn register_validator(&mut self, v: u64)
        requires
            old(self).wf(),
        ensures
            final(self).wf(),
            final(self).validators@ == old(self).validators@.push(v),
            final(self).bonded == old(self).bonded,
            final(self).nominations == old(self).nominations,
            final(self).current_era == old(self).current_era,
            final(self).bonding_duration == old(self).bonding_duration,
            final(self).minimum_bond == old(self).minimum_bond,
    {
        self.validators.push(v);
    }
}

} // verus!
