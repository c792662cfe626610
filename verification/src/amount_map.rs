//! A store from account identifiers to token amounts.
//!
//! Used for account balances, balance locks, per-account nomination locks,
//! per-validator vote tallies and the staking backend's bonded amounts.  An
//! absent key stands for the amount zero.

use vstd::prelude::*;
use vstd::pervasive::VecAdditionalExecFns;
use vstd::map::*;
use crate::kv::{kv_map, kv_sum, kv_unique, lemma_kv_map_domain, lemma_kv_map_push,
    lemma_kv_map_update, lemma_kv_map_values, lemma_kv_sum_nonneg, lemma_kv_sum_pair_le,
    lemma_kv_sum_push, lemma_kv_sum_update, lemma_kv_sum_value_le};

verus! {

/// A finite store of token amounts keyed by account identifier.
pub struct AmountMap {
    pub entries: Vec<(u64, u128)>,
}

impl AmountMap {
    /// Keys are pairwise distinct.
    pub open spec fn wf(self) -> bool {
        kv_unique(self.entries@)
    }

    /// The map this store denotes.
    pub open spec fn as_map(self) -> Map<u64, u128> {
        kv_map(self.entries@)
    }

    /// The amount held under a key, zero when the key is absent.
    pub open spec fn amount_of(self, k: u64) -> u128 {
        if self.as_map().dom().contains(k) {
            self.as_map()[k]
        } else {
            0
        }
    }

    /// The sum of all stored amounts.
    pub open spec fn total(self) -> int {
        kv_sum(self.entries@)
    }

    pub fn new() -> (r: AmountMap)
        ensures
            r.wf(),
            r.as_map() == Map::<u64, u128>::empty(),
            r.total() == 0,
    {
        AmountMap { entries: Vec::new() }
    }

    /// The position of the pair carrying a key, if any.
    fn find(&self, k: u64) -> (r: Option<usize>)
        ensures
            match r {
                Some(i) => i < self.entries@.len() && self.entries@[i as int].0 == k,
                None => forall|j: int| 0 <= j < self.entries@.len() ==> (#[trigger] self.entries@[j]).0 != k,
            },
    {
        let mut i: usize = 0;
        while i < self.entries.len()
            invariant
                i <= self.entries@.len(),
                forall|j: int| 0 <= j < i ==> (#[trigger] self.entries@[j]).0 != k,
            decreases self.entries@.len() - i,
        {
            if self.entries[i].0 == k {
                return Some(i);
            }
            i = i + 1;
        }
        None
    }

    pub fn get(&self, k: u64) -> (r: Option<u128>)
        requires
            self.wf(),
        ensures
            match r {
                Some(v) => self.as_map().dom().contains(k) && self.as_map()[k] == v,
                None => !self.as_map().dom().contains(k),
            },
    {
        proof {
            lemma_kv_map_domain(self.entries@);
            lemma_kv_map_values(self.entries@);
        }
        match self.find(k) {
            Some(i) => Some(self.entries[i].1),
            None => None,
        }
    }

    /// The amount held under a key, zero when the key is absent.
    pub fn amount(&self, k: u64) -> (r: u128)
        requires
            self.wf(),
        ensures
            r == self.amount_of(k),
    {
        match self.get(k) {
            Some(v) => v,
            None => 0,
        }
    }

    /// Store an amount under a key, replacing any previous amount.
    pub fn set(&mut self, k: u64, v: u128)
        requires
            old(self).wf(),
        ensures
            final(self).wf(),
            final(self).as_map() == old(self).as_map().insert(k, v),
            final(self).total() == old(self).total() - old(self).amount_of(k) + v,
            old(self).as_map().dom().contains(k) ==> final(self).entries@.len() == old(
                self,
            ).entries@.len(),
            !old(self).as_map().dom().contains(k) ==> final(self).entries@.len() == old(
                self,
            ).entries@.len() + 1,
    {
        proof {
            lemma_kv_map_domain(self.entries@);
            lemma_kv_map_values(self.entries@);
        }
        match self.find(k) {
            Some(i) => {
                proof {
                    lemma_kv_map_update(self.entries@, i as int, (k, v));
                    lemma_kv_sum_update(self.entries@, i as int, (k, v));
                }
                self.entries.set(i, (k, v));
            },
            None => {
                proof {
                    lemma_kv_map_push(self.entries@, (k, v));
                    lemma_kv_sum_push(self.entries@, (k, v));
                }
                self.entries.push((k, v));
            },
        }
    }

    /// Add an amount to the amount held under a key.  Fails, changing
    /// nothing, exactly when the addition would overflow.
    pub fn add(&mut self, k: u64, delta: u128) -> (ok: bool)
        requires
            old(self).wf(),
        ensures
            final(self).wf(),
            ok <==> old(self).amount_of(k) + delta <= u128::MAX,
            ok ==> final(self).as_map() == old(self).as_map().insert(
                k,
                (old(self).amount_of(k) + delta) as u128,
            ),
            ok ==> final(self).total() == old(self).total() + delta,
            !ok ==> *final(self) == *old(self),
    {
        let cur = self.amount(k);
        match cur.checked_add(delta) {
            Some(n) => {
                self.set(k, n);
                true
            },
            None => false,
        }
    }

    /// Remove every entry.
    pub fn clear(&mut self)
        ensures
            final(self).wf(),
            final(self).as_map() == Map::<u64, u128>::empty(),
            final(self).total() == 0,
            final(self).entries@.len() == 0,
    {
        self.entries.clear();
    }

    pub fn len(&self) -> (r: usize)
        ensures
            r == self.entries@.len(),
    {
        self.entries.len()
    }

    /// The pair stored at a position.
    pub fn pair_at(&self, i: usize) -> (r: (u64, u128))
        requires
            i < self.entries@.len(),
        ensures
            r == self.entries@[i as int],
    {
        self.entries[i]
    }

    /// An identical copy of the store.
    pub fn duplicate(&self) -> (r: AmountMap)
        ensures
            r.entries@ == self.entries@,
    {
        let mut entries: Vec<(u64, u128)> = Vec::new();
        let mut i: usize = 0;
        proof {
            assert(self.entries@.take(0) =~= Seq::<(u64, u128)>::empty());
        }
        while i < self.entries.len()
            invariant
                i <= self.entries@.len(),
                entries@ == self.entries@.take(i as int),
            decreases self.entries@.len() - i,
        {
            entries.push(self.entries[i]);
            proof {
                assert(self.entries@.take(i + 1) =~= self.entries@.take(i as int).push(
                    self.entries@[i as int],
                ));
            }
            i = i + 1;
        }
        proof {
            assert(self.entries@.take(self.entries@.len() as int) =~= self.entries@);
        }
        AmountMap { entries }
    }

    /// No single amount exceeds the sum of all amounts.
    pub proof fn lemma_amount_le_total(self, k: u64)
        requires
            self.wf(),
        ensures
            self.amount_of(k) <= self.total(),
    {
        lemma_kv_map_domain(self.entries@);
        lemma_kv_map_values(self.entries@);
        if self.as_map().dom().contains(k) {
            let i = choose|i: int| 0 <= i < self.entries@.len() && (#[trigger] self.entries@[i]).0 == k;
            lemma_kv_sum_value_le(self.entries@, i);
        } else {
            lemma_kv_sum_nonneg(self.entries@);
        }
    }

    /// The amounts under two distinct keys together do not exceed the sum.
    pub proof fn lemma_two_amounts_le_total(self, k1: u64, k2: u64)
        requires
            self.wf(),
            k1 != k2,
        ensures
            self.amount_of(k1) + self.amount_of(k2) <= self.total(),
    {
        lemma_kv_map_domain(self.entries@);
        lemma_kv_map_values(self.entries@);
        if self.as_map().dom().contains(k1) && self.as_map().dom().contains(k2) {
            let i = choose|i: int| 0 <= i < self.entries@.len() && (#[trigger] self.entries@[i]).0 == k1;
            let j = choose|j: int| 0 <= j < self.entries@.len() && (#[trigger] self.entries@[j]).0 == k2;
            if i < j {
                lemma_kv_sum_pair_le(self.entries@, i, j);
            } else {
                lemma_kv_sum_pair_le(self.entries@, j, i);
            }
        } else if self.as_map().dom().contains(k1) {
            self.lemma_amount_le_total(k1);
        } else {
            self.lemma_amount_le_total(k2);
        }
    }

    /// The sum of all stored amounts, clamped to the largest amount.
    pub fn total_saturating(&self) -> (r: u128)
        ensures
            self.total() <= u128::MAX ==> r == self.total(),
            self.total() > u128::MAX ==> r == u128::MAX,
    {
        let mut acc: u128 = 0;
        let mut i: usize = 0;
        proof {
            assert(self.entries@.take(0) =~= Seq::<(u64, u128)>::empty());
        }
        while i < self.entries.len()
            invariant
                i <= self.entries@.len(),
                kv_sum(self.entries@.take(i as int)) <= u128::MAX ==> acc == kv_sum(
                    self.entries@.take(i as int),
                ),
                kv_sum(self.entries@.take(i as int)) > u128::MAX ==> acc == u128::MAX,
            decreases self.entries@.len() - i,
        {
            proof {
                assert(self.entries@.take(i + 1).drop_last() =~= self.entries@.take(i as int));
                assert(self.entries@.take(i + 1).last() == self.entries@[i as int]);
                lemma_kv_sum_nonneg(self.entries@.take(i as int));
            }
            acc = match acc.checked_add(self.entries[i].1) {
                Some(n) => n,
                None => u128::MAX,
            };
            i = i + 1;
        }
        proof {
            assert(self.entries@.take(self.entries@.len() as int) =~= self.entries@);
        }
        acc
    }
}

} // verus!
