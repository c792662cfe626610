//! The liquid-staking pool itself.
//!
//! A [`Pallet`] value bundles the pool's configuration, the two account
//! ledgers and the staking backend it works against, and the pool's own
//! persistent state: the era tracker, the redemption ledger and the
//! nomination lock and tally stores.  Every operation either completes,
//! or rejects with an [`Error`] and leaves the whole state unchanged.

use vstd::prelude::*;
use crate::account::{account_from_seed, account_of_seed, lemma_distinct_seeds_distinct_accounts};
use crate::amount_map::AmountMap;
use crate::ledger::Ledger;
use crate::redemptions::RedemptionLedger;
use crate::staking::StakingBackend;
use crate::exchange::{lemma_mint_quantity_bounds, mint_quantity, quantity_to_mint};
use crate::election::{is_top_selection, select_top};
use crate::kv::{kv_key_sum, kv_sum, lemma_kv_key_sum_take_le, lemma_kv_map_domain,
    lemma_kv_sum_nonneg, lemma_kv_sum_take_le};
use crate::types::{Config, Error, Event};

verus! {

/// The pool: configuration, collaborators and persistent state.
pub struct Pallet {
    pub config: Config,
    /// The base-asset ledger.
    pub main: Ledger,
    /// The derivative-token ledger.
    pub derivative: Ledger,
    /// The external staking backend.
    pub staking: StakingBackend,
    /// The era observed as of the previous processed block.
    pub era_of_previous_block: Option<u32>,
    /// The block at which the currently tracked era began, once a rollover
    /// has been seen.
    pub era_start_block: Option<u64>,
    /// The most recently processed block.
    pub current_block: u64,
    /// Pending redemptions per account and availability era.
    pub redemptions: RedemptionLedger,
    /// Derivative tokens locked per account during the voting window.
    pub nomination_locks: AmountMap,
    /// Weighted votes received per candidate validator in this window.
    pub nomination_votes: AmountMap,
    /// Notifications emitted so far, oldest first.
    pub events: Vec<Event>,
}

impl Pallet {
    /// Every component is well formed; the nomination-lock store agrees
    /// with the locks of the derivative ledger account by account; and the
    /// votes tallied in a window total exactly the tokens locked for it.
    pub open spec fn wf(self) -> bool {
        &&& self.config.wf()
        &&& self.main.wf()
        &&& self.derivative.wf()
        &&& self.staking.wf()
        &&& self.redemptions.wf(self.config.withdrawal_bound)
        &&& self.nomination_locks.wf()
        &&& self.nomination_votes.wf()
        &&& forall|a: u64| #[trigger] self.nomination_locks.amount_of(a) == self.derivative.locked_of(a)
        &&& self.nomination_votes.total() == self.nomination_locks.total()
        &&& self.era_start_block is Some ==> self.era_of_previous_block is Some
    }

    /// The controller account the configuration derives.
    pub open spec fn controller_id(self) -> u64 {
        account_of_seed(self.config.pallet_id@)
    }

    /// The stash account the configuration derives.
    pub open spec fn stash_id(self) -> u64 {
        account_of_seed(self.config.pallet_id2@)
    }

    /// Whether the most recently processed block lies in the voting
    /// window of the currently tracked era.
    pub open spec fn voting_open(self) -> bool {
        match self.era_start_block {
            Some(s) => s <= self.current_block < s
                + self.config.nominator_voting_period_blocks,
            None => false,
        }
    }

    /// A fresh pool over empty ledgers and a staking backend whose era
    /// clock starts as given.
    pub fn new(config: Config, current_era: u32, bonding_duration: u32, minimum_bond: u128) -> (r:
        Pallet)
        requires
            config.wf(),
            current_era + bonding_duration <= u32::MAX,
        ensures
            r.wf(),
            r.config == config,
            forall|a: u64| #[trigger] r.main.balance_of(a) == 0,
            forall|a: u64| #[trigger] r.main.locked_of(a) == 0,
            forall|a: u64| #[trigger] r.derivative.balance_of(a) == 0,
            forall|a: u64| #[trigger] r.derivative.locked_of(a) == 0,
            r.main.issuance == 0,
            r.derivative.issuance == 0,
            r.staking.current_era == current_era,
            r.staking.bonding_duration == bonding_duration,
            r.staking.minimum_bond == minimum_bond,
            r.staking.bonded.as_map() == Map::<u64, u128>::empty(),
            r.staking.nominations is None,
            r.staking.validators@ == Seq::<u64>::empty(),
            r.era_of_previous_block is None,
            r.era_start_block is None,
            r.current_block == 0,
            r.redemptions.account_map() == Map::<u64, crate::era_map::EraMap>::empty(),
            r.nomination_locks.as_map() == Map::<u64, u128>::empty(),
            r.nomination_votes.as_map() == Map::<u64, u128>::empty(),
            r.events@ == Seq::<Event>::empty(),
    {
        let r = Pallet {
            config,
            main: Ledger::new(),
            derivative: Ledger::new(),
            staking: StakingBackend::new(current_era, bonding_duration, minimum_bond),
            era_of_previous_block: None,
            era_start_block: None,
            current_block: 0,
            redemptions: RedemptionLedger::new(),
            nomination_locks: AmountMap::new(),
            nomination_votes: AmountMap::new(),
            events: Vec::new(),
        };
        proof {
            assert forall|a: u64| #[trigger] r.nomination_locks.amount_of(a)
                == r.derivative.locked_of(a) by {
                assert(!r.nomination_locks.as_map().dom().contains(a));
                assert(r.derivative.locked_of(a) == 0);
            }
        }
        r
    }

    /// The account used to authorize staking instructions.
    pub fn controller_account_id(&self) -> (r: u64)
        ensures
            r == self.controller_id(),
    {
        account_from_seed(&self.config.pallet_id)
    }

    /// The account holding the pooled base-asset stake.
    pub fn stash_account_id(&self) -> (r: u64)
        ensures
            r == self.stash_id(),
    {
        account_from_seed(&self.config.pallet_id2)
    }

    /// The stash and the controller are distinct accounts: the two
    /// configured seeds differ within the four bytes that reach the
    /// derived account value.
    pub proof fn lemma_pool_accounts_distinct(self)
        requires
            self.config.wf(),
        ensures
            self.stash_id() != self.controller_id(),
    {
        lemma_distinct_seeds_distinct_accounts(self.config.pallet_id@, self.config.pallet_id2@);
    }

    /// Whether the exchange-rate arithmetic of a deposit overflows the
    /// amount type: either the issuance-deposit product does, or the
    /// issuance grown by the minted quantity would.
    pub open spec fn mint_overflows(self, amount: u128) -> bool {
        ||| self.derivative.issuance * amount > u128::MAX
        ||| self.derivative.issuance + mint_quantity(
            amount,
            self.main.balance_of(self.stash_id()),
            self.derivative.issuance,
        ) > u128::MAX
    }

    /// Stake an amount of the base asset.
    ///
    /// The amount must strictly exceed the configured minimum and be
    /// covered by the caller's free base-asset balance.  The deposit is
    /// transferred to the stash, the exchange-rate-weighted quantity of
    /// derivative token is minted to the caller, and the deposit is bonded
    /// with the staking backend: added to the stash's bonded funds when
    /// the stash is already a registered staker, else by registering the
    /// stash with the controller as its authorization account.  A
    /// rejected call leaves the pool unchanged.
    pub fn add_stake(&mut self, who: u64, amount: u128) -> (r: Result<(), Error>)
        requires
            old(self).wf(),
        ensures
            final(self).wf(),
            r == Err::<(), Error>(Error::InsufficientStake) <==> amount <= old(self).config.minimum_stake,
            amount > old(self).config.minimum_stake ==> (r == Err::<(), Error>(
                Error::ExceededMaxStake,
            ) <==> old(self).mint_overflows(amount)),
            amount > old(self).config.minimum_stake && !old(self).mint_overflows(amount) ==> (r
                == Err::<(), Error>(Error::InsufficientBalance) <==> amount > old(self).main.free_of(who)),
            r is Ok <==> amount > old(self).config.minimum_stake && !old(self).mint_overflows(
                amount,
            ) && amount <= old(self).main.free_of(who),
            r is Err ==> *final(self) == *old(self),
            r is Ok ==> final(self).main.issuance == old(self).main.issuance && final(self).main.locks == old(self).main.locks,
            r is Ok && who != old(self).stash_id() ==> final(self).main.balance_of(who) == old(self).main.balance_of(who) - amount && final(self).main.balance_of(old(self).stash_id())
                == old(self).main.balance_of(old(self).stash_id()) + amount,
            r is Ok && who == old(self).stash_id() ==> final(self).main.balances == old(self).main.balances,
            r is Ok ==> forall|x: u64|
                x != who && x != old(self).stash_id() ==> #[trigger] final(self).main.balance_of(x)
                    == old(self).main.balance_of(x),
            r is Ok ==> final(self).derivative.balance_of(who) == old(self).derivative.balance_of(
                who,
            ) + mint_quantity(
                amount,
                old(self).main.balance_of(old(self).stash_id()),
                old(self).derivative.issuance,
            ),
            r is Ok ==> final(self).derivative.issuance == old(self).derivative.issuance
                + mint_quantity(
                amount,
                old(self).main.balance_of(old(self).stash_id()),
                old(self).derivative.issuance,
            ),
            r is Ok ==> forall|x: u64|
                x != who ==> #[trigger] final(self).derivative.balance_of(x) == old(self).derivative.balance_of(x),
            r is Ok ==> final(self).derivative.locks == old(self).derivative.locks,
            r is Ok && old(self).staking.bonded.as_map().dom().contains(old(self).stash_id())
                ==> final(self).staking.bonded.as_map() == old(self).staking.bonded.as_map().insert(
                old(self).stash_id(),
                (if old(self).staking.bonded.amount_of(old(self).stash_id()) + amount <= u128::MAX {
                    (old(self).staking.bonded.amount_of(old(self).stash_id()) + amount) as u128
                } else {
                    u128::MAX
                }),
            ),
            r is Ok && !old(self).staking.bonded.as_map().dom().contains(old(self).stash_id())
                ==> final(self).staking.bonded.as_map() == old(self).staking.bonded.as_map().insert(
                old(self).stash_id(),
                amount,
            ),
            r is Ok ==> final(self).staking.current_era == old(self).staking.current_era && final(self).staking.bonding_duration == old(self).staking.bonding_duration && final(self).staking.minimum_bond == old(self).staking.minimum_bond && final(self).staking.nominations == old(self).staking.nominations && final(self).staking.validators == old(self).staking.validators,
            r is Ok ==> final(self).events@ == old(self).events@.push(
                Event::StakeAdded(who, amount),
            ),
            r is Ok ==> final(self).config == old(self).config && final(self).era_of_previous_block == old(self).era_of_previous_block && final(self).era_start_block == old(self).era_start_block && final(self).current_block == old(self).current_block && final(self).redemptions == old(self).redemptions && final(self).nomination_locks == old(self).nomination_locks && final(self).nomination_votes == old(self).nomination_votes,
    {
        if amount <= self.config.minimum_stake {
            return Err(Error::InsufficientStake);
        }
        let pot = self.stash_account_id();
        let total_staked = self.main.total_balance(pot);
        let issuance = self.derivative.total_issuance();
        let q = match quantity_to_mint(amount, total_staked, issuance) {
            Ok(q) => q,
            Err(e) => {
                return Err(e);
            },
        };
        proof {
            lemma_mint_quantity_bounds(amount, total_staked, issuance);
        }
        if q > u128::MAX - issuance {
            return Err(Error::ExceededMaxStake);
        }
        let transferred = self.main.transfer(who, pot, amount);
        if !transferred {
            return Err(Error::InsufficientBalance);
        }
        let minted = self.derivative.mint(who, q);
        assert(minted);
        let bonded = self.staking.bond_extra(pot, amount);
        if !bonded {
            let controller = self.controller_account_id();
            self.staking.bond(pot, controller, amount, pot);
        }
        self.events.push(Event::StakeAdded(who, amount));
        Ok(())
    }

    /// The era in which funds redeemed now become withdrawable.
    pub open spec fn availability_era(self) -> u32 {
        (self.staking.current_era + self.staking.bonding_duration) as u32
    }

    /// Redeem an amount of the derivative token.
    ///
    /// The amount must be covered by the caller's free derivative
    /// balance.  It is burned at once -- the supply contracts right away
    /// -- and the burned quantity is recorded against the era in which
    /// the staking backend will have unbonded the underlying funds, the
    /// current era plus the bonding duration.  Amounts redeemed toward
    /// the same era accumulate; a redemption that would open more
    /// distinct pending eras than the configured bound allows is
    /// rejected.  A rejected call leaves the pool unchanged.
    pub fn redeem_stake(&mut self, who: u64, amount: u128) -> (r: Result<(), Error>)
        requires
            old(self).wf(),
        ensures
            final(self).wf(),
            r == Err::<(), Error>(Error::InsufficientFundsForRedemption) <==> amount > old(self).derivative.free_of(who),
            amount <= old(self).derivative.free_of(who) ==> (r == Err::<(), Error>(
                Error::VoteQuantityInvalid,
            ) <==> old(self).redemptions.has_entry(who, old(self).availability_era()) && old(self).redemptions.amount_at(who, old(self).availability_era()) + amount > u128::MAX),
            amount <= old(self).derivative.free_of(who) ==> (r == Err::<(), Error>(
                Error::TooManyRedemptionsAwaitingWithdrawal,
            ) <==> !old(self).redemptions.has_entry(who, old(self).availability_era()) && old(self).redemptions.era_count(who) >= old(self).config.withdrawal_bound),
            r is Ok <==> amount <= old(self).derivative.free_of(who) && ((old(self).redemptions.has_entry(who, old(self).availability_era()) && old(self).redemptions.amount_at(who, old(self).availability_era()) + amount <= u128::MAX) || (
            !old(self).redemptions.has_entry(who, old(self).availability_era()) && old(self).redemptions.era_count(who) < old(self).config.withdrawal_bound)),
            r is Err ==> *final(self) == *old(self),
            r is Ok ==> final(self).derivative.balance_of(who) == old(self).derivative.balance_of(
                who,
            ) - amount,
            r is Ok ==> final(self).derivative.issuance == old(self).derivative.issuance - amount,
            r is Ok ==> forall|x: u64|
                x != who ==> #[trigger] final(self).derivative.balance_of(x) == old(self).derivative.balance_of(x),
            r is Ok ==> final(self).derivative.locks == old(self).derivative.locks,
            r is Ok ==> final(self).redemptions.has_entry(who, old(self).availability_era()),
            r is Ok ==> final(self).redemptions.amount_at(who, old(self).availability_era())
                == old(self).redemptions.amount_at(who, old(self).availability_era()) + amount,
            r is Ok ==> final(self).redemptions.era_count(who) == (if old(self).redemptions.has_entry(who, old(self).availability_era()) {
                old(self).redemptions.era_count(who)
            } else {
                old(self).redemptions.era_count(who) + 1
            }),
            r is Ok ==> forall|w: u64, e: u32|
                !(w == who && e == old(self).availability_era()) ==> #[trigger] final(self).redemptions.amount_at(w, e) == old(self).redemptions.amount_at(w, e),
            r is Ok ==> forall|w: u64, e: u32|
                !(w == who && e == old(self).availability_era()) ==> (#[trigger] final(self).redemptions.has_entry(w, e) <==> old(self).redemptions.has_entry(w, e)),
            r is Ok ==> forall|w: u64|
                w != who ==> #[trigger] final(self).redemptions.era_count(w) == old(self).redemptions.era_count(w),
            r is Ok ==> final(self).events@ == old(self).events@.push(
                Event::DerivativeRedeemed(who, amount, old(self).availability_era()),
            ),
            r is Ok ==> final(self).main == old(self).main && final(self).staking == old(self).staking && final(self).config == old(self).config && final(self).era_of_previous_block == old(self).era_of_previous_block && final(self).era_start_block == old(self).era_start_block && final(self).current_block == old(self).current_block && final(self).nomination_locks == old(self).nomination_locks && final(self).nomination_votes == old(self).nomination_votes,
    {
        let free = self.derivative.free_balance(who);
        if amount > free {
            return Err(Error::InsufficientFundsForRedemption);
        }
        let era_available = self.staking.current_era + self.staking.bonding_duration;
        match self.redemptions.record(who, era_available, amount, self.config.withdrawal_bound) {
            Err(e) => {
                return Err(e);
            },
            Ok(_) => {},
        }
        let burned = self.derivative.burn(who, amount);
        assert(burned);
        self.events.push(Event::DerivativeRedeemed(who, amount, era_available));
        Ok(())
    }

    /// Submit a nomination slate: an ordered list of (validator, weight)
    /// pairs, at most the configured maximum of them.
    ///
    /// The call is accepted only while the voting window is open and
    /// every named validator is an eligible candidate.  The weights are
    /// summed with checked arithmetic; the sum must be covered by the
    /// caller's free derivative balance.  That many tokens are locked in
    /// the caller's account -- locks from repeated calls in one window
    /// accumulate -- and each weight is added to its validator's tally.
    /// A rejected call, tally overflow included, leaves the pool
    /// unchanged.
    pub fn nominate(&mut self, who: u64, nominations: Vec<(u64, u128)>) -> (r: Result<(), Error>)
        requires
            old(self).wf(),
            nominations@.len() <= old(self).config.max_validator_nominees,
        ensures
            final(self).wf(),
            r == Err::<(), Error>(Error::VoteUnauthorized) <==> !old(self).voting_open(),
            old(self).voting_open() ==> (r == Err::<(), Error>(Error::NoSuchValidator) <==> exists|i: int|
                0 <= i < nominations@.len() && !old(self).staking.validators@.contains(
                    (#[trigger] nominations@[i]).0,
                )),
            old(self).voting_open() && (forall|i: int|
                0 <= i < nominations@.len() ==> old(self).staking.validators@.contains(
                    (#[trigger] nominations@[i]).0,
                )) ==> (r == Err::<(), Error>(Error::VoteQuantityInvalid) <==> kv_sum(nominations@)
                > u128::MAX || kv_sum(nominations@) > old(self).derivative.free_of(who)),
            old(self).voting_open() && (forall|i: int|
                0 <= i < nominations@.len() ==> old(self).staking.validators@.contains(
                    (#[trigger] nominations@[i]).0,
                )) && kv_sum(nominations@) <= u128::MAX && kv_sum(nominations@) <= old(self).derivative.free_of(who) ==> (r == Err::<(), Error>(Error::ValidatorVoteQuantityInvalid)
                <==> exists|i: int|
                0 <= i < nominations@.len() && old(self).nomination_votes.amount_of(
                    (#[trigger] nominations@[i]).0,
                ) + kv_key_sum(nominations@, nominations@[i].0) > u128::MAX),
            r is Ok <==> old(self).voting_open() && (forall|i: int|
                0 <= i < nominations@.len() ==> old(self).staking.validators@.contains(
                    (#[trigger] nominations@[i]).0,
                )) && kv_sum(nominations@) <= u128::MAX && kv_sum(nominations@) <= old(self).derivative.free_of(who) && (forall|i: int|
                0 <= i < nominations@.len() ==> old(self).nomination_votes.amount_of(
                    (#[trigger] nominations@[i]).0,
                ) + kv_key_sum(nominations@, nominations@[i].0) <= u128::MAX),
            r is Err ==> *final(self) == *old(self),
            r is Ok ==> final(self).nomination_locks.amount_of(who) == old(self).nomination_locks.amount_of(who) + kv_sum(nominations@),
            r is Ok ==> forall|x: u64|
                x != who ==> #[trigger] final(self).nomination_locks.amount_of(x) == old(self).nomination_locks.amount_of(x),
            r is Ok ==> final(self).derivative.locked_of(who) == old(self).derivative.locked_of(
                who,
            ) + kv_sum(nominations@),
            r is Ok ==> forall|x: u64|
                x != who ==> #[trigger] final(self).derivative.locked_of(x) == old(self).derivative.locked_of(x),
            r is Ok ==> final(self).derivative.balances == old(self).derivative.balances && final(self).derivative.issuance == old(self).derivative.issuance,
            r is Ok ==> forall|v: u64| #[trigger]
                final(self).nomination_votes.amount_of(v) == old(self).nomination_votes.amount_of(
                    v,
                ) + kv_key_sum(nominations@, v),
            r is Ok ==> final(self).main == old(self).main && final(self).staking == old(self).staking && final(self).config == old(self).config && final(self).era_of_previous_block == old(self).era_of_previous_block && final(self).era_start_block == old(self).era_start_block && final(self).current_block == old(self).current_block && final(self).redemptions == old(self).redemptions && final(self).events == old(self).events,
    {
        let open = match self.era_start_block {
            Some(s) => self.current_block >= s && self.current_block - s
                < self.config.nominator_voting_period_blocks,
            None => false,
        };
        if !open {
            return Err(Error::VoteUnauthorized);
        }
        let mut i: usize = 0;
        while i < nominations.len()
            invariant
                *self == *old(self),
                old(self).wf(),
                old(self).voting_open(),
                i <= nominations@.len(),
                forall|j: int|
                    0 <= j < i ==> old(self).staking.validators@.contains(
                        (#[trigger] nominations@[j]).0,
                    ),
            decreases nominations@.len() - i,
        {
            if !self.staking.is_validator(nominations[i].0) {
                return Err(Error::NoSuchValidator);
            }
            i = i + 1;
        }
        let mut total: u128 = 0;
        let mut k: usize = 0;
        proof {
            assert(nominations@.take(0) =~= Seq::<(u64, u128)>::empty());
        }
        while k < nominations.len()
            invariant
                *self == *old(self),
                old(self).wf(),
                old(self).voting_open(),
                forall|j: int|
                    0 <= j < nominations@.len() ==> old(self).staking.validators@.contains(
                        (#[trigger] nominations@[j]).0,
                    ),
                k <= nominations@.len(),
                total == kv_sum(nominations@.take(k as int)),
            decreases nominations@.len() - k,
        {
            let w = nominations[k].1;
            proof {
                assert(nominations@.take(k + 1).drop_last() =~= nominations@.take(k as int));
                assert(nominations@.take(k + 1).last() == nominations@[k as int]);
            }
            match total.checked_add(w) {
                Some(t) => {
                    total = t;
                },
                None => {
                    proof {
                        lemma_kv_sum_take_le(nominations@, k + 1);
                    }
                    return Err(Error::VoteQuantityInvalid);
                },
            }
            k = k + 1;
        }
        proof {
            assert(nominations@.take(nominations@.len() as int) =~= nominations@);
        }
        let free = self.derivative.free_balance(who);
        if total > free {
            return Err(Error::VoteQuantityInvalid);
        }
        let mut scratch = self.nomination_votes.duplicate();
        let mut t: usize = 0;
        while t < nominations.len()
            invariant
                *self == *old(self),
                old(self).wf(),
                old(self).voting_open(),
                forall|j: int|
                    0 <= j < nominations@.len() ==> old(self).staking.validators@.contains(
                        (#[trigger] nominations@[j]).0,
                    ),
                kv_sum(nominations@) <= u128::MAX,
                kv_sum(nominations@) <= old(self).derivative.free_of(who),
                t <= nominations@.len(),
                scratch.wf(),
                forall|v: u64| #[trigger]
                    scratch.amount_of(v) == old(self).nomination_votes.amount_of(v) + kv_key_sum(
                        nominations@.take(t as int),
                        v,
                    ),
                scratch.total() == old(self).nomination_votes.total() + kv_sum(
                    nominations@.take(t as int),
                ),
            decreases nominations@.len() - t,
        {
            let pair = nominations[t];
            proof {
                assert(nominations@.take(t + 1).drop_last() =~= nominations@.take(t as int));
                assert(nominations@.take(t + 1).last() == nominations@[t as int]);
                assert(kv_sum(nominations@.take(t as int)) >= 0) by {
                    lemma_kv_sum_nonneg(nominations@.take(t as int));
                }
            }
            let ghost scratch0 = scratch;
            let added = scratch.add(pair.0, pair.1);
            if !added {
                proof {
                    lemma_kv_key_sum_take_le(nominations@, t + 1, pair.0);
                    assert(old(self).nomination_votes.amount_of(nominations@[t as int].0)
                        + kv_key_sum(nominations@, nominations@[t as int].0) > u128::MAX);
                }
                return Err(Error::ValidatorVoteQuantityInvalid);
            }
            proof {
                assert forall|v: u64| #[trigger]
                    scratch.amount_of(v) == old(self).nomination_votes.amount_of(v) + kv_key_sum(
                        nominations@.take(t + 1),
                        v,
                    ) by {
                    if v != pair.0 {
                        assert(scratch.amount_of(v) == scratch0.amount_of(v));
                        assert(scratch0.amount_of(v) == old(self).nomination_votes.amount_of(v)
                            + kv_key_sum(nominations@.take(t as int), v));
                    }
                }
            }
            t = t + 1;
        }
        proof {
            assert(nominations@.take(nominations@.len() as int) =~= nominations@);
            assert forall|i2: int| 0 <= i2 < nominations@.len() implies old(self).nomination_votes.amount_of((#[trigger] nominations@[i2]).0) + kv_key_sum(
                nominations@,
                nominations@[i2].0,
            ) <= u128::MAX by {
                assert(scratch.amount_of(nominations@[i2].0) == old(self).nomination_votes.amount_of(nominations@[i2].0) + kv_key_sum(
                    nominations@,
                    nominations@[i2].0,
                ));
            }
        }
        let lock_ok = self.nomination_locks.add(who, total);
        assert(lock_ok);
        let ledger_ok = self.derivative.add_locked(who, total);
        assert(ledger_ok);
        self.nomination_votes = scratch;
        proof {
            assert forall|a: u64| #[trigger] self.nomination_locks.amount_of(a)
                == self.derivative.locked_of(a) by {
                if a != who {
                    assert(old(self).nomination_locks.amount_of(a) == old(self).derivative.locked_of(a));
                }
            }
        }
        Ok(())
    }

    /// Whether the era clock has moved past the era recorded for the
    /// previous block.
    pub open spec fn sees_new_era(self) -> bool {
        match self.era_of_previous_block {
            Some(prev) => self.staking.current_era > prev,
            None => false,
        }
    }

    /// Whether processing the given block closes the voting window: no
    /// era rollover is pending and the block lies exactly one window
    /// length after the recorded era start.
    pub open spec fn window_closes_at(self, block_number: u64) -> bool {
        &&& self.era_of_previous_block is Some
        &&& !self.sees_new_era()
        &&& match self.era_start_block {
            Some(s) => block_number >= s && block_number - s
                == self.config.nominator_voting_period_blocks,
            None => false,
        }
    }

    /// Whether the votes cast in the closing window reach a quorum: a
    /// majority of the derivative token's total issuance.
    pub open spec fn quorum_reached(self) -> bool {
        kv_sum(self.nomination_votes.entries@) > self.derivative.issuance / 2
    }

    /// Close the voting window: release every nomination lock, have the
    /// staking backend nominate the strongest candidates when a quorum
    /// of the derivative issuance voted (else keep the previous
    /// nominations), and reset the lock and tally stores.
    fn close_voting_window(&mut self)
        requires
            old(self).wf(),
        ensures
            final(self).wf(),
            forall|a: u64| #[trigger] final(self).derivative.locked_of(a) == 0,
            final(self).derivative.balances == old(self).derivative.balances,
            final(self).derivative.issuance == old(self).derivative.issuance,
            final(self).nomination_locks.as_map() == Map::<u64, u128>::empty(),
            final(self).nomination_votes.as_map() == Map::<u64, u128>::empty(),
            old(self).quorum_reached() ==> (match final(self).staking.nominations {
                Some(sel) => is_top_selection(
                    old(self).nomination_votes.as_map(),
                    old(self).config.max_validator_nominees as int,
                    sel@,
                ),
                None => false,
            }),
            !old(self).quorum_reached() ==> final(self).staking.nominations == old(self).staking.nominations,
            final(self).staking.bonded == old(self).staking.bonded,
            final(self).staking.current_era == old(self).staking.current_era,
            final(self).staking.bonding_duration == old(self).staking.bonding_duration,
            final(self).staking.minimum_bond == old(self).staking.minimum_bond,
            final(self).staking.validators == old(self).staking.validators,
            final(self).main == old(self).main,
            final(self).config == old(self).config,
            final(self).era_of_previous_block == old(self).era_of_previous_block,
            final(self).era_start_block == old(self).era_start_block,
            final(self).current_block == old(self).current_block,
            final(self).redemptions == old(self).redemptions,
            final(self).events == old(self).events,
    {
        let n = self.nomination_locks.len();
        let mut i: usize = 0;
        while i < n
            invariant
                old(self).wf(),
                n == old(self).nomination_locks.entries@.len(),
                i <= n,
                self.nomination_locks == old(self).nomination_locks,
                self.nomination_votes == old(self).nomination_votes,
                self.main == old(self).main,
                self.staking == old(self).staking,
                self.config == old(self).config,
                self.era_of_previous_block == old(self).era_of_previous_block,
                self.era_start_block == old(self).era_start_block,
                self.current_block == old(self).current_block,
                self.redemptions == old(self).redemptions,
                self.events == old(self).events,
                self.derivative.wf(),
                self.derivative.balances == old(self).derivative.balances,
                self.derivative.issuance == old(self).derivative.issuance,
                forall|j: int|
                    0 <= j < i ==> self.derivative.locked_of(
                        (#[trigger] old(self).nomination_locks.entries@[j]).0,
                    ) == 0,
                forall|a: u64|
                    (forall|j: int|
                        0 <= j < i ==> (#[trigger] old(self).nomination_locks.entries@[j]).0 != a)
                        ==> #[trigger] self.derivative.locked_of(a) == old(self).derivative.locked_of(a),
            decreases n - i,
        {
            let pair = self.nomination_locks.pair_at(i);
            self.derivative.set_locked(pair.0, 0);
            i = i + 1;
        }
        proof {
            lemma_kv_map_domain(old(self).nomination_locks.entries@);
            assert forall|a: u64| #[trigger] self.derivative.locked_of(a) == 0 by {
                if exists|j: int|
                    0 <= j < n && (#[trigger] old(self).nomination_locks.entries@[j]).0 == a {
                } else {
                    assert(!old(self).nomination_locks.as_map().dom().contains(a));
                    assert(old(self).nomination_locks.amount_of(a) == 0);
                    assert(old(self).nomination_locks.amount_of(a) == old(self).derivative.locked_of(a));
                }
            }
        }
        let total_votes = self.nomination_votes.total_saturating();
        let issuance = self.derivative.total_issuance();
        let quorum = total_votes > issuance / 2;
        proof {
            if self.nomination_votes.total() > u128::MAX {
                assert(issuance / 2 < u128::MAX);
                assert(quorum);
                assert(old(self).quorum_reached());
            }
        }
        if quorum {
            let count = self.config.max_validator_nominees;
            let sel = select_top(&self.nomination_votes, count as usize);
            let stash = self.stash_account_id();
            self.staking.nominate(stash, sel);
        }
        self.nomination_locks.clear();
        self.nomination_votes.clear();
        proof {
            assert forall|a: u64| #[trigger] self.nomination_locks.amount_of(a)
                == self.derivative.locked_of(a) by {
                assert(!self.nomination_locks.as_map().dom().contains(a));
            }
        }
    }

    /// The per-block hook: run once at the start of each block, before
    /// any other operation of that block.
    ///
    /// On the first processed block it records the backend's era.  When
    /// the backend's era has advanced past the recorded one, it records
    /// the new era and the block as the era's start.  One window length
    /// after a recorded era start it closes the voting window.  In every
    /// other case it only notes the block.  The returned weight is 10
    /// for an era bookkeeping step, 100 for a window close, else 0.
    pub fn on_block_advance(&mut self, block_number: u64) -> (weight: u64)
        requires
            old(self).wf(),
        ensures
            final(self).wf(),
            final(self).current_block == block_number,
            final(self).config == old(self).config,
            final(self).main == old(self).main,
            final(self).redemptions == old(self).redemptions,
            final(self).events == old(self).events,
            final(self).staking.bonded == old(self).staking.bonded,
            final(self).staking.current_era == old(self).staking.current_era,
            final(self).staking.bonding_duration == old(self).staking.bonding_duration,
            final(self).staking.minimum_bond == old(self).staking.minimum_bond,
            final(self).staking.validators == old(self).staking.validators,
            old(self).era_of_previous_block is None ==> final(self).era_of_previous_block == Some(
                old(self).staking.current_era,
            ) && final(self).era_start_block == old(self).era_start_block && weight == 10,
            old(self).sees_new_era() ==> final(self).era_of_previous_block == Some(
                old(self).staking.current_era,
            ) && final(self).era_start_block == Some(block_number) && weight == 10,
            old(self).era_of_previous_block is Some && !old(self).sees_new_era() ==> final(self).era_of_previous_block == old(self).era_of_previous_block && final(self).era_start_block == old(self).era_start_block,
            !old(self).window_closes_at(block_number) ==> final(self).derivative == old(self).derivative && final(self).nomination_locks == old(self).nomination_locks && final(self).nomination_votes == old(self).nomination_votes && final(self).staking.nominations
                == old(self).staking.nominations,
            old(self).era_of_previous_block is Some && !old(self).sees_new_era() && !old(self).window_closes_at(block_number) ==> weight == 0,
            old(self).window_closes_at(block_number) ==> weight == 100 && (forall|a: u64| #[trigger]
                final(self).derivative.locked_of(a) == 0) && final(self).derivative.balances == old(self).derivative.balances && final(self).derivative.issuance == old(self).derivative.issuance && final(self).nomination_locks.as_map() == Map::<u64,
                u128>::empty() && final(self).nomination_votes.as_map() == Map::<u64,
                u128>::empty(),
            old(self).window_closes_at(block_number) && old(self).quorum_reached() ==> (
            match final(self).staking.nominations {
                Some(sel) => is_top_selection(
                    old(self).nomination_votes.as_map(),
                    old(self).config.max_validator_nominees as int,
                    sel@,
                ),
                None => false,
            }),
            old(self).window_closes_at(block_number) && !old(self).quorum_reached() ==> final(self).staking.nominations == old(self).staking.nominations,
    {
        self.current_block = block_number;
        match self.era_of_previous_block {
            None => {
                self.era_of_previous_block = Some(self.staking.current_era);
                10
            },
            Some(prev) => {
                if self.staking.current_era > prev {
                    self.era_of_previous_block = Some(self.staking.current_era);
                    self.era_start_block = Some(block_number);
                    10
                } else {
                    match self.era_start_block {
                        Some(era_start) => {
                            if block_number >= era_start && block_number - era_start
                                == self.config.nominator_voting_period_blocks {
                                self.close_voting_window();
                                100
                            } else {
                                0
                            }
                        },
                        None => 0,
                    }
                }
            },
        }
    }

    /// The upgrade hook: run once after a code upgrade.
    ///
    /// Records the backend's era when none is recorded yet, and bonds
    /// the stash's free balance -- registering it as a staker with the
    /// controller as authorization account -- when the stash is not yet
    /// registered but holds at least the backend's minimum bond.
    pub fn on_upgrade(&mut self) -> (weight: u64)
        requires
            old(self).wf(),
        ensures
            final(self).wf(),
            weight == 10,
            old(self).era_of_previous_block is None ==> final(self).era_of_previous_block == Some(
                old(self).staking.current_era,
            ),
            old(self).era_of_previous_block is Some ==> final(self).era_of_previous_block == old(self).era_of_previous_block,
            !old(self).staking.bonded.as_map().dom().contains(old(self).stash_id()) && old(self).main.free_of(old(self).stash_id()) >= old(self).staking.minimum_bond ==> final(self).staking.bonded.as_map() == old(self).staking.bonded.as_map().insert(
                old(self).stash_id(),
                old(self).main.free_of(old(self).stash_id()),
            ),
            old(self).staking.bonded.as_map().dom().contains(old(self).stash_id()) || old(self).main.free_of(old(self).stash_id()) < old(self).staking.minimum_bond ==> final(self).staking.bonded == old(self).staking.bonded,
            final(self).staking.current_era == old(self).staking.current_era,
            final(self).staking.bonding_duration == old(self).staking.bonding_duration,
            final(self).staking.minimum_bond == old(self).staking.minimum_bond,
            final(self).staking.nominations == old(self).staking.nominations,
            final(self).staking.validators == old(self).staking.validators,
            final(self).main == old(self).main,
            final(self).derivative == old(self).derivative,
            final(self).config == old(self).config,
            final(self).era_start_block == old(self).era_start_block,
            final(self).current_block == old(self).current_block,
            final(self).redemptions == old(self).redemptions,
            final(self).nomination_locks == old(self).nomination_locks,
            final(self).nomination_votes == old(self).nomination_votes,
            final(self).events == old(self).events,
    {
        match self.era_of_previous_block {
            None => {
                self.era_of_previous_block = Some(self.staking.current_era);
            },
            Some(_) => {},
        }
        let stash = self.stash_account_id();
        match self.staking.active_stake(stash) {
            None => {
                let free = self.main.free_balance(stash);
                if free >= self.staking.minimum_bond {
                    let controller = self.controller_account_id();
                    self.staking.bond(stash, controller, free, stash);
                }
            },
            Some(_) => {},
        }
        10
    }

    /// Withdraw base asset against a matured redemption entry.  Its
    /// settlement semantics are not fixed yet; the call is accepted and
    /// changes nothing.
    pub fn withdraw_stake(&mut self, _who: u64, _ticket: u64) -> (r: Result<(), Error>)
        requires
            old(self).wf(),
        ensures
            final(self).wf(),
            *final(self) == *old(self),
            r is Ok,
    {
        Ok(())
    }

    /// The derivative tokens an account has locked during the current
    /// voting window, absent when it has locked none.
    pub fn nomination_locks_for(&self, who: u64) -> (r: Option<u128>)
        requires
            self.wf(),
        ensures
            match r {
                Some(v) => self.nomination_locks.as_map().dom().contains(who)
                    && self.nomination_locks.as_map()[who] == v,
                None => !self.nomination_locks.as_map().dom().contains(who),
            },
    {
        self.nomination_locks.get(who)
    }

    /// The weighted votes a candidate validator has received in the
    /// current voting window, absent when it has received none.
    pub fn nomination_votes_for(&self, validator: u64) -> (r: Option<u128>)
        requires
            self.wf(),
        ensures
            match r {
                Some(v) => self.nomination_votes.as_map().dom().contains(validator)
                    && self.nomination_votes.as_map()[validator] == v,
                None => !self.nomination_votes.as_map().dom().contains(validator),
            },
    {
        self.nomination_votes.get(validator)
    }

    /// The pending (era, amount) redemption entries of an account, absent
    /// when it has none.
    pub fn redemptions_awaiting_withdrawal(&self, who: u64) -> (r: Option<Vec<(u32, u128)>>)
        requires
            self.wf(),
        ensures
            match r {
                Some(v) => self.redemptions.has_account(who) && v@
                    == self.redemptions.account_map()[who].entries@,
                None => !self.redemptions.has_account(who),
            },
    {
        proof {
            assert(self.redemptions.wf(self.config.withdrawal_bound));
        }
        self.redemptions.eras_vec(who)
    }
}

} // verus!
