//! The era-bucketed redemption ledger.
//!
//! When an account redeems derivative tokens, the burned amount is recorded
//! under the era in which the underlying base asset becomes withdrawable.
//! Amounts redeemed toward the same era accumulate; the number of distinct
//! pending eras per account is capped by a configured bound, and a
//! redemption that would open one more bucket past the bound is rejected
//! whole.

use vstd::prelude::*;
use crate::era_map::EraMap;
use crate::kv::{kv_map, kv_unique, lemma_kv_map_domain, lemma_kv_map_push, lemma_kv_map_update,
    lemma_kv_map_values};
use crate::types::Error;

verus! {

/// Pending redemptions: per account, an era-keyed store of amounts owed.
pub struct RedemptionLedger {
    pub entries: Vec<(u64, EraMap)>,
}

impl RedemptionLedger {
    /// Account keys are pairwise distinct, every per-account store is well
    /// formed, and no account has more distinct pending eras than the
    /// bound allows.
    pub open spec fn wf(self, bound: u32) -> bool {
        &&& kv_unique(self.entries@)
        &&& forall|i: int|
            0 <= i < self.entries@.len() ==> (#[trigger] self.entries@[i]).1.wf()
                && self.entries@[i].1.entries@.len() <= bound
    }

    /// The map from accounts to their per-account stores.
    pub open spec fn account_map(self) -> Map<u64, EraMap> {
        kv_map(self.entries@)
    }

    /// Whether an account has any pending redemption.
    pub open spec fn has_account(self, who: u64) -> bool {
        self.account_map().dom().contains(who)
    }

    /// The era-to-amount map of one account.
    pub open spec fn eras_of(self, who: u64) -> Map<u32, u128> {
        if self.has_account(who) {
            self.account_map()[who].as_map()
        } else {
            Map::empty()
        }
    }

    /// Whether an account has a pending redemption for an era.
    pub open spec fn has_entry(self, who: u64, era: u32) -> bool {
        self.eras_of(who).dom().contains(era)
    }

    /// The amount an account has pending for an era, zero when none.
    pub open spec fn amount_at(self, who: u64, era: u32) -> u128 {
        if self.has_entry(who, era) {
            self.eras_of(who)[era]
        } else {
            0
        }
    }

    /// How many distinct pending eras an account has.
    pub open spec fn era_count(self, who: u64) -> nat {
        if self.has_account(who) {
            self.account_map()[who].entries@.len()
        } else {
            0
        }
    }

    pub fn new() -> (r: RedemptionLedger)
        ensures
            forall|bound: u32| #[trigger] r.wf(bound),
            r.account_map() == Map::<u64, EraMap>::empty(),
    {
        RedemptionLedger { entries: Vec::new() }
    }

    /// The position of the record of an account, if any.
    fn find(&self, who: u64) -> (r: Option<usize>)
        ensures
            match r {
                Some(i) => i < self.entries@.len() && self.entries@[i as int].0 == who,
                None => forall|j: int| 0 <= j < self.entries@.len() ==> (#[trigger] self.entries@[j]).0 != who,
            },
    {
        let mut i: usize = 0;
        while i < self.entries.len()
            invariant
                i <= self.entries@.len(),
                forall|j: int| 0 <= j < i ==> (#[trigger] self.entries@[j]).0 != who,
            decreases self.entries@.len() - i,
        {
            if self.entries[i].0 == who {
                return Some(i);
            }
            i = i + 1;
        }
        None
    }

    /// Store an amount under an era of the account at a position.
    fn update_account(&mut self, i: usize, era: u32, v: u128)
        requires
            kv_unique(old(self).entries@),
            i < old(self).entries@.len(),
            old(self).entries@[i as int].1.wf(),
        ensures
            final(self).entries@.len() == old(self).entries@.len(),
            final(self).entries@ == old(self).entries@.update(
                i as int,
                (old(self).entries@[i as int].0, final(self).entries@[i as int].1),
            ),
            final(self).entries@[i as int].1.wf(),
            final(self).entries@[i as int].1.as_map() == old(self).entries@[i as int].1.as_map().insert(era, v),
            old(self).entries@[i as int].1.as_map().dom().contains(era) ==> final(self).entries@[i as int].1.entries@.len() == old(self).entries@[i as int].1.entries@.len(),
            !old(self).entries@[i as int].1.as_map().dom().contains(era) ==> final(self).entries@[i as int].1.entries@.len() == old(self).entries@[i as int].1.entries@.len()
                + 1,
            kv_unique(final(self).entries@),
            kv_map(final(self).entries@) == kv_map(old(self).entries@).insert(
                old(self).entries@[i as int].0,
                final(self).entries@[i as int].1,
            ),
    {
        let (acct, mut em) = self.entries.remove(i);
        em.set(era, v);
        self.entries.insert(i, (acct, em));
        proof {
            assert(self.entries@ =~= old(self).entries@.update(
                i as int,
                (acct, self.entries@[i as int].1),
            ));
            lemma_kv_map_update(
                old(self).entries@,
                i as int,
                (acct, self.entries@[i as int].1),
            );
        }
    }

    /// Record a redemption of `amount` by `who` toward `era`.
    ///
    /// Accumulates into an existing era bucket (failing whole when the
    /// accumulated amount would overflow), opens a new bucket when fewer
    /// than `bound` are open, and rejects the redemption when the account
    /// already has `bound` distinct pending eras.  A rejected redemption
    /// changes nothing.
    pub fn record(&mut self, who: u64, era: u32, amount: u128, bound: u32) -> (r: Result<
        (),
        Error,
    >)
        requires
            old(self).wf(bound),
        ensures
            final(self).wf(bound),
            r is Ok <==> (old(self).has_entry(who, era) && old(self).amount_at(who, era) + amount
                <= u128::MAX) || (!old(self).has_entry(who, era) && old(self).era_count(who)
                < bound),
            r == Err::<(), Error>(Error::VoteQuantityInvalid) <==> old(self).has_entry(who, era)
                && old(self).amount_at(who, era) + amount > u128::MAX,
            r == Err::<(), Error>(Error::TooManyRedemptionsAwaitingWithdrawal) <==> !old(
                self,
            ).has_entry(who, era) && old(self).era_count(who) >= bound,
            r is Err ==> *final(self) == *old(self),
            r is Ok ==> final(self).has_entry(who, era),
            r is Ok ==> final(self).amount_at(who, era) == old(self).amount_at(who, era) + amount,
            r is Ok ==> final(self).era_count(who) == (if old(self).has_entry(who, era) {
                old(self).era_count(who)
            } else {
                old(self).era_count(who) + 1
            }),
            r is Ok ==> forall|w: u64, e: u32|
                !(w == who && e == era) ==> #[trigger] final(self).amount_at(w, e) == old(
                    self,
                ).amount_at(w, e),
            r is Ok ==> forall|w: u64, e: u32|
                !(w == who && e == era) ==> (#[trigger] final(self).has_entry(w, e) <==> old(
                    self,
                ).has_entry(w, e)),
            r is Ok ==> forall|w: u64|
                w != who ==> #[trigger] final(self).era_count(w) == old(self).era_count(w),
    {
        proof {
            lemma_kv_map_domain(self.entries@);
            lemma_kv_map_values(self.entries@);
        }
        match self.find(who) {
            Some(i) => {
                let cur = self.entries[i].1.get(era);
                match cur {
                    Some(existing) => {
                        let grown = match existing.checked_add(amount) {
                            Some(n) => n,
                            None => {
                                return Err(Error::VoteQuantityInvalid);
                            },
                        };
                        self.update_account(i, era, grown);
                        proof {
                            self.lemma_after_update(*old(self), i as int, who, era, bound);
                        }
                        Ok(())
                    },
                    None => {
                        if self.entries[i].1.len() >= bound as usize {
                            return Err(Error::TooManyRedemptionsAwaitingWithdrawal);
                        }
                        self.update_account(i, era, amount);
                        proof {
                            self.lemma_after_update(*old(self), i as int, who, era, bound);
                        }
                        Ok(())
                    },
                }
            },
            None => {
                if bound == 0 {
                    return Err(Error::TooManyRedemptionsAwaitingWithdrawal);
                }
                let mut em = EraMap::new();
                em.set(era, amount);
                proof {
                    lemma_kv_map_push(old(self).entries@, (who, em));
                }
                self.entries.push((who, em));
                proof {
                    self.lemma_after_push(*old(self), who, era, bound);
                }
                Ok(())
            },
        }
    }

    /// After an in-place update of the account at position `i`, every
    /// observer of the ledger behaves as the record contract states.
    proof fn lemma_after_update(self, prev: RedemptionLedger, i: int, who: u64, era: u32, bound: u32)
        requires
            prev.wf(bound),
            0 <= i < prev.entries@.len(),
            prev.entries@[i].0 == who,
            self.entries@.len() == prev.entries@.len(),
            self.entries@ == prev.entries@.update(i, (who, self.entries@[i].1)),
            kv_unique(self.entries@),
            self.entries@[i].1.wf(),
            kv_map(self.entries@) == kv_map(prev.entries@).insert(who, self.entries@[i].1),
            self.entries@[i].1.as_map() == prev.entries@[i].1.as_map().insert(
                era,
                self.entries@[i].1.as_map()[era],
            ),
            prev.entries@[i].1.as_map().dom().contains(era) ==> self.entries@[i].1.entries@.len()
                == prev.entries@[i].1.entries@.len(),
            !prev.entries@[i].1.as_map().dom().contains(era) ==> self.entries@[i].1.entries@.len()
                == prev.entries@[i].1.entries@.len() + 1,
            prev.entries@[i].1.as_map().dom().contains(era) || prev.entries@[i].1.entries@.len()
                < bound,
        ensures
            self.wf(bound),
            self.has_entry(who, era),
            self.amount_at(who, era) == self.entries@[i].1.as_map()[era],
            prev.has_entry(who, era) <==> prev.entries@[i].1.as_map().dom().contains(era),
            prev.amount_at(who, era) == prev.entries@[i].1.amount_of(era),
            self.era_count(who) == (if prev.has_entry(who, era) {
                prev.era_count(who)
            } else {
                prev.era_count(who) + 1
            }),
            forall|w: u64, e: u32|
                !(w == who && e == era) ==> #[trigger] self.amount_at(w, e) == prev.amount_at(w, e),
            forall|w: u64, e: u32|
                !(w == who && e == era) ==> (#[trigger] self.has_entry(w, e) <==> prev.has_entry(
                    w,
                    e,
                )),
            forall|w: u64| w != who ==> #[trigger] self.era_count(w) == prev.era_count(w),
    {
        lemma_kv_map_domain(prev.entries@);
        lemma_kv_map_values(prev.entries@);
        lemma_kv_map_domain(self.entries@);
        lemma_kv_map_values(self.entries@);
        assert(prev.account_map()[who] == prev.entries@[i].1);
        assert(self.account_map()[who] == self.entries@[i].1);
        assert forall|j: int| 0 <= j < self.entries@.len() implies (#[trigger] self.entries@[j]).1.wf()
            && self.entries@[j].1.entries@.len() <= bound by {
            if j != i {
                assert(self.entries@[j] == prev.entries@[j]);
            }
        }
        assert forall|w: u64| w != who implies #[trigger] self.era_count(w) == prev.era_count(
            w,
        ) by {
            assert(self.account_map().dom() =~= kv_map(prev.entries@).dom().insert(who));
            if self.has_account(w) {
                assert(self.account_map()[w] == prev.account_map()[w]);
            }
        }
        assert forall|w: u64, e: u32| !(w == who && e == era) implies (#[trigger] self.has_entry(
            w,
            e,
        ) <==> prev.has_entry(w, e)) && self.amount_at(w, e) == prev.amount_at(w, e) by {
            if w == who {
                assert(self.eras_of(who) == prev.entries@[i].1.as_map().insert(
                    era,
                    self.entries@[i].1.as_map()[era],
                ));
            } else {
                if self.has_account(w) {
                    assert(self.account_map()[w] == prev.account_map()[w]);
                }
                if prev.has_account(w) {
                    assert(self.account_map().dom().contains(w));
                }
            }
        }
    }

    /// After appending a record for a fresh account, every observer of the
    /// ledger behaves as the record contract states.
    proof fn lemma_after_push(self, prev: RedemptionLedger, who: u64, era: u32, bound: u32)
        requires
            prev.wf(bound),
            bound >= 1,
            !prev.has_account(who),
            self.entries@ == prev.entries@.push((who, self.entries@.last().1)),
            kv_unique(self.entries@),
            self.entries@.last().0 == who,
            self.entries@.last().1.wf(),
            self.entries@.last().1.as_map() == Map::<u32, u128>::empty().insert(
                era,
                self.entries@.last().1.as_map()[era],
            ),
            self.entries@.last().1.entries@.len() == 1,
            kv_map(self.entries@) == kv_map(prev.entries@).insert(who, self.entries@.last().1),
        ensures
            self.wf(bound),
            self.has_entry(who, era),
            self.amount_at(who, era) == self.entries@.last().1.as_map()[era],
            self.era_count(who) == prev.era_count(who) + 1,
            forall|w: u64, e: u32|
                !(w == who && e == era) ==> #[trigger] self.amount_at(w, e) == prev.amount_at(w, e),
            forall|w: u64, e: u32|
                !(w == who && e == era) ==> (#[trigger] self.has_entry(w, e) <==> prev.has_entry(
                    w,
                    e,
                )),
            forall|w: u64| w != who ==> #[trigger] self.era_count(w) == prev.era_count(w),
    {
        lemma_kv_map_domain(prev.entries@);
        lemma_kv_map_values(prev.entries@);
        lemma_kv_map_domain(self.entries@);
        lemma_kv_map_values(self.entries@);
        let last = self.entries@.len() - 1;
        assert(self.entries@[last].0 == who);
        assert(self.account_map()[who] == self.entries@[last].1);
        assert(prev.era_count(who) == 0);
        assert forall|j: int| 0 <= j < self.entries@.len() implies (#[trigger] self.entries@[j]).1.wf()
            && self.entries@[j].1.entries@.len() <= bound by {
            if j != last {
                assert(self.entries@[j] == prev.entries@[j]);
            }
        }
        assert forall|w: u64| w != who implies #[trigger] self.era_count(w) == prev.era_count(
            w,
        ) by {
            if self.has_account(w) {
                assert(self.account_map()[w] == prev.account_map()[w]);
            }
        }
        assert forall|w: u64, e: u32| !(w == who && e == era) implies (#[trigger] self.has_entry(
            w,
            e,
        ) <==> prev.has_entry(w, e)) && self.amount_at(w, e) == prev.amount_at(w, e) by {
            if w == who {
                assert(self.eras_of(who) == Map::<u32, u128>::empty().insert(
                    era,
                    self.entries@[last].1.as_map()[era],
                ));
                assert(!prev.has_entry(who, e));
            } else {
                if self.has_account(w) {
                    assert(self.account_map()[w] == prev.account_map()[w]);
                }
                if prev.has_account(w) {
                    assert(self.account_map().dom().contains(w));
                }
            }
        }
    }

    /// The pending (era, amount) pairs of an account, oldest bucket first
    /// in insertion order; absent when the account has none.
    pub fn eras_vec(&self, who: u64) -> (r: Option<Vec<(u32, u128)>>)
        requires
            exists|b: u32| self.wf(b),
        ensures
            match r {
                Some(v) => self.has_account(who) && v@ == self.account_map()[who].entries@,
                None => !self.has_account(who),
            },
    {
        proof {
            let b = choose|b: u32| self.wf(b);
            lemma_kv_map_domain(self.entries@);
            lemma_kv_map_values(self.entries@);
        }
        match self.find(who) {
            Some(i) => {
                let em = &self.entries[i].1;
                let mut out: Vec<(u32, u128)> = Vec::new();
                let mut j: usize = 0;
                proof {
                    assert(em.entries@.take(0) =~= Seq::<(u32, u128)>::empty());
                }
                while j < em.entries.len()
                    invariant
                        j <= em.entries@.len(),
                        out@ == em.entries@.take(j as int),
                    decreases em.entries@.len() - j,
                {
                    out.push(em.entries[j]);
                    proof {
                        assert(em.entries@.take(j + 1) =~= em.entries@.take(j as int).push(
                            em.entries@[j as int],
                        ));
                    }
                    j = j + 1;
                }
                proof {
                    assert(em.entries@.take(em.entries@.len() as int) =~= em.entries@);
                }
                Some(out)
            },
            None => None,
        }
    }
}

} // verus!
