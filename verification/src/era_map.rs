//! A store from era indices to token amounts.
//!
//! One such store per account records how much derivative token the account
//! has redeemed toward each availability era.  An absent era stands for the
//! amount zero.

use vstd::prelude::*;
use vstd::pervasive::VecAdditionalExecFns;
use crate::kv::{kv_map, kv_unique, lemma_kv_map_domain, lemma_kv_map_push, lemma_kv_map_update,
    lemma_kv_map_values};

verus! {

/// A finite store of token amounts keyed by era index.
pub struct EraMap {
    pub entries: Vec<(u32, u128)>,
}

impl EraMap {
    /// Keys are pairwise distinct.
    pub open spec fn wf(self) -> bool {
        kv_unique(self.entries@)
    }

    /// The map this store denotes.
    pub open spec fn as_map(self) -> Map<u32, u128> {
        kv_map(self.entries@)
    }

    /// The amount recorded for an era, zero when the era is absent.
    pub open spec fn amount_of(self, era: u32) -> u128 {
        if self.as_map().dom().contains(era) {
            self.as_map()[era]
        } else {
            0
        }
    }

    pub fn new() -> (r: EraMap)
        ensures
            r.wf(),
            r.as_map() == Map::<u32, u128>::empty(),
            r.entries@.len() == 0,
    {
        EraMap { entries: Vec::new() }
    }

    /// The position of the pair carrying an era, if any.
    fn find(&self, era: u32) -> (r: Option<usize>)
        ensures
            match r {
                Some(i) => i < self.entries@.len() && self.entries@[i as int].0 == era,
                None => forall|j: int| 0 <= j < self.entries@.len() ==> (#[trigger] self.entries@[j]).0 != era,
            },
    {
        let mut i: usize = 0;
        while i < self.entries.len()
            invariant
                i <= self.entries@.len(),
                forall|j: int| 0 <= j < i ==> (#[trigger] self.entries@[j]).0 != era,
            decreases self.entries@.len() - i,
        {
            if self.entries[i].0 == era {
                return Some(i);
            }
            i = i + 1;
        }
        None
    }

    pub fn get(&self, era: u32) -> (r: Option<u128>)
        requires
            self.wf(),
        ensures
            match r {
                Some(v) => self.as_map().dom().contains(era) && self.as_map()[era] == v,
                None => !self.as_map().dom().contains(era),
            },
    {
        proof {
            lemma_kv_map_domain(self.entries@);
            lemma_kv_map_values(self.entries@);
        }
        match self.find(era) {
            Some(i) => Some(self.entries[i].1),
            None => None,
        }
    }

    /// Store an amount under an era, replacing any previous amount.
    pub fn set(&mut self, era: u32, v: u128)
        requires
            old(self).wf(),
        ensures
            final(self).wf(),
            final(self).as_map() == old(self).as_map().insert(era, v),
            old(self).as_map().dom().contains(era) ==> final(self).entries@.len() == old(
                self,
            ).entries@.len(),
            !old(self).as_map().dom().contains(era) ==> final(self).entries@.len() == old(
                self,
            ).entries@.len() + 1,
    {
        proof {
            lemma_kv_map_domain(self.entries@);
            lemma_kv_map_values(self.entries@);
        }
        match self.find(era) {
            Some(i) => {
                proof {
                    lemma_kv_map_update(self.entries@, i as int, (era, v));
                }
                self.entries.set(i, (era, v));
            },
            None => {
                proof {
                    lemma_kv_map_push(self.entries@, (era, v));
                }
                self.entries.push((era, v));
            },
        }
    }

    pub fn len(&self) -> (r: usize)
        ensures
            r == self.entries@.len(),
    {
        self.entries.len()
    }
}

} // verus!
