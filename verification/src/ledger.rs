//! An account-balance ledger with balance locks.
//!
//! The pool consumes two such ledgers: one for the base asset and one for the
//! derivative token.  A ledger keeps every account's balance, the part of
//! each balance that is locked, and the total issuance, which always equals
//! the sum of all balances.  A locked part of a balance cannot be
//! transferred or burned.

use vstd::prelude::*;
use crate::amount_map::AmountMap;

verus! {

/// An account-balance ledger with locks and a tracked total issuance.
pub struct Ledger {
    pub balances: AmountMap,
    pub locks: AmountMap,
    pub issuance: u128,
}

impl Ledger {
    /// The issuance equals the sum of all balances, and no account has more
    /// locked than it holds.
    pub open spec fn wf(self) -> bool {
        &&& self.balances.wf()
        &&& self.locks.wf()
        &&& self.issuance == self.balances.total()
        &&& forall|a: u64| #[trigger] self.locks.amount_of(a) <= self.balances.amount_of(a)
    }

    /// An account's full balance, locked part included.
    pub open spec fn balance_of(self, a: u64) -> u128 {
        self.balances.amount_of(a)
    }

    /// The locked part of an account's balance.
    pub open spec fn locked_of(self, a: u64) -> u128 {
        self.locks.amount_of(a)
    }

    /// The part of an account's balance that is free to move.
    pub open spec fn free_of(self, a: u64) -> u128 {
        (self.balance_of(a) - self.locked_of(a)) as u128
    }

    pub fn new() -> (r: Ledger)
        ensures
            r.wf(),
            forall|a: u64| #[trigger] r.balance_of(a) == 0,
            forall|a: u64| #[trigger] r.locked_of(a) == 0,
            r.issuance == 0,
    {
        Ledger { balances: AmountMap::new(), locks: AmountMap::new(), issuance: 0 }
    }

    pub fn total_balance(&self, a: u64) -> (r: u128)
        requires
            self.wf(),
        ensures
            r == self.balance_of(a),
    {
        self.balances.amount(a)
    }

    pub fn free_balance(&self, a: u64) -> (r: u128)
        requires
            self.wf(),
        ensures
            r == self.free_of(a),
    {
        let b = self.balances.amount(a);
        let l = self.locks.amount(a);
        b - l
    }

    pub fn total_issuance(&self) -> (r: u128)
        requires
            self.wf(),
        ensures
            r == self.issuance,
    {
        self.issuance
    }

    /// Overwrite an account's balance; meant for setting up initial
    /// holdings before the pool starts operating.
    pub fn set_balance(&mut self, a: u64, v: u128)
        requires
            old(self).wf(),
            old(self).issuance - old(self).balance_of(a) + v <= u128::MAX,
            old(self).locked_of(a) <= v,
        ensures
            final(self).wf(),
            final(self).balance_of(a) == v,
            forall|x: u64| x != a ==> #[trigger] final(self).balance_of(x) == old(self).balance_of(x),
            final(self).locks == old(self).locks,
            final(self).issuance == old(self).issuance - old(self).balance_of(a) + v,
    {
        proof {
            self.balances.lemma_amount_le_total(a);
        }
        let cur = self.balances.amount(a);
        self.issuance = self.issuance - cur + v;
        self.balances.set(a, v);
    }

    /// Move an amount between accounts.  Fails, changing nothing, exactly
    /// when the amount exceeds the source's free balance.
    pub fn transfer(&mut self, from: u64, to: u64, amount: u128) -> (ok: bool)
        requires
            old(self).wf(),
        ensures
            final(self).wf(),
            ok <==> amount <= old(self).free_of(from),
            !ok ==> *final(self) == *old(self),
            ok ==> final(self).locks == old(self).locks,
            ok ==> final(self).issuance == old(self).issuance,
            ok && from == to ==> final(self).balances == old(self).balances,
            ok && from != to ==> final(self).balance_of(from) == old(self).balance_of(from) - amount,
            ok && from != to ==> final(self).balance_of(to) == old(self).balance_of(to) + amount,
            ok ==> forall|x: u64|
                x != from && x != to ==> #[trigger] final(self).balance_of(x) == old(
                    self,
                ).balance_of(x),
    {
        let free = self.free_balance(from);
        if amount > free {
            return false;
        }
        if from == to {
            return true;
        }
        proof {
            self.balances.lemma_two_amounts_le_total(from, to);
        }
        let bf = self.balances.amount(from);
        let bt = self.balances.amount(to);
        self.balances.set(from, bf - amount);
        self.balances.set(to, bt + amount);
        true
    }

    /// Create an amount in an account, growing the issuance.  Fails,
    /// changing nothing, exactly when the issuance would overflow.
    pub fn mint(&mut self, a: u64, amount: u128) -> (ok: bool)
        requires
            old(self).wf(),
        ensures
            final(self).wf(),
            ok <==> old(self).issuance + amount <= u128::MAX,
            !ok ==> *final(self) == *old(self),
            ok ==> final(self).locks == old(self).locks,
            ok ==> final(self).issuance == old(self).issuance + amount,
            ok ==> final(self).balance_of(a) == old(self).balance_of(a) + amount,
            ok ==> forall|x: u64|
                x != a ==> #[trigger] final(self).balance_of(x) == old(self).balance_of(x),
    {
        if amount > u128::MAX - self.issuance {
            return false;
        }
        proof {
            self.balances.lemma_amount_le_total(a);
        }
        let b = self.balances.amount(a);
        self.balances.set(a, b + amount);
        self.issuance = self.issuance + amount;
        true
    }

    /// Destroy an amount held by an account, shrinking the issuance.
    /// Fails, changing nothing, exactly when the amount exceeds the
    /// account's free balance.
    pub fn burn(&mut self, a: u64, amount: u128) -> (ok: bool)
        requires
            old(self).wf(),
        ensures
            final(self).wf(),
            ok <==> amount <= old(self).free_of(a),
            !ok ==> *final(self) == *old(self),
            ok ==> final(self).locks == old(self).locks,
            ok ==> final(self).issuance == old(self).issuance - amount,
            ok ==> final(self).balance_of(a) == old(self).balance_of(a) - amount,
            ok ==> forall|x: u64|
                x != a ==> #[trigger] final(self).balance_of(x) == old(self).balance_of(x),
    {
        let free = self.free_balance(a);
        if amount > free {
            return false;
        }
        proof {
            self.balances.lemma_amount_le_total(a);
        }
        let b = self.balances.amount(a);
        self.balances.set(a, b - amount);
        self.issuance = self.issuance - amount;
        true
    }

    /// Overwrite the locked part of an account's balance.
    pub fn set_locked(&mut self, a: u64, v: u128)
        requires
            old(self).wf(),
            v <= old(self).balance_of(a),
        ensures
            final(self).wf(),
            final(self).balances == old(self).balances,
            final(self).issuance == old(self).issuance,
            final(self).locked_of(a) == v,
            forall|x: u64| x != a ==> #[trigger] final(self).locked_of(x) == old(self).locked_of(x),
    {
        self.locks.set(a, v);
        proof {
            assert forall|x: u64| #[trigger] self.locks.amount_of(x)
                <= self.balances.amount_of(x) by {
                if x != a {
                    assert(old(self).locks.amount_of(x) <= old(self).balances.amount_of(x));
                }
            }
        }
    }

    /// Grow the locked part of an account's balance.  Fails, changing
    /// nothing, exactly when the grown lock would exceed the balance.
    pub fn add_locked(&mut self, a: u64, delta: u128) -> (ok: bool)
        requires
            old(self).wf(),
        ensures
            final(self).wf(),
            ok <==> old(self).locked_of(a) + delta <= old(self).balance_of(a),
            !ok ==> *final(self) == *old(self),
            ok ==> final(self).balances == old(self).balances,
            ok ==> final(self).issuance == old(self).issuance,
            ok ==> final(self).locked_of(a) == old(self).locked_of(a) + delta,
            ok ==> forall|x: u64|
                x != a ==> #[trigger] final(self).locked_of(x) == old(self).locked_of(x),
    {
        let l = self.locks.amount(a);
        let b = self.balances.amount(a);
        if delta > b - l {
            return false;
        }
        self.locks.set(a, l + delta);
        proof {
            assert forall|x: u64| #[trigger] self.locks.amount_of(x)
                <= self.balances.amount_of(x) by {
                if x != a {
                    assert(old(self).locks.amount_of(x) <= old(self).balances.amount_of(x));
                }
            }
        }
        true
    }
}

} // verus!
