//! Association lists seen as finite maps.
//!
//! The pool keeps every keyed store (balances, locks, vote tallies, pending
//! redemptions) as a vector of key-value pairs with pairwise-distinct keys.
//! This module defines the map denoted by such a vector, the sum of its
//! values, and the lemmas that relate updates of the vector to updates of the
//! map and of the sum.

use vstd::prelude::*;

verus! {

/// The keys of the pairs are pairwise distinct.
pub open spec fn kv_unique<K, V>(s: Seq<(K, V)>) -> bool {
    forall|i: int, j: int| 0 <= i < j < s.len() ==> (#[trigger] s[i]).0 != (#[trigger] s[j]).0
}

/// The finite map denoted by a pair sequence; a later pair shadows an
/// earlier one with the same key (with distinct keys nothing is shadowed).
pub open spec fn kv_map<K, V>(s: Seq<(K, V)>) -> Map<K, V>
    decreases s.len(),
{
    if s.len() == 0 {
        Map::empty()
    } else {
        kv_map(s.drop_last()).insert(s.last().0, s.last().1)
    }
}

/// The sum of all values of a pair sequence.
pub open spec fn kv_sum<K>(s: Seq<(K, u128)>) -> int
    decreases s.len(),
{
    if s.len() == 0 {
        0
    } else {
        kv_sum(s.drop_last()) + s.last().1
    }
}

/// A key is in the map exactly when some pair carries it.
pub proof fn lemma_kv_map_domain<K, V>(s: Seq<(K, V)>)
    ensures
        forall|k: K|
            kv_map(s).dom().contains(k) <==> exists|i: int|
                0 <= i < s.len() && (#[trigger] s[i]).0 == k,
    decreases s.len(),
{
    if s.len() > 0 {
        lemma_kv_map_domain(s.drop_last());
        assert forall|k: K| kv_map(s).dom().contains(k) implies exists|i: int|
            0 <= i < s.len() && (#[trigger] s[i]).0 == k by {
            if k == s.last().0 {
                assert(s[s.len() - 1].0 == k);
            } else {
                assert(kv_map(s.drop_last()).dom().contains(k));
                let i = choose|i: int| 0 <= i < s.drop_last().len() && (#[trigger] s.drop_last()[i]).0 == k;
                assert(s.drop_last()[i] == s[i]);
                assert(s[i].0 == k);
            }
        }
        assert forall|k: K|
            (exists|i: int| 0 <= i < s.len() && (#[trigger] s[i]).0 == k) implies kv_map(
            s,
        ).dom().contains(k) by {
            let i = choose|i: int| 0 <= i < s.len() && (#[trigger] s[i]).0 == k;
            if i < s.len() - 1 {
                assert(s.drop_last()[i].0 == k);
                assert(kv_map(s.drop_last()).dom().contains(k));
            } else {
                assert(k == s.last().0);
            }
        }
    }
}

/// With distinct keys, the map sends each key to the value paired with it.
pub proof fn lemma_kv_map_values<K, V>(s: Seq<(K, V)>)
    requires
        kv_unique(s),
    ensures
        forall|i: int| 0 <= i < s.len() ==> kv_map(s)[(#[trigger] s[i]).0] == s[i].1,
    decreases s.len(),
{
    if s.len() > 0 {
        lemma_kv_map_values(s.drop_last());
        assert forall|i: int| 0 <= i < s.len() implies kv_map(s)[(#[trigger] s[i]).0] == s[i].1 by {
            if i < s.len() - 1 {
                assert(s[i] == s.drop_last()[i]);
                assert(s[i].0 != s.last().0);
            }
        }
    }
}

/// With distinct keys, the map has exactly as many keys as there are pairs.
pub proof fn lemma_kv_map_len<K, V>(s: Seq<(K, V)>)
    requires
        kv_unique(s),
    ensures
        kv_map(s).dom().finite(),
        kv_map(s).dom().len() == s.len(),
    decreases s.len(),
{
    if s.len() > 0 {
        lemma_kv_map_len(s.drop_last());
        lemma_kv_map_domain(s.drop_last());
        assert(!kv_map(s.drop_last()).dom().contains(s.last().0));
    }
}

/// Updating the pair at one position, keeping its key, updates the map at
/// that key and leaves the keys distinct.
pub proof fn lemma_kv_map_update<K, V>(s: Seq<(K, V)>, i: int, p: (K, V))
    requires
        kv_unique(s),
        0 <= i < s.len(),
        p.0 == s[i].0,
    ensures
        kv_unique(s.update(i, p)),
        kv_map(s.update(i, p)) == kv_map(s).insert(p.0, p.1),
    decreases s.len(),
{
    let s2 = s.update(i, p);
    assert(s2.len() == s.len());
    assert forall|a: int, b: int| 0 <= a < b < s2.len() implies (#[trigger] s2[a]).0 != (
    #[trigger] s2[b]).0 by {
        assert(s2[a].0 == s[a].0 && s2[b].0 == s[b].0);
    }
    if i == s.len() - 1 {
        assert(s2.drop_last() =~= s.drop_last());
    } else {
        lemma_kv_map_update(s.drop_last(), i, p);
        assert(s2.drop_last() =~= s.drop_last().update(i, p));
        assert(s2.last() == s.last());
        assert(kv_map(s2) == kv_map(s.drop_last()).insert(p.0, p.1).insert(s.last().0, s.last().1));
        assert(p.0 != s.last().0);
        assert(kv_map(s.drop_last()).insert(p.0, p.1).insert(s.last().0, s.last().1) =~= kv_map(
            s.drop_last(),
        ).insert(s.last().0, s.last().1).insert(p.0, p.1));
    }
}

/// Appending a pair with a fresh key inserts it into the map and keeps the
/// keys distinct.
pub proof fn lemma_kv_map_push<K, V>(s: Seq<(K, V)>, p: (K, V))
    requires
        kv_unique(s),
        forall|i: int| 0 <= i < s.len() ==> (#[trigger] s[i]).0 != p.0,
    ensures
        kv_unique(s.push(p)),
        kv_map(s.push(p)) == kv_map(s).insert(p.0, p.1),
{
    let s2 = s.push(p);
    assert forall|a: int, b: int| 0 <= a < b < s2.len() implies (#[trigger] s2[a]).0 != (
    #[trigger] s2[b]).0 by {
        if b == s2.len() - 1 {
            assert(s2[a] == s[a]);
        } else {
            assert(s2[a] == s[a] && s2[b] == s[b]);
        }
    }
    assert(s2.drop_last() =~= s);
    assert(s2.last() == p);
}

/// The sum of a pair sequence is never negative.
pub proof fn lemma_kv_sum_nonneg<K>(s: Seq<(K, u128)>)
    ensures
        kv_sum(s) >= 0,
    decreases s.len(),
{
    if s.len() > 0 {
        lemma_kv_sum_nonneg(s.drop_last());
    }
}

/// Each value is at most the sum of all values.
pub proof fn lemma_kv_sum_value_le<K>(s: Seq<(K, u128)>, i: int)
    requires
        0 <= i < s.len(),
    ensures
        s[i].1 <= kv_sum(s),
    decreases s.len(),
{
    if i == s.len() - 1 {
        lemma_kv_sum_nonneg(s.drop_last());
    } else {
        lemma_kv_sum_value_le(s.drop_last(), i);
        assert(s.drop_last()[i] == s[i]);
    }
}

/// Two values at distinct positions together are at most the sum.
pub proof fn lemma_kv_sum_pair_le<K>(s: Seq<(K, u128)>, i: int, j: int)
    requires
        0 <= i < j < s.len(),
    ensures
        s[i].1 + s[j].1 <= kv_sum(s),
    decreases s.len(),
{
    if j == s.len() - 1 {
        lemma_kv_sum_value_le(s.drop_last(), i);
        assert(s.drop_last()[i] == s[i]);
    } else {
        lemma_kv_sum_pair_le(s.drop_last(), i, j);
        assert(s.drop_last()[i] == s[i] && s.drop_last()[j] == s[j]);
    }
}

/// Updating the pair at one position changes the sum by the difference of
/// the new and the old value.
pub proof fn lemma_kv_sum_update<K>(s: Seq<(K, u128)>, i: int, p: (K, u128))
    requires
        0 <= i < s.len(),
    ensures
        kv_sum(s.update(i, p)) == kv_sum(s) - s[i].1 + p.1,
    decreases s.len(),
{
    let s2 = s.update(i, p);
    if i == s.len() - 1 {
        assert(s2.drop_last() =~= s.drop_last());
    } else {
        lemma_kv_sum_update(s.drop_last(), i, p);
        assert(s2.drop_last() =~= s.drop_last().update(i, p));
        assert(s2.last() == s.last());
    }
}

/// Taking a prefix never increases the sum.
pub proof fn lemma_kv_sum_take_le<K>(s: Seq<(K, u128)>, i: int)
    requires
        0 <= i <= s.len(),
    ensures
        kv_sum(s.take(i)) <= kv_sum(s),
    decreases s.len() - i,
{
    if i == s.len() {
        assert(s.take(i) =~= s);
    } else {
        assert(s.take(i + 1).drop_last() =~= s.take(i));
        assert(s.take(i + 1).last() == s[i]);
        lemma_kv_sum_take_le(s, i + 1);
    }
}

/// The sum of the values carried by one key.
pub open spec fn kv_key_sum<K>(s: Seq<(K, u128)>, k: K) -> int
    decreases s.len(),
{
    if s.len() == 0 {
        0
    } else {
        kv_key_sum(s.drop_last(), k) + if s.last().0 == k {
            s.last().1 as int
        } else {
            0
        }
    }
}

/// Taking a prefix never increases the sum carried by one key.
pub proof fn lemma_kv_key_sum_take_le<K>(s: Seq<(K, u128)>, i: int, k: K)
    requires
        0 <= i <= s.len(),
    ensures
        kv_key_sum(s.take(i), k) <= kv_key_sum(s, k),
    decreases s.len() - i,
{
    if i == s.len() {
        assert(s.take(i) =~= s);
    } else {
        assert(s.take(i + 1).drop_last() =~= s.take(i));
        assert(s.take(i + 1).last() == s[i]);
        lemma_kv_key_sum_take_le(s, i + 1, k);
    }
}

/// Appending a pair adds its value to the sum.
pub proof fn lemma_kv_sum_push<K>(s: Seq<(K, u128)>, p: (K, u128))
    ensures
        kv_sum(s.push(p)) == kv_sum(s) + p.1,
{
    assert(s.push(p).drop_last() =~= s);
    assert(s.push(p).last() == p);
}

} // verus!
