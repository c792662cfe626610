//! Selection of the validators with the strongest vote tallies.
//!
//! At the close of a voting window the pool nominates the validators that
//! gathered the most derivative-token-weighted votes.  Priority between
//! tally entries is by vote weight, the lower account identity breaking a
//! tie, so the selection is unique.

use vstd::prelude::*;
use vstd::set_lib::lemma_len_subset;
use crate::amount_map::AmountMap;
use crate::kv::{lemma_kv_map_domain, lemma_kv_map_len, lemma_kv_map_values};

verus! {

/// Strict priority between tally entries: more votes first, the lower
/// account identity breaking ties.
pub open spec fn beats(a: (u64, u128), b: (u64, u128)) -> bool {
    a.1 > b.1 || (a.1 == b.1 && a.0 < b.0)
}

/// `sel` lists the `n` strongest entries of the tally map `m` (all of
/// them when `m` has fewer), strongest first, each selected entry at
/// least as strong as every entry left out.
pub open spec fn is_top_selection(m: Map<u64, u128>, n: int, sel: Seq<u64>) -> bool {
    &&& sel.len() == (if m.dom().len() < n {
        m.dom().len() as int
    } else {
        n
    })
    &&& sel.no_duplicates()
    &&& forall|i: int| 0 <= i < sel.len() ==> m.dom().contains(#[trigger] sel[i])
    &&& forall|i: int, j: int|
        0 <= i < j < sel.len() ==> beats((#[trigger] sel[i], m[sel[i]]), (#[trigger] sel[j], m[sel[j]]))
    &&& forall|i: int, k: u64|
        #![trigger sel[i], m[k]]
        0 <= i < sel.len() && m.dom().contains(k) && !sel.contains(k) ==> beats(
            (sel[i], m[sel[i]]),
            (k, m[k]),
        )
}

/// Selections agree from position `i` on once they agree before it.
proof fn lemma_top_selection_agree_from(
    m: Map<u64, u128>,
    n: int,
    s1: Seq<u64>,
    s2: Seq<u64>,
    i: int,
)
    requires
        is_top_selection(m, n, s1),
        is_top_selection(m, n, s2),
        0 <= i <= s1.len(),
        forall|j: int| 0 <= j < i ==> s1[j] == s2[j],
    ensures
        forall|j: int| 0 <= j < s1.len() ==> s1[j] == s2[j],
    decreases s1.len() - i,
{
    if i < s1.len() {
        assert(s1.len() == s2.len());
        if s1[i] != s2[i] {
            assert(beats((s1[i], m[s1[i]]), (s2[i], m[s2[i]]))) by {
                if exists|j: int| 0 <= j < s1.len() && s1[j] == s2[i] {
                    let j = choose|j: int| 0 <= j < s1.len() && s1[j] == s2[i];
                    if j < i {
                        assert(s2[j] == s2[i]);
                    } else {
                        assert(j > i);
                    }
                } else {
                    assert(!s1.contains(s2[i]));
                }
            }
            assert(beats((s2[i], m[s2[i]]), (s1[i], m[s1[i]]))) by {
                if exists|j: int| 0 <= j < s2.len() && s2[j] == s1[i] {
                    let j = choose|j: int| 0 <= j < s2.len() && s2[j] == s1[i];
                    if j < i {
                        assert(s1[j] == s1[i]);
                    } else {
                        assert(j > i);
                    }
                } else {
                    assert(!s2.contains(s1[i]));
                }
            }
            assert(false);
        }
        lemma_top_selection_agree_from(m, n, s1, s2, i + 1);
    }
}

/// The strongest-entries selection is unique: any two sequences that both
/// satisfy [`is_top_selection`] for one tally map are the same, so the
/// nomination set a window close produces is completely determined by the
/// tallies.
pub proof fn lemma_top_selection_unique(m: Map<u64, u128>, n: int, s1: Seq<u64>, s2: Seq<u64>)
    requires
        is_top_selection(m, n, s1),
        is_top_selection(m, n, s2),
    ensures
        s1 == s2,
{
    lemma_top_selection_agree_from(m, n, s1, s2, 0);
    assert(s1 =~= s2);
}

/// Whether a vector of account identities carries one.
fn vec_has(v: &Vec<u64>, k: u64) -> (r: bool)
    ensures
        r == v@.contains(k),
{
    let mut i: usize = 0;
    while i < v.len()
        invariant
            i <= v@.len(),
            forall|j: int| 0 <= j < i ==> v@[j] != k,
        decreases v@.len() - i,
    {
        if v[i] == k {
            return true;
        }
        i = i + 1;
    }
    false
}

/// Exec comparison mirroring [`beats`].
fn beats_exec(a: (u64, u128), b: (u64, u128)) -> (r: bool)
    ensures
        r == beats(a, b),
{
    a.1 > b.1 || (a.1 == b.1 && a.0 < b.0)
}

/// The strongest entry of the tally that is not yet selected, if any.
fn scan_best(tallies: &AmountMap, sel: &Vec<u64>) -> (r: Option<usize>)
    ensures
        match r {
            Some(b) => b < tallies.entries@.len() && !sel@.contains(tallies.entries@[b as int].0)
                && forall|l: int|
                0 <= l < tallies.entries@.len() && !sel@.contains(
                    (#[trigger] tallies.entries@[l]).0,
                ) ==> tallies.entries@[b as int] == tallies.entries@[l] || beats(
                    tallies.entries@[b as int],
                    tallies.entries@[l],
                ),
            None => forall|l: int|
                0 <= l < tallies.entries@.len() ==> sel@.contains(
                    (#[trigger] tallies.entries@[l]).0,
                ),
        },
{
    let mut best: Option<usize> = None;
    let mut j: usize = 0;
    while j < tallies.len()
        invariant
            j <= tallies.entries@.len(),
            match best {
                Some(b) => b < j && !sel@.contains(tallies.entries@[b as int].0) && forall|l: int|
                    0 <= l < j && !sel@.contains((#[trigger] tallies.entries@[l]).0)
                        ==> tallies.entries@[b as int] == tallies.entries@[l] || beats(
                        tallies.entries@[b as int],
                        tallies.entries@[l],
                    ),
                None => forall|l: int|
                    0 <= l < j ==> sel@.contains((#[trigger] tallies.entries@[l]).0),
            },
        decreases tallies.entries@.len() - j,
    {
        let cand = tallies.pair_at(j);
        if !vec_has(sel, cand.0) {
            best = match best {
                None => Some(j),
                Some(b) => {
                    let cur = tallies.pair_at(b);
                    if beats_exec(cand, cur) {
                        Some(j)
                    } else {
                        Some(b)
                    }
                },
            };
        }
        j = j + 1;
    }
    best
}

/// Select the validators with the strongest tallies, strongest first.
pub fn select_top(tallies: &AmountMap, n: usize) -> (sel: Vec<u64>)
    requires
        tallies.wf(),
    ensures
        is_top_selection(tallies.as_map(), n as int, sel@),
{
    proof {
        lemma_kv_map_domain(tallies.entries@);
        lemma_kv_map_values(tallies.entries@);
        lemma_kv_map_len(tallies.entries@);
    }
    let ghost m = tallies.as_map();
    let mut sel: Vec<u64> = Vec::new();
    loop
        invariant
            tallies.wf(),
            m == tallies.as_map(),
            m.dom().finite(),
            m.dom().len() == tallies.entries@.len(),
            forall|k: u64|
                m.dom().contains(k) <==> exists|l: int|
                    0 <= l < tallies.entries@.len() && (#[trigger] tallies.entries@[l]).0 == k,
            forall|l: int|
                0 <= l < tallies.entries@.len() ==> m[(#[trigger] tallies.entries@[l]).0]
                    == tallies.entries@[l].1,
            sel@.len() <= n,
            sel@.no_duplicates(),
            forall|i: int| 0 <= i < sel@.len() ==> m.dom().contains(#[trigger] sel@[i]),
            forall|i: int, j: int|
                0 <= i < j < sel@.len() ==> beats(
                    (#[trigger] sel@[i], m[sel@[i]]),
                    (#[trigger] sel@[j], m[sel@[j]]),
                ),
            forall|i: int, k: u64|
                #![trigger sel@[i], m[k]]
                0 <= i < sel@.len() && m.dom().contains(k) && !sel@.contains(k) ==> beats(
                    (sel@[i], m[sel@[i]]),
                    (k, m[k]),
                ),
        ensures
            is_top_selection(m, n as int, sel@),
        decreases n - sel@.len(),
    {
        if sel.len() >= n {
            proof {
                sel@.unique_seq_to_set();
                assert(sel@.to_set().subset_of(m.dom())) by {
                    assert forall|k: u64| sel@.to_set().contains(k) implies m.dom().contains(
                        k,
                    ) by {
                        let i = choose|i: int| 0 <= i < sel@.len() && sel@[i] == k;
                        assert(m.dom().contains(sel@[i]));
                    }
                }
                lemma_len_subset(sel@.to_set(), m.dom());
            }
            break;
        }
        match scan_best(tallies, &sel) {
            None => {
                proof {
                    sel@.unique_seq_to_set();
                    assert(sel@.to_set() =~= m.dom()) by {
                        assert forall|k: u64| m.dom().contains(k) implies sel@.to_set().contains(
                            k,
                        ) by {
                            let l = choose|l: int|
                                0 <= l < tallies.entries@.len() && (#[trigger] tallies.entries@[l]).0
                                    == k;
                            assert(sel@.contains(tallies.entries@[l].0));
                        }
                        assert forall|k: u64| sel@.to_set().contains(k) implies m.dom().contains(
                            k,
                        ) by {
                            let i = choose|i: int| 0 <= i < sel@.len() && sel@[i] == k;
                            assert(m.dom().contains(sel@[i]));
                        }
                    }
                }
                break;
            },
            Some(b) => {
                let pair = tallies.pair_at(b);
                proof {
                    assert(m.dom().contains(pair.0) && m[pair.0] == pair.1);
                    let prev = sel@;
                    let next = sel@.push(pair.0);
                    assert forall|i: int, j: int| 0 <= i < j < next.len() implies beats(
                        (#[trigger] next[i], m[next[i]]),
                        (#[trigger] next[j], m[next[j]]),
                    ) by {
                        if j < next.len() - 1 {
                            assert(next[i] == prev[i] && next[j] == prev[j]);
                        } else {
                            assert(next[i] == prev[i] && next[j] == pair.0);
                            assert(beats((prev[i], m[prev[i]]), (pair.0, m[pair.0])));
                        }
                    }
                    assert forall|i: int, k: u64|
                        #![trigger next[i], m[k]]
                        0 <= i < next.len() && m.dom().contains(k) && !next.contains(k) implies beats(
                        (next[i], m[next[i]]),
                        (k, m[k]),
                    ) by {
                        assert(!prev.contains(k)) by {
                            if prev.contains(k) {
                                let x = choose|x: int| 0 <= x < prev.len() && prev[x] == k;
                                assert(next[x] == k);
                            }
                        }
                        let l = choose|l: int|
                            0 <= l < tallies.entries@.len() && (#[trigger] tallies.entries@[l]).0
                                == k;
                        assert(tallies.entries@[l] == (k, m[k]));
                        if i < next.len() - 1 {
                            assert(next[i] == prev[i]);
                        } else {
                            assert(next[i] == pair.0);
                            assert(k != pair.0);
                            assert(tallies.entries@[b as int] == tallies.entries@[l] || beats(
                                tallies.entries@[b as int],
                                tallies.entries@[l],
                            ));
                        }
                    }
                    assert forall|i: int| 0 <= i < next.len() implies m.dom().contains(
                        #[trigger] next[i],
                    ) by {
                        if i < next.len() - 1 {
                            assert(next[i] == prev[i]);
                        }
                    }
                }
                sel.push(pair.0);
            },
        }
    }
    sel
}

} // verus!
