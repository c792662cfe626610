//! Derivation of the pool's own account identities.
//!
//! The pool owns two fixed accounts: the stash, which holds the pooled base
//! asset, and the controller, which authorizes staking instructions.  Each
//! is derived from an eight-byte configuration seed the way module accounts
//! are commonly derived on chain: the four module-prefix bytes `"modl"` are
//! followed by the seed, and the resulting byte string is truncated to the
//! width of the 64-bit account type and read little-endian.  Only the first
//! four seed bytes therefore reach the account value, so two seeds that
//! differ somewhere in their first four bytes give distinct accounts.

use vstd::prelude::*;

verus! {

/// The account identity an eight-byte seed derives: the prefix `"modl"`
/// (bytes `0x6d 0x6f 0x64 0x6c`) in the low four bytes, the first four
/// seed bytes above them, little-endian.
pub open spec fn account_of_seed(seed: Seq<u8>) -> u64 {
    (0x6d + 0x6f * 0x100 + 0x64 * 0x10000 + 0x6c * 0x1000000 + seed[0] * 0x1_0000_0000 + seed[1]
        * 0x100_0000_0000 + seed[2] * 0x1_0000_0000_0000 + seed[3]
        * 0x100_0000_0000_0000) as u64
}

/// Derive the account identity of an eight-byte seed.
pub fn account_from_seed(seed: &[u8; 8]) -> (r: u64)
    ensures
        r == account_of_seed(seed@),
{
    let low: u64 = 0x6c64_6f6d;
    low + (seed[0] as u64) * 0x1_0000_0000 + (seed[1] as u64) * 0x100_0000_0000 + (seed[2] as u64)
        * 0x1_0000_0000_0000 + (seed[3] as u64) * 0x100_0000_0000_0000
}

/// Seeds that derive the same account agree on their first four bytes.
pub proof fn lemma_account_of_seed_injective(s1: Seq<u8>, s2: Seq<u8>)
    requires
        s1.len() >= 4,
        s2.len() >= 4,
        account_of_seed(s1) == account_of_seed(s2),
    ensures
        s1[0] == s2[0],
        s1[1] == s2[1],
        s1[2] == s2[2],
        s1[3] == s2[3],
{
    let x0 = s1[0] as int;
    let x1 = s1[1] as int;
    let x2 = s1[2] as int;
    let x3 = s1[3] as int;
    let y0 = s2[0] as int;
    let y1 = s2[1] as int;
    let y2 = s2[2] as int;
    let y3 = s2[3] as int;
    let v1 = 0x6c646f6d + x0 * 0x1_0000_0000 + x1 * 0x100_0000_0000 + x2 * 0x1_0000_0000_0000 + x3
        * 0x100_0000_0000_0000;
    let v2 = 0x6c646f6d + y0 * 0x1_0000_0000 + y1 * 0x100_0000_0000 + y2 * 0x1_0000_0000_0000 + y3
        * 0x100_0000_0000_0000;
    assert(0 <= v1 < 0x1_0000_0000_0000_0000);
    assert(0 <= v2 < 0x1_0000_0000_0000_0000);
    assert(v1 == v2);
    let r1 = x0 + x1 * 0x100 + x2 * 0x10000 + x3 * 0x1000000;
    let r2 = y0 + y1 * 0x100 + y2 * 0x10000 + y3 * 0x1000000;
    assert(r1 * 0x1_0000_0000 == v1 - 0x6c646f6d);
    assert(r2 * 0x1_0000_0000 == v2 - 0x6c646f6d);
    assert(r1 == r2);
    let k0 = (y1 - x1) + (y2 - x2) * 0x100 + (y3 - x3) * 0x10000;
    assert(x0 - y0 == 0x100 * k0);
    assert(k0 == 0);
    assert(x0 == y0);
    let k1 = (y2 - x2) + (y3 - x3) * 0x100;
    assert(x1 - y1 == 0x100 * k1);
    assert(k1 == 0);
    assert(x1 == y1);
    assert(x2 - y2 == 0x100 * (y3 - x3));
    assert(x2 == y2);
    assert(x3 == y3);
}

/// Seeds that differ in one of their first four bytes derive distinct
/// accounts.
pub proof fn lemma_distinct_seeds_distinct_accounts(s1: Seq<u8>, s2: Seq<u8>)
    requires
        s1.len() >= 4,
        s2.len() >= 4,
        s1[0] != s2[0] || s1[1] != s2[1] || s1[2] != s2[2] || s1[3] != s2[3],
    ensures
        account_of_seed(s1) != account_of_seed(s2),
{
    if account_of_seed(s1) == account_of_seed(s2) {
        lemma_account_of_seed_injective(s1, s2);
    }
}

} // verus!
