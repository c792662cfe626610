//! The exchange-rate engine.
//!
//! The pool's share price is the ratio of the stash's base-asset balance to
//! the derivative token's total issuance.  A deposit mints the proportional
//! number of derivative tokens, rounded down, so that the claim value of
//! every existing holder never decreases; when the stash is empty the rate
//! is one to one.

use vstd::prelude::*;
use crate::types::Error;

verus! {

/// The number of derivative tokens a deposit mints, as an unbounded
/// mathematical value: the deposit itself over an empty stash, else the
/// issuance-weighted share of the deposit, rounded down.
pub open spec fn mint_quantity(
    amount_staked: u128,
    total_stake_stash: u128,
    derivative_total_issuance: u128,
) -> int {
    if total_stake_stash == 0 {
        amount_staked as int
    } else {
        (derivative_total_issuance * amount_staked) / (total_stake_stash as int)
    }
}

/// While the issuance-deposit product fits the amount type, so does the
/// minted quantity.
pub proof fn lemma_mint_quantity_bounds(
    amount_staked: u128,
    total_stake_stash: u128,
    derivative_total_issuance: u128,
)
    requires
        derivative_total_issuance * amount_staked <= u128::MAX,
    ensures
        0 <= mint_quantity(amount_staked, total_stake_stash, derivative_total_issuance)
            <= u128::MAX,
{
    if total_stake_stash > 0 {
        let p = derivative_total_issuance * amount_staked;
        let d = total_stake_stash as int;
        assert(0 <= p / d <= p) by (nonlinear_arith)
            requires
                p >= 0,
                d >= 1,
        ;
    }
}

/// How many derivative tokens a deposit mints.
///
/// Fails with [`Error::ExceededMaxStake`] exactly when the product of the
/// derivative issuance and the deposit overflows the amount type; with an
/// empty stash the deposit itself is returned (bootstrap, one to one);
/// otherwise the result is the product divided by the stash balance,
/// rounded down.
pub fn quantity_to_mint(
    amount_staked: u128,
    total_stake_stash: u128,
    derivative_total_issuance: u128,
) -> (r: Result<u128, Error>)
    ensures
        derivative_total_issuance * amount_staked > u128::MAX ==> r == Err::<u128, Error>(
            Error::ExceededMaxStake,
        ),
        derivative_total_issuance * amount_staked <= u128::MAX && total_stake_stash == 0 ==> r
            == Ok::<u128, Error>(amount_staked),
        derivative_total_issuance * amount_staked <= u128::MAX && total_stake_stash > 0 ==> r
            == Ok::<u128, Error>(
            ((derivative_total_issuance * amount_staked) / total_stake_stash as int) as u128,
        ),
        derivative_total_issuance * amount_staked <= u128::MAX ==> r == Ok::<u128, Error>(
            mint_quantity(amount_staked, total_stake_stash, derivative_total_issuance) as u128,
        ),
{
    let product = match derivative_total_issuance.checked_mul(amount_staked) {
        Some(p) => p,
        None => {
            return Err(Error::ExceededMaxStake);
        },
    };
    if total_stake_stash == 0 {
        Ok(amount_staked)
    } else {
        Ok(product / total_stake_stash)
    }
}

/// Minting at the floor exchange rate never dilutes existing holders: with
/// a deposit added to the stash and the minted amount added to the
/// issuance, the pool value backing each previously issued token is at
/// least what it was.  (Cross-multiplied: the new stash over the new
/// issuance is at least the old stash over the old issuance.)  Read the
/// other way round, the depositor's new claim is worth at most the
/// deposit, so a deposit is never a way to take value from the pool.
pub proof fn lemma_mint_preserves_share_value(
    deposit: int,
    stash: int,
    issuance: int,
    minted: int,
)
    requires
        stash > 0,
        deposit >= 0,
        issuance >= 0,
        minted == issuance * deposit / stash,
    ensures
        (stash + deposit) * issuance >= stash * (issuance + minted),
        minted * (stash + deposit) <= deposit * (issuance + minted),
{
    assert(minted * stash <= issuance * deposit) by (nonlinear_arith)
        requires
            stash > 0,
            deposit >= 0,
            issuance >= 0,
            minted == issuance * deposit / stash,
    ;
    assert((stash + deposit) * issuance - stash * (issuance + minted) == deposit * issuance - stash
        * minted) by (nonlinear_arith);
    assert(minted * (stash + deposit) - deposit * (issuance + minted) == minted * stash - deposit
        * issuance) by (nonlinear_arith);
}

/// The engine's own minted quantity satisfies the no-dilution law above:
/// a deposit moves the stash and the issuance together in a way that
/// keeps the pool value behind each previously issued token from
/// falling.
pub proof fn lemma_deposit_does_not_dilute(deposit: u128, stash: u128, issuance: u128)
    requires
        stash > 0,
    ensures
        (stash + deposit) * issuance >= stash * (issuance + mint_quantity(
            deposit,
            stash,
            issuance,
        )),
{
    lemma_mint_preserves_share_value(
        deposit as int,
        stash as int,
        issuance as int,
        mint_quantity(deposit, stash, issuance),
    );
}

} // verus!
