//! Configuration, errors and notifications of the pool.

use vstd::prelude::*;

verus! {

/// The fixed configuration of a pool instance.
pub struct Config {
    /// Seed of the controller account.
    pub pallet_id: [u8; 8],
    /// Seed of the stash account.
    pub pallet_id2: [u8; 8],
    /// The smallest amount of the base asset that may be staked; deposits
    /// must strictly exceed it.
    pub minimum_stake: u128,
    /// The largest number of validators one nomination slate may name, and
    /// the size of the slate handed to the staking backend.
    pub max_validator_nominees: u32,
    /// The number of blocks after the start of an era during which holders
    /// of the derivative token may vote on nominations.
    pub nominator_voting_period_blocks: u64,
    /// The largest number of distinct pending eras one account's redemption
    /// record may hold.
    pub withdrawal_bound: u32,
}

impl Config {
    /// The two account seeds must differ within their first four bytes
    /// (only those reach the derived 64-bit account), so that the stash and
    /// the controller are distinct accounts; and the voting window must be
    /// at least one block long, so that it closes after it has opened.
    pub open spec fn wf(self) -> bool {
        &&& (self.pallet_id@[0] != self.pallet_id2@[0] || self.pallet_id@[1] != self.pallet_id2@[1]
            || self.pallet_id@[2] != self.pallet_id2@[2] || self.pallet_id@[3]
            != self.pallet_id2@[3])
        &&& self.nominator_voting_period_blocks >= 1
    }
}

/// Why an operation of the pool was rejected.  A rejected operation leaves
/// the pool unchanged.
#[derive(Clone, Copy, PartialEq, Eq, Structural, Debug)]
pub enum Error {
    /// The staked amount did not strictly exceed the configured minimum.
    InsufficientStake,
    /// The exchange-rate arithmetic for the deposit would overflow the
    /// amount type.
    ExceededMaxStake,
    /// The staker's free base-asset balance did not cover the deposit.
    InsufficientBalance,
    /// A redemption asked for more derivative tokens than the caller's
    /// free balance holds.
    InsufficientFundsForRedemption,
    /// A redemption would open one more pending era than the configured
    /// bound allows for the account.
    TooManyRedemptionsAwaitingWithdrawal,
    /// A nomination was submitted while the voting window was not open.
    VoteUnauthorized,
    /// The submitted vote weights overflow when summed, exceed the voter's
    /// free derivative balance, or a pending redemption amount would
    /// overflow when accumulated.
    VoteQuantityInvalid,
    /// A validator's vote tally would overflow when accumulated.
    ValidatorVoteQuantityInvalid,
    /// A vote named an account that is not a candidate validator.
    NoSuchValidator,
}

/// A notification the pool emits for observers; never an error.
#[derive(Clone, Copy, PartialEq, Eq, Structural, Debug)]
pub enum Event {
    /// An account staked an amount of the base asset [account, amount].
    StakeAdded(u64, u128),
    /// An account redeemed an amount of the derivative token; the base
    /// asset may be claimed in the given era [account, amount, era].
    DerivativeRedeemed(u64, u128, u32),
    /// Base asset corresponding to redeemed derivative tokens has been
    /// released to a staker [account, amount, amount].
    StakeReleased(u64, u128, u128),
}

} // verus!
