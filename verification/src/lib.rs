//! Accounting and governance core of a liquid-staking pool.
//!
//! Participants deposit a base asset into a pooled stash account and receive a
//! fungible derivative token representing their share of the pool.  They can
//! redeem derivative tokens for a future entitlement to the base asset, and,
//! during a per-era voting window, vote -- weighted by derivative holdings --
//! on which validators the pool should nominate.
//!
//! The crate models the two account ledgers (base asset and derivative token)
//! and the staking backend as explicit in-memory components owned by the
//! [`pallet::Pallet`] value, so that every operation of the pool is an
//! ordinary verified function from one pool state to the next.

pub mod account;
pub mod amount_map;
pub mod election;
pub mod era_map;
pub mod exchange;
pub mod kv;
pub mod ledger;
pub mod pallet;
pub mod redemptions;
pub mod staking;
pub mod types;
