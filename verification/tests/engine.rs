use liquid_staking::exchange::quantity_to_mint;
use liquid_staking::pallet::Pallet;
use liquid_staking::types::{Config, Error};

fn test_config() -> Config {
    Config {
        pallet_id: *b"px/lstkg",
        pallet_id2: *b"py/lstkg",
        minimum_stake: 2,
        max_validator_nominees: 16,
        nominator_voting_period_blocks: 600,
        withdrawal_bound: 20,
    }
}

#[test]
fn mint_is_one_to_one_over_an_empty_stash() {
    assert_eq!(quantity_to_mint(5, 0, 7), Ok(5));
    assert_eq!(quantity_to_mint(1, 0, 0), Ok(1));
    assert_eq!(quantity_to_mint(u128::MAX, 0, 1), Ok(u128::MAX));
}

#[test]
fn mint_is_the_proportional_share_rounded_down() {
    // 20 base units back 160 derivative units; a 3-unit deposit mints
    // floor(160 * 3 / 20) = 24.
    assert_eq!(quantity_to_mint(3, 20, 160), Ok(24));
    // Rewards raised the stash (6 for 3 issued): a 4-unit deposit mints 2.
    assert_eq!(quantity_to_mint(4, 6, 3), Ok(2));
    // A slash shrank the stash (2 for 3 issued): a 4-unit deposit mints 6.
    assert_eq!(quantity_to_mint(4, 2, 3), Ok(6));
    // The division rounds down: floor(5 * 3 / 7) = 2.
    assert_eq!(quantity_to_mint(3, 7, 5), Ok(2));
}

#[test]
fn mint_rejects_an_overflowing_product() {
    assert_eq!(
        quantity_to_mint(u128::MAX, 5, 2),
        Err(Error::ExceededMaxStake)
    );
    assert_eq!(
        quantity_to_mint(2, 0, u128::MAX),
        Err(Error::ExceededMaxStake)
    );
    // The largest product that still fits is accepted.
    assert_eq!(quantity_to_mint(u128::MAX, 1, 1), Ok(u128::MAX));
}

#[test]
fn pool_accounts_are_derived_from_the_seeds_and_distinct() {
    let p = Pallet::new(test_config(), 2, 3, 10);
    // The derived account is the module prefix followed by the first
    // four seed bytes, read little-endian.
    assert_eq!(
        p.controller_account_id(),
        u64::from_le_bytes(*b"modlpx/l")
    );
    assert_eq!(p.stash_account_id(), u64::from_le_bytes(*b"modlpy/l"));
    assert_ne!(p.controller_account_id(), p.stash_account_id());
}

#[test]
fn withdraw_stake_is_accepted_and_changes_nothing() {
    let mut p = Pallet::new(test_config(), 2, 3, 10);
    p.derivative.set_balance(1, 10);
    assert!(p.redeem_stake(1, 4).is_ok());

    assert!(p.withdraw_stake(1, 5).is_ok());

    assert_eq!(p.redemptions_awaiting_withdrawal(1).unwrap(), vec![(5, 4)]);
    assert_eq!(p.derivative.total_balance(1), 6);
}
