use liquid_staking::pallet::Pallet;
use liquid_staking::types::{Config, Error, Event};

fn test_config() -> Config {
    Config {
        pallet_id: *b"px/lstkg",
        pallet_id2: *b"py/lstkg",
        minimum_stake: 2,
        max_validator_nominees: 16,
        nominator_voting_period_blocks: 600,
        withdrawal_bound: 20,
    }
}

fn new_pool(balances: &[(u64, u128, u128)]) -> Pallet {
    let mut p = Pallet::new(test_config(), 2, 3, 10);
    for &(account, main, derivative) in balances {
        p.main.set_balance(account, main);
        p.derivative.set_balance(account, derivative);
    }
    p
}

#[test]
fn test_genesis_balances() {
    let user_account_id = 1;
    let p = new_pool(&[(user_account_id, 10, 70)]);

    assert_eq!(
        p.main.total_balance(user_account_id),
        10,
        "genesis main balance was not as expected"
    );
    assert_eq!(
        p.derivative.total_balance(user_account_id),
        70,
        "genesis derivative balance was not as expected"
    );
}

#[test]
fn add_stake_transfers_dot() {
    let user_account_id = 1;
    let mut p = new_pool(&[(user_account_id, 10, 70)]);
    let stash = p.stash_account_id();
    let controller = p.controller_account_id();
    p.main.set_balance(stash, 20);
    p.derivative.set_balance(stash, 160);

    assert!(p.add_stake(user_account_id, 3).is_ok());

    assert_eq!(
        p.main.total_balance(user_account_id),
        7,
        "origin balance was not diminished by staked amount"
    );
    assert_eq!(
        p.main.total_balance(stash),
        23,
        "stash account was not augmented by staked amount"
    );
    assert_eq!(
        p.main.total_balance(controller),
        0,
        "controller account balance was not unaffected by staking"
    );
}

#[test]
fn add_stake_mints_sdot_for_first_staker() {
    let user_account_id = 1;
    let mut p = new_pool(&[(user_account_id, 10, 0)]);
    let stash = p.stash_account_id();
    let controller = p.controller_account_id();

    assert!(p.add_stake(user_account_id, 3).is_ok());

    assert_eq!(
        p.derivative.total_balance(user_account_id),
        3,
        "origin sDOT balance was not increased by staked amount at inception"
    );
    assert_eq!(
        p.derivative.total_issuance(),
        3,
        "total sDOT issuance was not increased by staked amount at inception"
    );
    assert_eq!(
        p.derivative.total_balance(stash),
        0,
        "stash sDOT account balance was not unaffected by staking"
    );
    assert_eq!(
        p.derivative.total_balance(controller),
        0,
        "controller sDOT account balance was not unaffected by staking"
    );
}

#[test]
fn add_stake_mints_sdot_for_later_staker_after_rewards() {
    let user_account_id = 1;
    let mut p = new_pool(&[(user_account_id, 7, 3)]);
    let stash = p.stash_account_id();
    p.main.set_balance(stash, 6);

    assert!(p.add_stake(user_account_id, 4).is_ok());

    assert_eq!(
        p.derivative.total_balance(user_account_id),
        5,
        "origin sDOT balance did not increase correctly"
    );
    assert_eq!(
        p.derivative.total_issuance(),
        5,
        "total sDOT issuance did not increase correctly"
    );
}

#[test]
fn add_stake_mints_sdot_for_later_staker_after_slash() {
    let user_account_id = 1;
    let mut p = new_pool(&[(user_account_id, 7, 3)]);
    let stash = p.stash_account_id();
    p.main.set_balance(stash, 2);

    assert!(p.add_stake(user_account_id, 4).is_ok());

    assert_eq!(
        p.derivative.total_balance(user_account_id),
        9,
        "origin sDOT balance did not increase correctly"
    );
    assert_eq!(
        p.derivative.total_issuance(),
        9,
        "total sDOT issuance did not increase correctly"
    );
}

#[test]
fn add_stake_bonds_submitted_stake() {
    let user_account_id = 1;
    let bonded_amount = 20;
    let mut p = new_pool(&[(user_account_id, 10, 0)]);
    let stash = p.stash_account_id();
    let controller = p.controller_account_id();
    p.main.set_balance(stash, bonded_amount);
    p.staking.bond(stash, controller, bonded_amount, stash);

    assert!(p.add_stake(user_account_id, 5).is_ok());

    assert_eq!(
        p.staking.active_stake(stash),
        Some(25),
        "pot bonded staked amount is wrong"
    );
}

#[test]
fn add_stake_bonds_the_pot_if_not_yet_bonded() {
    let user_account_id = 1;
    let mut p = new_pool(&[(user_account_id, 10, 0)]);
    let stash = p.stash_account_id();

    assert!(p.add_stake(user_account_id, 4).is_ok());

    assert_eq!(
        p.staking.active_stake(stash),
        Some(4),
        "pot bonded staked amount is wrong"
    );
}

#[test]
fn add_stake_deposits_stake_added_event() {
    let user_account_id = 1;
    let mut p = new_pool(&[(user_account_id, 10, 0)]);

    assert!(p.add_stake(user_account_id, 4).is_ok());

    assert!(p.events.contains(&Event::StakeAdded(user_account_id, 4)));
}

#[test]
fn add_stake_fails_with_insufficient_balance() {
    let user_account_id = 1;
    let mut p = new_pool(&[(user_account_id, 0, 0)]);

    assert_eq!(
        p.add_stake(user_account_id, 30),
        Err(Error::InsufficientBalance)
    );
    assert_eq!(p.main.total_balance(user_account_id), 0);
    assert_eq!(p.derivative.total_issuance(), 0);
}

#[test]
fn add_stake_fails_with_insufficient_stake() {
    let user_account_id = 1;
    let mut p = new_pool(&[(user_account_id, 10, 70)]);

    assert_eq!(
        p.add_stake(user_account_id, 1),
        Err(Error::InsufficientStake)
    );
}

#[test]
fn add_stake_fails_when_max_stake_exceeded() {
    let big_amount = u128::MAX - 2u128;
    let user_account_id = 1;
    let mut p = new_pool(&[(user_account_id, big_amount, 0)]);
    let stash = p.stash_account_id();
    p.main.set_balance(stash, 2);
    p.derivative.set_balance(stash, 2);

    assert_eq!(
        p.add_stake(user_account_id, big_amount),
        Err(Error::ExceededMaxStake)
    );
    assert_eq!(p.main.total_balance(user_account_id), big_amount);
}

#[test]
fn add_stake_rejects_when_minted_issuance_would_overflow() {
    let user_account_id = 1;
    let mut p = new_pool(&[(user_account_id, 10, 0)]);
    let stash = p.stash_account_id();
    p.main.set_balance(stash, 1);
    p.derivative.set_balance(stash, u128::MAX / 3);

    // The issuance-deposit product just fits the amount type, but growing
    // the issuance by the minted quantity would overflow it.
    assert_eq!(
        p.add_stake(user_account_id, 3),
        Err(Error::ExceededMaxStake)
    );
    assert_eq!(p.main.total_balance(user_account_id), 10);
}
