use liquid_staking::pallet::Pallet;
use liquid_staking::types::Config;

fn test_config() -> Config {
    Config {
        pallet_id: *b"px/lstkg",
        pallet_id2: *b"py/lstkg",
        minimum_stake: 2,
        max_validator_nominees: 16,
        nominator_voting_period_blocks: 600,
        withdrawal_bound: 20,
    }
}

fn new_pool(balances: &[(u64, u128, u128)]) -> Pallet {
    let mut p = Pallet::new(test_config(), 2, 3, 10);
    for &(account, main, derivative) in balances {
        p.main.set_balance(account, main);
        p.derivative.set_balance(account, derivative);
    }
    p
}

/// Open the voting window: record era 2 at block 1, advance the clock to
/// era 3 and start the era at block 2.
fn open_voting_window(p: &mut Pallet) {
    p.on_block_advance(1);
    p.staking.set_era(3);
    p.on_block_advance(2);
}

#[test]
fn on_runtime_upgrade_sets_era_if_not_set() {
    let mut p = new_pool(&[]);
    assert_eq!(
        p.era_of_previous_block, None,
        "Era of previous block should not be set at inception"
    );

    assert_eq!(p.on_upgrade(), 10);

    // The staking backend starts in era 2 here.
    assert_eq!(
        p.era_of_previous_block,
        Some(2),
        "Era of previous block should be set properly after runtime upgrade"
    );
}

#[test]
fn on_runtime_upgrade_bonds_an_unbonded_stash() {
    let mut p = new_pool(&[]);
    let stash = p.stash_account_id();
    p.main.set_balance(stash, 50);

    assert_eq!(p.on_upgrade(), 10);

    assert_eq!(p.staking.active_stake(stash), Some(50));
}

#[test]
fn on_runtime_upgrade_leaves_a_stash_below_the_minimum_bond_unbonded() {
    let mut p = new_pool(&[]);
    let stash = p.stash_account_id();
    p.main.set_balance(stash, 5);

    assert_eq!(p.on_upgrade(), 10);

    assert_eq!(p.staking.active_stake(stash), None);
}

#[test]
fn on_initialize_sets_first_block_of_era() {
    let mut p = new_pool(&[]);

    // Bootstrap: the first processed block records the current era.
    assert_eq!(p.on_block_advance(1), 10);
    assert_eq!(p.era_of_previous_block, Some(2));
    assert_eq!(p.era_start_block, None);

    // An era rollover records the block as the era's start.
    p.staking.set_era(3);
    assert_eq!(p.on_block_advance(5), 10);
    assert_eq!(p.era_of_previous_block, Some(3));
    assert_eq!(p.era_start_block, Some(5));

    // An ordinary block changes neither.
    assert_eq!(p.on_block_advance(6), 0);
    assert_eq!(p.era_start_block, Some(5));
}

#[test]
fn on_initialize_tallies_votes_when_voting_period_is_over() {
    let user1 = 1;
    let user2 = 2;
    let mut p = new_pool(&[(user1, 0, 48), (user2, 0, 32)]);
    for v in 10..=25u64 {
        p.staking.register_validator(v);
    }
    open_voting_window(&mut p);

    let slate1 = vec![
        (10, 2), (11, 2), (12, 2), (13, 2), (14, 2), (15, 2), (16, 2), (17, 2),
        (18, 3), (19, 3), (20, 3), (21, 3), (22, 3), (23, 3), (24, 3), (25, 3),
    ];
    let slate2 = vec![
        (10, 2), (11, 2), (12, 2), (13, 2), (14, 2), (15, 2), (16, 2), (17, 2),
        (18, 2), (19, 2), (20, 2), (21, 2), (22, 2), (23, 2), (24, 2), (25, 2),
    ];
    assert!(p.nominate(user1, slate1).is_ok());
    assert!(p.nominate(user2, slate2).is_ok());

    // 72 of 80 issued tokens voted: a majority, so the window close
    // nominates the sixteen strongest candidates -- validators 18..=25
    // with 5 votes each before 10..=17 with 4, ties broken by identity.
    assert_eq!(p.on_block_advance(602), 100);
    assert_eq!(
        p.staking.nominations,
        Some(vec![18, 19, 20, 21, 22, 23, 24, 25, 10, 11, 12, 13, 14, 15, 16, 17])
    );
}

#[test]
fn on_initialize_adjusts_nominations_when_voting_period_is_over() {
    let user1 = 1;
    let mut p = new_pool(&[(user1, 0, 100)]);
    p.staking.register_validator(10);
    p.staking.register_validator(11);
    open_voting_window(&mut p);

    // Only 1 of 100 issued tokens votes: below a majority, so the
    // previous (empty) nomination set is retained.
    assert!(p.nominate(user1, vec![(10, 1)]).is_ok());
    assert_eq!(p.on_block_advance(602), 100);
    assert_eq!(p.staking.nominations, None);

    // In the next window a majority votes, and the nomination set is
    // replaced: validator 11 gathers more weight than validator 10.
    p.staking.set_era(4);
    p.on_block_advance(700);
    assert!(p.nominate(user1, vec![(10, 20), (11, 40)]).is_ok());
    assert_eq!(p.on_block_advance(1300), 100);
    assert_eq!(p.staking.nominations, Some(vec![11, 10]));
}

#[test]
fn on_initialize_reinitializes_vote_storage_when_voting_period_is_over() {
    let user1 = 1;
    let mut p = new_pool(&[(user1, 0, 10)]);
    p.staking.register_validator(10);
    open_voting_window(&mut p);
    assert!(p.nominate(user1, vec![(10, 6)]).is_ok());
    assert_eq!(p.nomination_locks_for(user1).unwrap(), 6);
    assert_eq!(p.nomination_votes_for(10).unwrap(), 6);

    assert_eq!(p.on_block_advance(602), 100);

    assert!(p.nomination_locks_for(user1).is_none());
    assert!(p.nomination_votes_for(10).is_none());
}

#[test]
fn on_initialize_unlocks_derivative_tokens_locked_during_voting() {
    let user1 = 1;
    let mut p = new_pool(&[(user1, 0, 10)]);
    p.staking.register_validator(10);
    open_voting_window(&mut p);
    assert!(p.nominate(user1, vec![(10, 6)]).is_ok());
    assert_eq!(p.derivative.free_balance(user1), 4);

    assert_eq!(p.on_block_advance(602), 100);

    assert_eq!(p.derivative.free_balance(user1), 10);
    assert_eq!(p.derivative.total_balance(user1), 10);
}
