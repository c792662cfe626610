use liquid_staking::pallet::Pallet;
use liquid_staking::types::{Config, Error};

fn test_config() -> Config {
    Config {
        pallet_id: *b"px/lstkg",
        pallet_id2: *b"py/lstkg",
        minimum_stake: 2,
        max_validator_nominees: 16,
        nominator_voting_period_blocks: 600,
        withdrawal_bound: 20,
    }
}

fn new_pool(balances: &[(u64, u128, u128)]) -> Pallet {
    let mut p = Pallet::new(test_config(), 2, 3, 10);
    for &(account, main, derivative) in balances {
        p.main.set_balance(account, main);
        p.derivative.set_balance(account, derivative);
    }
    p
}

/// Drive the pool through an era rollover so that the voting window is
/// open: era 2 is recorded at block 1, the clock moves to era 3, and
/// block 2 becomes the era's start block.
fn open_voting_window(p: &mut Pallet) {
    p.on_block_advance(1);
    p.staking.set_era(3);
    p.on_block_advance(2);
}

#[test]
fn nominations_for_validators_are_stored() {
    let user1_account_id = 1;
    let user2_account_id = 2;
    let mut p = new_pool(&[(user1_account_id, 0, 48), (user2_account_id, 0, 32)]);
    for v in 10..=35u64 {
        p.staking.register_validator(v);
    }
    open_voting_window(&mut p);

    let nominations_1 = vec![
        (10, 2), (11, 2), (12, 2), (13, 2), (14, 2), (15, 2), (16, 2), (17, 2),
        (18, 3), (19, 3), (20, 3), (21, 3), (22, 3), (23, 3), (24, 3), (25, 3),
    ];
    assert!(p.nominate(user1_account_id, nominations_1).is_ok());

    for validator in 10..=17 {
        assert_eq!(p.nomination_votes_for(validator).unwrap(), 2);
    }
    for validator in 18..=25 {
        assert_eq!(p.nomination_votes_for(validator).unwrap(), 3);
    }

    let nominations_2 = vec![
        (20, 2), (21, 2), (22, 2), (23, 2), (24, 2), (25, 2), (26, 2), (27, 2),
        (28, 2), (29, 2), (30, 2), (31, 2), (32, 2), (33, 2), (34, 2), (35, 2),
    ];
    assert!(p.nominate(user2_account_id, nominations_2).is_ok());

    for validator in 10..=17 {
        assert_eq!(p.nomination_votes_for(validator).unwrap(), 2);
    }
    for validator in 18..=19 {
        assert_eq!(p.nomination_votes_for(validator).unwrap(), 3);
    }
    for validator in 20..=25 {
        assert_eq!(p.nomination_votes_for(validator).unwrap(), 5);
    }
    for validator in 26..=35 {
        assert_eq!(p.nomination_votes_for(validator).unwrap(), 2);
    }
}

#[test]
fn tokens_used_in_nominations_are_locked() {
    let user1_account_id = 1;
    let initial_1 = 48;
    let user2_account_id = 2;
    let initial_2 = 32;
    let mut p = new_pool(&[
        (user1_account_id, 0, initial_1),
        (user2_account_id, 0, initial_2),
    ]);
    for v in 10..=25u64 {
        p.staking.register_validator(v);
    }
    open_voting_window(&mut p);

    let nominations_1 = vec![
        (10, 2), (11, 2), (12, 2), (13, 2), (14, 2), (15, 2), (16, 2), (17, 2),
        (18, 3), (19, 3), (20, 3), (21, 3), (22, 3), (23, 3), (24, 3), (25, 3),
    ];
    let committed_1 = 40;
    assert!(p.nominate(user1_account_id, nominations_1).is_ok());

    assert_eq!(
        p.derivative.free_balance(user1_account_id),
        initial_1 - committed_1,
        "Number of tokens locked is not correct for user 1"
    );

    let nominations_2 = vec![
        (10, 2), (11, 2), (12, 2), (13, 2), (14, 2), (15, 2), (16, 2), (17, 2),
        (18, 2), (19, 2), (20, 2), (21, 2), (22, 2), (23, 2), (24, 2), (25, 2),
    ];
    let committed_2 = 32;
    assert!(p.nominate(user2_account_id, nominations_2).is_ok());

    assert_eq!(
        p.derivative.free_balance(user2_account_id),
        initial_2 - committed_2,
        "Number of tokens locked is not correct for user 2"
    );

    let nominations_3 = vec![
        (10, 1), (11, 1), (12, 1), (13, 1), (14, 1), (15, 1), (16, 1), (17, 1),
        (18, 0), (19, 0), (20, 0), (21, 0), (22, 0), (23, 0), (24, 0), (25, 0),
    ];
    let committed_3 = 8;
    assert!(p.nominate(user1_account_id, nominations_3).is_ok());

    assert_eq!(
        p.derivative.free_balance(user1_account_id),
        initial_1 - (committed_1 + committed_3),
        "Number of tokens locked is not correct for user 1"
    );
}

#[test]
fn tokens_used_in_nominations_are_recorded() {
    let user1_account_id = 1;
    let initial_1 = 48;
    let user2_account_id = 2;
    let initial_2 = 32;
    let mut p = new_pool(&[
        (user1_account_id, 0, initial_1),
        (user2_account_id, 0, initial_2),
    ]);
    for v in 10..=25u64 {
        p.staking.register_validator(v);
    }
    open_voting_window(&mut p);

    let nominations_1 = vec![
        (10, 2), (11, 2), (12, 2), (13, 2), (14, 2), (15, 2), (16, 2), (17, 2),
        (18, 3), (19, 3), (20, 3), (21, 3), (22, 3), (23, 3), (24, 3), (25, 3),
    ];
    let committed_1 = 40;
    assert!(p.nominate(user1_account_id, nominations_1).is_ok());

    assert_eq!(
        p.nomination_locks_for(user1_account_id).unwrap(),
        committed_1,
        "Number of locked tokens is not stored correctly for user 1"
    );

    let nominations_2 = vec![
        (10, 2), (11, 2), (12, 2), (13, 2), (14, 2), (15, 2), (16, 2), (17, 2),
        (18, 2), (19, 2), (20, 2), (21, 2), (22, 2), (23, 2), (24, 2), (25, 2),
    ];
    let committed_2 = 32;
    assert!(p.nominate(user2_account_id, nominations_2).is_ok());

    assert_eq!(
        p.nomination_locks_for(user2_account_id).unwrap(),
        committed_2,
        "Number of locked tokens is not stored correctly for user 2"
    );

    let nominations_3 = vec![
        (10, 1), (11, 1), (12, 1), (13, 1), (14, 1), (15, 1), (16, 1), (17, 1),
        (18, 0), (19, 0), (20, 0), (21, 0), (22, 0), (23, 0), (24, 0), (25, 0),
    ];
    let committed_3 = 8;
    assert!(p.nominate(user1_account_id, nominations_3).is_ok());

    assert_eq!(
        p.nomination_locks_for(user1_account_id).unwrap(),
        committed_1 + committed_3,
        "Number of locked tokens is not stored correctly for user 1"
    );
}

#[test]
fn nominator_vote_is_rejected_after_voting_period_ends() {
    let user_account_id = 1;
    let mut p = new_pool(&[(user_account_id, 0, 48)]);
    p.staking.register_validator(10);

    // No window has opened yet: voting is closed.
    assert_eq!(
        p.nominate(user_account_id, vec![(10, 1)]),
        Err(Error::VoteUnauthorized)
    );

    // The window opens at block 2 and is 600 blocks long; one window
    // length later it has closed again.
    open_voting_window(&mut p);
    assert!(p.nominate(user_account_id, vec![(10, 1)]).is_ok());
    p.on_block_advance(602);
    assert_eq!(
        p.nominate(user_account_id, vec![(10, 1)]),
        Err(Error::VoteUnauthorized)
    );
}

#[test]
fn nominator_vote_is_rejected_if_votes_exceed_free_balance() {
    let user_account_id = 1;
    let mut p = new_pool(&[(user_account_id, 0, 10)]);
    p.staking.register_validator(10);
    p.staking.register_validator(11);
    open_voting_window(&mut p);

    assert_eq!(
        p.nominate(user_account_id, vec![(10, 6), (11, 5)]),
        Err(Error::VoteQuantityInvalid)
    );
    assert!(p.nomination_locks_for(user_account_id).is_none());
    assert!(p.nomination_votes_for(10).is_none());
    assert!(p.nomination_votes_for(11).is_none());
    assert_eq!(p.derivative.free_balance(user_account_id), 10);
}

#[test]
fn nominator_vote_is_rejected_if_votes_overflow() {
    let user_account_id = 1;
    let mut p = new_pool(&[(user_account_id, 0, 10)]);
    p.staking.register_validator(10);
    p.staking.register_validator(11);
    open_voting_window(&mut p);

    assert_eq!(
        p.nominate(user_account_id, vec![(10, u128::MAX), (11, u128::MAX)]),
        Err(Error::VoteQuantityInvalid)
    );
    assert!(p.nomination_locks_for(user_account_id).is_none());
    assert!(p.nomination_votes_for(10).is_none());
}

#[test]
fn nominator_vote_is_rejected_if_nominees_are_not_candidate_validators() {
    let user_account_id = 1;
    let mut p = new_pool(&[(user_account_id, 0, 48)]);
    p.staking.register_validator(10);
    open_voting_window(&mut p);

    assert_eq!(
        p.nominate(user_account_id, vec![(10, 1), (99, 1)]),
        Err(Error::NoSuchValidator)
    );
    assert!(p.nomination_locks_for(user_account_id).is_none());
    assert!(p.nomination_votes_for(10).is_none());
}

#[test]
fn nominator_vote_tally_overflow_is_rejected() {
    let user_account_id = 1;
    let mut p = new_pool(&[(user_account_id, 0, 10)]);
    p.staking.register_validator(31);
    open_voting_window(&mut p);
    // Hand the validator a tally at the top of the amount type, so that
    // one more weighted vote cannot be accumulated.
    p.nomination_votes.set(31, u128::MAX);

    assert_eq!(
        p.nominate(user_account_id, vec![(31, 1)]),
        Err(Error::ValidatorVoteQuantityInvalid)
    );
    assert_eq!(p.nomination_votes_for(31).unwrap(), u128::MAX);
    assert!(p.nomination_locks_for(user_account_id).is_none());
}

#[test]
fn two_voters_accumulate_tallies_and_locks() {
    let voter_a = 1;
    let voter_b = 2;
    let mut p = new_pool(&[(voter_a, 0, 10), (voter_b, 0, 10)]);
    for v in [31, 32, 33] {
        p.staking.register_validator(v);
    }
    open_voting_window(&mut p);

    assert!(p.nominate(voter_a, vec![(31, 2), (32, 3)]).is_ok());
    assert!(p.nominate(voter_b, vec![(31, 2), (33, 2)]).is_ok());

    assert_eq!(p.nomination_votes_for(31).unwrap(), 4);
    assert_eq!(p.nomination_votes_for(32).unwrap(), 3);
    assert_eq!(p.nomination_votes_for(33).unwrap(), 2);
    assert_eq!(p.nomination_locks_for(voter_a).unwrap(), 5);
    assert_eq!(p.nomination_locks_for(voter_b).unwrap(), 4);
}
