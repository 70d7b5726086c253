//! Behavioural properties of the voting engine: conservation of holds,
//! tally ordering, idempotent registration, the full proposal lifecycle,
//! claims after closure, and the saturation edges of the quadratic cost.

use quadratic_voting::{Config, Error, Event, Origin, Pallet, ProposalKind, VoteInfo};

const ALICE: u64 = 0;
const BOB: u64 = 1;

fn test_config() -> Config {
    Config {
        account_size_limit: 1000,
        proposal_offchain_data_limit: 150,
        proposal_maximum_duration: 1000,
        proposal_minimum_duration: 100,
        proposal_delay_limit: 100,
    }
}

fn funded_engine(balances: &[(u64, u128)]) -> Pallet {
    let mut e = Pallet::new(test_config(), 1);
    for &(who, amount) in balances {
        assert!(e.set_balance(who, amount));
    }
    e.set_block_number(1);
    e
}

fn create_public(e: &mut Pallet, creator: u64, start_block: u64, end_block: u64) -> u32 {
    assert!(e
        .create_proposal(Origin::Signed(creator), Vec::new(), ProposalKind::Public, None,
            start_block, end_block)
        .is_ok());
    e.next_proposal_id() - 1
}

#[test]
fn quadratic_cost_values() {
    assert_eq!(Pallet::calculate_quadratic_amount(0), 0);
    assert_eq!(Pallet::calculate_quadratic_amount(1), 1);
    assert_eq!(Pallet::calculate_quadratic_amount(3), 9);
    assert_eq!(Pallet::calculate_quadratic_amount(1 << 63), 1u128 << 126);
}

#[test]
fn quadratic_cost_saturates() {
    // 2^64 squared exceeds the u128 range, so the cost caps at the maximum.
    assert_eq!(Pallet::calculate_quadratic_amount(1 << 64), u128::MAX);
    assert_eq!(Pallet::calculate_quadratic_amount(u128::MAX), u128::MAX);
}

#[test]
fn hold_equals_sum_of_vote_costs() {
    let mut e = funded_engine(&[(ALICE, 100)]);
    assert!(e.register_voter(Origin::Root, ALICE).is_ok());
    let p1 = create_public(&mut e, ALICE, 1, 200);
    let p2 = create_public(&mut e, ALICE, 1, 300);

    assert!(e.vote(Origin::Signed(ALICE), p1, true, 3).is_ok());
    assert_eq!(e.balance_frozen(ALICE), 9);

    assert!(e.vote(Origin::Signed(ALICE), p2, false, 4).is_ok());
    assert_eq!(e.balance_frozen(ALICE), 9 + 16);

    // Lowering one vote releases exactly the cost difference.
    assert!(e.vote(Origin::Signed(ALICE), p2, false, 2).is_ok());
    assert_eq!(e.balance_frozen(ALICE), 9 + 4);

    // Retracting the other vote keeps only the remaining cost held.
    assert!(e.vote(Origin::Signed(ALICE), p1, true, 0).is_ok());
    assert_eq!(e.balance_frozen(ALICE), 4);
}

#[test]
fn total_weight_bounds_aye_weight() {
    let mut e = funded_engine(&[(ALICE, 100), (BOB, 100)]);
    assert!(e.register_voter(Origin::Root, ALICE).is_ok());
    assert!(e.register_voter(Origin::Root, BOB).is_ok());
    let p1 = create_public(&mut e, ALICE, 1, 200);

    assert!(e.vote(Origin::Signed(ALICE), p1, true, 3).is_ok());
    assert!(e.vote(Origin::Signed(BOB), p1, false, 5).is_ok());

    let proposal = e.proposals(p1).unwrap();
    assert_eq!(proposal.ratio, (9, 34));
    assert!(proposal.ratio.0 <= proposal.ratio.1);

    assert!(e.vote(Origin::Signed(BOB), p1, false, 2).is_ok());
    let proposal = e.proposals(p1).unwrap();
    assert_eq!(proposal.ratio, (9, 13));
    assert!(proposal.ratio.0 <= proposal.ratio.1);
}

#[test]
fn zero_power_vote_without_standing_vote_is_a_noop() {
    let mut e = funded_engine(&[(ALICE, 10)]);
    assert!(e.register_voter(Origin::Root, ALICE).is_ok());
    let p1 = create_public(&mut e, ALICE, 1, 200);

    let events_before = e.events().len();
    assert!(e.vote(Origin::Signed(ALICE), p1, true, 0).is_ok());

    // The state is untouched, and the announcement is a drop, not an
    // addition.
    assert_eq!(e.votes(ALICE, p1), None);
    assert_eq!(e.balance_frozen(ALICE), 0);
    assert_eq!(e.proposals(p1).unwrap().ratio, (0, 0));
    assert_eq!(e.events().len(), events_before + 1);
    assert!(matches!(e.events().last(), Some(Event::VoteDropped { .. })));
}

#[test]
fn reregistering_changes_nothing() {
    let mut e = funded_engine(&[(ALICE, 100)]);
    assert!(e.register_voter(Origin::Root, ALICE).is_ok());
    let p1 = create_public(&mut e, ALICE, 1, 200);
    assert!(e.vote(Origin::Signed(ALICE), p1, true, 3).is_ok());

    // Re-registering keeps the registration, the vote, and the hold as
    // they are: no double-hold arises.
    assert!(e.register_voter(Origin::Root, ALICE).is_ok());
    assert_eq!(e.registered_voters(ALICE), Some(()));
    assert_eq!(e.balance_frozen(ALICE), 9);
    assert_eq!(e.votes(ALICE, p1), Some(VoteInfo { proposal_id: p1, aye: true, power: 3 }));
}

#[test]
fn unregistering_an_unknown_voter_succeeds_cleanly() {
    let mut e = funded_engine(&[(ALICE, 100)]);
    assert!(e.unregister_voter(Origin::Root, 42).is_ok());
    assert_eq!(e.registered_voters(42), None);
    assert_eq!(e.balance_frozen(42), 0);
    assert!(matches!(e.events().last(), Some(Event::VoterUnregistered { who: 42 })));
}

#[test]
fn proposal_window_gates_votes() {
    let mut e = funded_engine(&[(ALICE, 100)]);
    assert!(e.register_voter(Origin::Root, ALICE).is_ok());
    let p1 = create_public(&mut e, ALICE, 10, 200);

    // Before block 10 the proposal has not started.
    e.set_block_number(9);
    assert_eq!(
        e.vote(Origin::Signed(ALICE), p1, true, 3),
        Err(Error::ProposalHasNotStartedYet)
    );

    // At block 10 a vote of power 3 backs the proposal with 9 tokens.
    e.set_block_number(10);
    assert!(e.vote(Origin::Signed(ALICE), p1, true, 3).is_ok());
    assert_eq!(e.proposals(p1).unwrap().ratio, (9, 9));
    assert_eq!(e.balance_frozen(ALICE), 9);

    // Raising the power to 4 moves the tally and the hold to 16.
    e.set_block_number(50);
    assert!(e.vote(Origin::Signed(ALICE), p1, true, 4).is_ok());
    assert_eq!(e.proposals(p1).unwrap().ratio, (16, 16));
    assert_eq!(e.balance_frozen(ALICE), 16);

    // Dropping to zero retracts everything.
    assert!(e.vote(Origin::Signed(ALICE), p1, true, 0).is_ok());
    assert_eq!(e.proposals(p1).unwrap().ratio, (0, 0));
    assert_eq!(e.balance_frozen(ALICE), 0);
}

#[test]
fn closure_is_time_gated_and_claims_settle_holds() {
    let mut e = funded_engine(&[(ALICE, 100)]);
    assert!(e.register_voter(Origin::Root, ALICE).is_ok());
    let p1 = create_public(&mut e, ALICE, 1, 200);
    assert!(e.vote(Origin::Signed(ALICE), p1, true, 3).is_ok());

    e.set_block_number(199);
    assert_eq!(
        e.close_proposal(Origin::Signed(ALICE), p1),
        Err(Error::ProposalHasNotEndedYet)
    );

    e.set_block_number(200);
    assert!(e.close_proposal(Origin::Signed(ALICE), p1).is_ok());
    assert!(e.proposals(p1).is_none());
    match e.events().last() {
        Some(Event::VoteCompleted { proposal_id, ratio }) => {
            assert_eq!(*proposal_id, p1);
            assert_eq!(*ratio, (9, 9));
        },
        _ => panic!("expected a VoteCompleted event"),
    }

    // Closure leaves the vote and the hold in place until the claim.
    assert_eq!(e.balance_frozen(ALICE), 9);
    assert!(e.claim(Origin::Signed(ALICE), p1).is_ok());
    assert_eq!(e.balance_frozen(ALICE), 0);
    assert_eq!(e.votes(ALICE, p1), None);
    match e.events().last() {
        Some(Event::BalanceClaimed { who, amount }) => {
            assert_eq!(*who, ALICE);
            assert_eq!(*amount, 9);
        },
        _ => panic!("expected a BalanceClaimed event"),
    }

    // A second claim finds nothing to release.
    assert_eq!(e.claim(Origin::Signed(ALICE), p1), Err(Error::ClaimDoesNotExist));
}

#[test]
fn account_lists_gate_both_kinds() {
    let mut e = funded_engine(&[(ALICE, 100), (BOB, 100)]);
    assert!(e.register_voter(Origin::Root, ALICE).is_ok());
    assert!(e.register_voter(Origin::Root, BOB).is_ok());

    // A private proposal with allow-list {ALICE} rejects BOB.
    assert!(e
        .create_proposal(Origin::Signed(ALICE), Vec::new(), ProposalKind::Private,
            Some(vec![ALICE]), 1, 200)
        .is_ok());
    let private_id = e.next_proposal_id() - 1;
    assert_eq!(
        e.vote(Origin::Signed(BOB), private_id, true, 1),
        Err(Error::OriginNoPermission)
    );
    assert!(e.vote(Origin::Signed(ALICE), private_id, true, 1).is_ok());

    // A public proposal with ban-list {BOB} likewise rejects BOB.
    assert!(e
        .create_proposal(Origin::Signed(ALICE), Vec::new(), ProposalKind::Public,
            Some(vec![BOB]), 1, 200)
        .is_ok());
    let public_id = e.next_proposal_id() - 1;
    assert_eq!(
        e.vote(Origin::Signed(BOB), public_id, true, 1),
        Err(Error::OriginNoPermission)
    );
    assert!(e.vote(Origin::Signed(ALICE), public_id, true, 1).is_ok());
}

#[test]
fn unregistering_reverses_all_votes() {
    let mut e = funded_engine(&[(ALICE, 100), (BOB, 100)]);
    assert!(e.register_voter(Origin::Root, ALICE).is_ok());
    assert!(e.register_voter(Origin::Root, BOB).is_ok());
    let p1 = create_public(&mut e, ALICE, 1, 200);
    let p2 = create_public(&mut e, ALICE, 1, 300);

    assert!(e.vote(Origin::Signed(ALICE), p1, true, 3).is_ok());
    assert!(e.vote(Origin::Signed(ALICE), p2, false, 4).is_ok());
    assert!(e.vote(Origin::Signed(BOB), p1, true, 2).is_ok());
    assert_eq!(e.balance_frozen(ALICE), 25);
    assert_eq!(e.proposals(p1).unwrap().ratio, (13, 13));
    assert_eq!(e.proposals(p2).unwrap().ratio, (0, 16));

    assert!(e.unregister_voter(Origin::Signed(ALICE), ALICE).is_ok());

    // The hold is zeroed entirely, and both tallies drop by exactly what
    // the voter had contributed; the other voter's backing stays.
    assert_eq!(e.balance_frozen(ALICE), 0);
    assert_eq!(e.votes(ALICE, p1), None);
    assert_eq!(e.votes(ALICE, p2), None);
    assert_eq!(e.proposals(p1).unwrap().ratio, (4, 4));
    assert_eq!(e.proposals(p2).unwrap().ratio, (0, 0));
    assert_eq!(e.balance_frozen(BOB), 4);
    assert_eq!(e.votes(BOB, p1), Some(VoteInfo { proposal_id: p1, aye: true, power: 2 }));
    assert_eq!(e.registered_voters(ALICE), None);
}

#[test]
fn identical_vote_is_rejected() {
    let mut e = funded_engine(&[(ALICE, 100)]);
    assert!(e.register_voter(Origin::Root, ALICE).is_ok());
    let p1 = create_public(&mut e, ALICE, 1, 200);
    assert!(e.vote(Origin::Signed(ALICE), p1, true, 3).is_ok());
    assert_eq!(e.vote(Origin::Signed(ALICE), p1, true, 3), Err(Error::IdenticVote));
}

#[test]
fn direction_flip_at_equal_power_keeps_the_tally() {
    let mut e = funded_engine(&[(ALICE, 100)]);
    assert!(e.register_voter(Origin::Root, ALICE).is_ok());
    let p1 = create_public(&mut e, ALICE, 1, 200);

    assert!(e.vote(Origin::Signed(ALICE), p1, false, 5).is_ok());
    assert_eq!(e.proposals(p1).unwrap().ratio, (0, 25));

    // Reversing the direction without changing the power moves no cost, so
    // the tally stands while the record's direction changes.
    assert!(e.vote(Origin::Signed(ALICE), p1, true, 5).is_ok());
    assert_eq!(e.proposals(p1).unwrap().ratio, (0, 25));
    assert_eq!(e.votes(ALICE, p1), Some(VoteInfo { proposal_id: p1, aye: true, power: 5 }));
    assert_eq!(e.balance_frozen(ALICE), 25);
}

#[test]
fn claim_requires_a_closed_proposal() {
    let mut e = funded_engine(&[(ALICE, 100)]);
    assert!(e.register_voter(Origin::Root, ALICE).is_ok());
    let p1 = create_public(&mut e, ALICE, 1, 200);
    assert!(e.vote(Origin::Signed(ALICE), p1, true, 3).is_ok());
    assert_eq!(e.claim(Origin::Signed(ALICE), p1), Err(Error::ProposalNotClosed));
}

#[test]
fn claim_requires_a_registered_signed_caller() {
    let mut e = funded_engine(&[(ALICE, 100)]);
    assert_eq!(e.claim(Origin::Signed(BOB), 0), Err(Error::VoterNotRegistered));
    assert_eq!(e.claim(Origin::Root, 0), Err(Error::BadOrigin));
}

#[test]
fn root_cannot_act_as_a_voter() {
    let mut e = funded_engine(&[(ALICE, 100)]);
    assert!(e.register_voter(Origin::Root, ALICE).is_ok());
    assert_eq!(
        e.create_proposal(Origin::Root, Vec::new(), ProposalKind::Public, None, 1, 200),
        Err(Error::BadOrigin)
    );
    let p1 = create_public(&mut e, ALICE, 1, 200);
    assert_eq!(e.vote(Origin::Root, p1, true, 1), Err(Error::BadOrigin));
    assert_eq!(e.close_proposal(Origin::Root, p1), Err(Error::BadOrigin));
}

#[test]
fn root_may_cancel_and_set_lists() {
    let mut e = funded_engine(&[(ALICE, 100)]);
    assert!(e.register_voter(Origin::Root, ALICE).is_ok());
    let p1 = create_public(&mut e, ALICE, 10, 200);
    assert!(e.set_account_list(Origin::Root, p1, Some(vec![BOB])).is_ok());
    assert_eq!(e.proposals(p1).unwrap().account_list, Some(vec![BOB]));
    assert!(e.cancel_proposal(Origin::Root, p1).is_ok());
    assert!(e.proposals(p1).is_none());
}

#[test]
fn window_boundaries_are_inclusive() {
    let mut e = funded_engine(&[(ALICE, 100)]);
    assert!(e.register_voter(Origin::Root, ALICE).is_ok());

    // A start exactly at the delay limit and a duration exactly at either
    // bound are accepted.
    assert!(e
        .create_proposal(Origin::Signed(ALICE), Vec::new(), ProposalKind::Public, None,
            1 + 100, 1 + 100 + 100)
        .is_ok());
    assert!(e
        .create_proposal(Origin::Signed(ALICE), Vec::new(), ProposalKind::Public, None,
            1, 1 + 1000)
        .is_ok());
}

#[test]
fn insufficient_funds_on_adjustment() {
    let mut e = funded_engine(&[(ALICE, 10)]);
    assert!(e.register_voter(Origin::Root, ALICE).is_ok());
    let p1 = create_public(&mut e, ALICE, 1, 200);

    // Power 3 costs 9, leaving a spendable balance of 0 beside the
    // existential deposit; growing to power 4 needs 7 more.
    assert!(e.vote(Origin::Signed(ALICE), p1, true, 3).is_ok());
    assert_eq!(
        e.vote(Origin::Signed(ALICE), p1, true, 4),
        Err(Error::InsufficientBalance)
    );
}

#[test]
fn balances_can_only_be_endowed_once() {
    let mut e = Pallet::new(test_config(), 1);
    assert!(e.set_balance(ALICE, 10));
    assert!(!e.set_balance(ALICE, 20));
    assert_eq!(e.free_balance(ALICE), 10);

    // The issuance cannot exceed the numeric range.
    assert!(e.set_balance(BOB, u128::MAX - 10));
    assert!(!e.set_balance(2, 1));
}

#[test]
fn proposal_ids_are_never_reused() {
    let mut e = funded_engine(&[(ALICE, 100)]);
    assert!(e.register_voter(Origin::Root, ALICE).is_ok());
    let p1 = create_public(&mut e, ALICE, 10, 200);
    assert!(e.cancel_proposal(Origin::Signed(ALICE), p1).is_ok());
    let p2 = create_public(&mut e, ALICE, 10, 200);
    assert_eq!(p2, p1 + 1);
}
