//! The operation-level behaviour of the voting engine: registration,
//! proposal lifecycle, voting, and the holds backing votes.

use quadratic_voting::{Config, Error, Event, Origin, Pallet, ProposalKind, VoteInfo};

const ALICE: u64 = 0;
const BOB: u64 = 1;

fn test_config() -> Config {
    Config {
        account_size_limit: 1000,
        proposal_offchain_data_limit: 150,
        proposal_maximum_duration: 1000,
        proposal_minimum_duration: 100,
        proposal_delay_limit: 100,
    }
}

fn new_test_ext() -> Pallet {
    Pallet::new(test_config(), 1)
}

fn ext_builder(balances: &[(u64, u128)]) -> Pallet {
    let mut e = new_test_ext();
    for &(who, amount) in balances {
        assert!(e.set_balance(who, amount));
    }
    e.set_block_number(1);
    e
}

fn setup(e: &mut Pallet) {
    assert!(e.register_voter(Origin::Root, ALICE).is_ok());
}

/// A proposal with the defaults the tests use: created by ALICE, empty
/// payload, public, with an empty account list.
fn try_create(e: &mut Pallet, start_block: u64, end_block: u64) -> Result<(), Error> {
    e.create_proposal(
        Origin::Signed(ALICE),
        Vec::new(),
        ProposalKind::Public,
        Some(Vec::new()),
        start_block,
        end_block,
    )
}

fn try_create_with(
    e: &mut Pallet,
    kind: ProposalKind,
    account_list: Option<Vec<u64>>,
    start_block: u64,
    end_block: u64,
) -> Result<(), Error> {
    e.create_proposal(Origin::Signed(ALICE), Vec::new(), kind, account_list, start_block, end_block)
}

fn vote_setup(e: &mut Pallet) {
    assert!(e.register_voter(Origin::Root, ALICE).is_ok());
    assert!(try_create(e, 1, 200).is_ok());
}

#[test]
fn works_only_if_root() {
    let mut e = new_test_ext();
    e.set_block_number(1);
    assert_eq!(e.register_voter(Origin::Signed(0), 0), Err(Error::BadOrigin));
    assert!(e.register_voter(Origin::Root, 1).is_ok());
    assert_eq!(e.registered_voters(1), Some(()));
    assert!(matches!(e.events().last(), Some(Event::NewVoterRegistered { who: 1 })));
}

#[test]
fn works_with_root() {
    let mut e = new_test_ext();
    e.set_block_number(1);
    assert!(e.register_voter(Origin::Root, 0).is_ok());
    assert_eq!(e.registered_voters(0), Some(()));
    assert!(e.unregister_voter(Origin::Root, 0).is_ok());
    assert_eq!(e.registered_voters(0), None);
    assert!(matches!(e.events().last(), Some(Event::VoterUnregistered { who: 0 })));
}

#[test]
fn works_with_correct_signed_origin() {
    let mut e = new_test_ext();
    e.set_block_number(1);
    assert!(e.register_voter(Origin::Root, 0).is_ok());
    assert_eq!(e.registered_voters(0), Some(()));
    assert_eq!(e.unregister_voter(Origin::Signed(1), 0), Err(Error::OriginNoPermission));
    assert!(e.unregister_voter(Origin::Signed(0), 0).is_ok());
    assert_eq!(e.registered_voters(0), None);
    assert!(matches!(e.events().last(), Some(Event::VoterUnregistered { who: 0 })));
}

#[test]
fn new_proposal() {
    let mut e = new_test_ext();
    e.set_block_number(1);
    let start_block = 20;
    let end_block = 120;
    setup(&mut e);

    assert!(try_create(&mut e, start_block, end_block).is_ok());

    let proposal_id = e.get_next_proposal_id() - 1;
    let proposal = e.proposals(proposal_id).unwrap();
    assert_eq!(proposal.offchain_data, Vec::<u8>::new());
    assert_eq!(proposal.ratio, (0, 0));
    assert_eq!(proposal.kind, ProposalKind::Public);
    assert_eq!(proposal.creator, ALICE);
    assert_eq!(proposal.account_list, Some(Vec::<u64>::new()));
    assert_eq!(proposal.start_block, start_block);
    assert_eq!(proposal.end_block, end_block);

    match e.events().last() {
        Some(Event::ProposalCreated {
            proposal_id: pid,
            offchain_data,
            creator,
            kind,
            account_list,
            start_block: sb,
            end_block: eb,
        }) => {
            assert_eq!(*pid, proposal_id);
            assert_eq!(*offchain_data, Vec::<u8>::new());
            assert_eq!(*creator, ALICE);
            assert_eq!(*kind, ProposalKind::Public);
            assert_eq!(*account_list, Some(Vec::<u64>::new()));
            assert_eq!(*sb, start_block);
            assert_eq!(*eb, end_block);
        },
        _ => panic!("expected a ProposalCreated event"),
    }
}

#[test]
fn cannot_start_proposal_in_the_past() {
    let mut e = new_test_ext();
    e.set_block_number(1);
    setup(&mut e);
    assert_eq!(try_create(&mut e, 0, 1000), Err(Error::ProposalCannotStartInThePast));
}

#[test]
fn cannot_finish_proposal_before_starting() {
    let mut e = new_test_ext();
    e.set_block_number(1);
    setup(&mut e);
    assert_eq!(try_create(&mut e, 1, 0), Err(Error::ProposalCannotFinishBeforeStarting));
}

#[test]
fn too_much_delay_proposal() {
    let mut e = new_test_ext();
    e.set_block_number(1);
    setup(&mut e);
    let max_delay = 100;
    assert_eq!(
        try_create(&mut e, 1 + max_delay + 1, 1000),
        Err(Error::ProposalStartIsTooFarAway)
    );
}

#[test]
fn too_long_duration_proposal() {
    let mut e = new_test_ext();
    e.set_block_number(1);
    setup(&mut e);
    let max_duration = 1000;
    assert_eq!(
        try_create(&mut e, 1, 1 + max_duration + 1),
        Err(Error::ProposalDurationIsTooLong)
    );
}

#[test]
fn too_short_duration_proposal() {
    let mut e = new_test_ext();
    e.set_block_number(1);
    setup(&mut e);
    let min_duration = 100;
    assert_eq!(
        try_create(&mut e, 1, 1 + min_duration - 1),
        Err(Error::ProposalDurationIsTooShort)
    );
}

#[test]
fn cancel_proposal() {
    let mut e = new_test_ext();
    e.set_block_number(1);
    setup(&mut e);

    assert!(try_create(&mut e, 10, 200).is_ok());

    let proposal_id = e.get_next_proposal_id() - 1;
    assert!(e.cancel_proposal(Origin::Signed(ALICE), proposal_id).is_ok());

    assert!(e.proposals(proposal_id).is_none());
    assert!(matches!(e.events().last(), Some(Event::ProposalCancelled { .. })));
}

#[test]
fn cannot_cancel_proposal_after_start() {
    let mut e = new_test_ext();
    e.set_block_number(1);
    setup(&mut e);

    assert!(try_create(&mut e, 1, 200).is_ok());

    let proposal_id = e.get_next_proposal_id() - 1;
    assert_eq!(
        e.cancel_proposal(Origin::Signed(ALICE), proposal_id),
        Err(Error::ProposalHasAlreadyStarted)
    );
}

#[test]
fn cannot_cancel_proposal_not_existing() {
    let mut e = new_test_ext();
    e.set_block_number(1);
    setup(&mut e);

    assert!(try_create(&mut e, 1, 200).is_ok());

    let next_proposal_id = e.get_next_proposal_id();
    assert_eq!(
        e.cancel_proposal(Origin::Signed(ALICE), next_proposal_id),
        Err(Error::ProposalDoesNotExist)
    );
}

#[test]
fn works_only_if_root_or_creator() {
    let mut e = new_test_ext();
    e.set_block_number(1);
    setup(&mut e);

    assert!(try_create(&mut e, 10, 200).is_ok());

    let proposal_id = e.get_next_proposal_id() - 1;
    assert_eq!(
        e.cancel_proposal(Origin::Signed(BOB), proposal_id),
        Err(Error::OriginNoPermission)
    );
}

#[test]
fn close_proposal() {
    let mut e = new_test_ext();
    e.set_block_number(1);
    setup(&mut e);
    assert!(e.register_voter(Origin::Root, BOB).is_ok());

    assert!(try_create(&mut e, 1, 200).is_ok());

    e.set_block_number(200);

    let proposal_id = e.get_next_proposal_id() - 1;
    assert!(e.close_proposal(Origin::Signed(BOB), proposal_id).is_ok());

    assert!(e.proposals(proposal_id).is_none());
    match e.events().last() {
        Some(Event::VoteCompleted { proposal_id: pid, ratio }) => {
            assert_eq!(*pid, proposal_id);
            assert_eq!(*ratio, (0, 0));
        },
        _ => panic!("expected a VoteCompleted event"),
    }
}

#[test]
fn cannot_close_proposal_before_end() {
    let mut e = new_test_ext();
    e.set_block_number(1);
    setup(&mut e);
    assert!(e.register_voter(Origin::Root, BOB).is_ok());

    assert!(try_create(&mut e, 1, 200).is_ok());

    e.set_block_number(199);

    let proposal_id = e.get_next_proposal_id() - 1;
    assert_eq!(
        e.close_proposal(Origin::Signed(BOB), proposal_id),
        Err(Error::ProposalHasNotEndedYet)
    );
}

#[test]
fn cannot_close_proposal_not_existing() {
    let mut e = new_test_ext();
    e.set_block_number(1);
    setup(&mut e);
    assert!(e.register_voter(Origin::Root, BOB).is_ok());

    assert!(try_create(&mut e, 1, 200).is_ok());

    e.set_block_number(200);

    let next_proposal_id = e.get_next_proposal_id();
    assert_eq!(
        e.close_proposal(Origin::Signed(BOB), next_proposal_id),
        Err(Error::ProposalDoesNotExist)
    );
}

#[test]
fn set_account_list() {
    let mut e = new_test_ext();
    e.set_block_number(1);
    setup(&mut e);

    assert!(try_create(&mut e, 10, 200).is_ok());
    let proposal_id = e.get_next_proposal_id() - 1;
    assert!(e.proposals(proposal_id).is_some());

    let new_account_list = vec![BOB];
    assert!(e
        .set_account_list(Origin::Signed(ALICE), proposal_id, Some(new_account_list.clone()))
        .is_ok());

    let proposal = e.proposals(proposal_id).unwrap();
    assert_eq!(proposal.account_list, Some(new_account_list.clone()));
    assert_eq!(proposal.creator, ALICE);
    assert_eq!(proposal.ratio, (0, 0));
    assert_eq!(proposal.start_block, 10);
    assert_eq!(proposal.end_block, 200);

    match e.events().last() {
        Some(Event::AccountListSet { proposal_id: pid, account_list }) => {
            assert_eq!(*pid, proposal_id);
            assert_eq!(*account_list, Some(new_account_list));
        },
        _ => panic!("expected an AccountListSet event"),
    }
}

#[test]
fn cannot_set_account_list_after_start() {
    let mut e = new_test_ext();
    e.set_block_number(1);
    setup(&mut e);

    assert!(try_create(&mut e, 1, 200).is_ok());

    let proposal_id = e.get_next_proposal_id() - 1;
    assert_eq!(
        e.set_account_list(Origin::Signed(ALICE), proposal_id, Some(vec![BOB])),
        Err(Error::ProposalHasAlreadyStarted)
    );
}

#[test]
fn tests_cannot_cancel_proposal_not_existing() {
    let mut e = new_test_ext();
    e.set_block_number(1);
    setup(&mut e);

    assert!(try_create(&mut e, 1, 200).is_ok());

    let next_proposal_id = e.get_next_proposal_id();
    assert_eq!(
        e.set_account_list(Origin::Signed(ALICE), next_proposal_id, Some(vec![BOB])),
        Err(Error::ProposalDoesNotExist)
    );
}

#[test]
fn tests_works_only_if_root_or_creator() {
    let mut e = new_test_ext();
    e.set_block_number(1);
    setup(&mut e);

    assert!(try_create(&mut e, 10, 200).is_ok());

    let proposal_id = e.get_next_proposal_id() - 1;
    assert_eq!(
        e.set_account_list(Origin::Signed(BOB), proposal_id, Some(vec![BOB])),
        Err(Error::OriginNoPermission)
    );
}

#[test]
fn works_only_if_registered_voter() {
    let mut e = new_test_ext();
    assert_eq!(e.vote(Origin::Signed(2), 0, true, 1), Err(Error::VoterNotRegistered));
}

#[test]
fn cannot_vote_proposal_not_existing() {
    let mut e = new_test_ext();
    setup(&mut e);
    assert_eq!(e.vote(Origin::Signed(ALICE), 1, true, 1), Err(Error::ProposalDoesNotExist));
}

#[test]
fn cannot_vote_proposal_not_started() {
    let mut e = new_test_ext();
    e.set_block_number(1);
    setup(&mut e);

    assert!(try_create(&mut e, 10, 200).is_ok());

    let proposal_id = e.get_next_proposal_id() - 1;
    assert_eq!(
        e.vote(Origin::Signed(ALICE), proposal_id, true, 1),
        Err(Error::ProposalHasNotStartedYet)
    );
}

#[test]
fn cannot_vote_proposal_finished() {
    let mut e = new_test_ext();
    e.set_block_number(1);
    setup(&mut e);

    assert!(try_create(&mut e, 10, 200).is_ok());

    e.set_block_number(201);

    let proposal_id = e.get_next_proposal_id() - 1;
    assert_eq!(
        e.vote(Origin::Signed(ALICE), proposal_id, true, 1),
        Err(Error::ProposalHasAlreadyEnded)
    );
}

#[test]
fn banned_voter_cannot_vote() {
    let mut e = new_test_ext();
    e.set_block_number(1);
    assert!(e.register_voter(Origin::Root, BOB).is_ok());
    setup(&mut e);

    assert!(try_create_with(&mut e, ProposalKind::Public, Some(vec![BOB]), 1, 200).is_ok());

    let proposal_id = e.get_next_proposal_id() - 1;
    assert_eq!(
        e.vote(Origin::Signed(BOB), proposal_id, true, 1),
        Err(Error::OriginNoPermission)
    );
}

#[test]
fn not_allowed_voter_cannot_vote_private_proposal() {
    let mut e = new_test_ext();
    e.set_block_number(1);
    assert!(e.register_voter(Origin::Root, BOB).is_ok());
    setup(&mut e);

    assert!(try_create_with(&mut e, ProposalKind::Private, Some(vec![ALICE]), 1, 200).is_ok());

    let proposal_id = e.get_next_proposal_id() - 1;
    assert_eq!(
        e.vote(Origin::Signed(BOB), proposal_id, true, 1),
        Err(Error::OriginNoPermission)
    );
}

#[test]
fn ext_builder_balance_setup_works() {
    let e = ext_builder(&[(ALICE, 10), (BOB, 100)]);

    assert_eq!(e.free_balance(ALICE), 10);
    assert_eq!(e.free_balance(BOB), 100);
    assert_eq!(e.balance_frozen(ALICE), 0);
    assert_eq!(e.balance_frozen(BOB), 0);
}

#[test]
fn cannot_vote_with_insufficient_funds() {
    let mut e = ext_builder(&[(ALICE, 10)]);
    let aye = true;
    let power = 4; // 16 tokens required
    setup(&mut e);

    assert!(try_create(&mut e, 1, 200).is_ok());

    let proposal_id = e.get_next_proposal_id() - 1;
    assert_eq!(
        e.vote(Origin::Signed(ALICE), proposal_id, aye, power),
        Err(Error::InsufficientBalance)
    );
}

#[test]
fn single_vote() {
    let mut e = ext_builder(&[(ALICE, 10)]);
    let aye = true;
    let power = 3; // 9 tokens required
    let quadratic_amount = Pallet::calculate_quadratic_amount(power);
    vote_setup(&mut e);

    let proposal_id = e.next_proposal_id() - 1;

    assert!(e.vote(Origin::Signed(ALICE), proposal_id, aye, power).is_ok());

    let proposal = e.proposals(proposal_id).unwrap();
    assert_eq!(proposal.ratio, (quadratic_amount, quadratic_amount));

    assert_eq!(e.balance_frozen(ALICE), quadratic_amount);

    assert_eq!(e.votes(ALICE, proposal_id), Some(VoteInfo { proposal_id, aye, power }));

    match e.events().last() {
        Some(Event::VoteAdded { proposal_id: pid, voter, aye: a, power: p }) => {
            assert_eq!(*pid, proposal_id);
            assert_eq!(*voter, ALICE);
            assert_eq!(*a, aye);
            assert_eq!(*p, power);
        },
        _ => panic!("expected a VoteAdded event"),
    }
}

#[test]
fn vote_adjustment() {
    let mut e = ext_builder(&[(ALICE, 100)]);
    let init_aye = true;
    let init_power = 3; // 9 tokens required
    vote_setup(&mut e);

    let proposal_id = e.next_proposal_id() - 1;

    assert!(e.vote(Origin::Signed(ALICE), proposal_id, init_aye, init_power).is_ok());

    e.set_block_number(2);

    let second_aye = true;
    let second_power = 4; // 16 tokens required - diff = 7
    let second_quadratic_amount = Pallet::calculate_quadratic_amount(second_power);

    assert!(e.vote(Origin::Signed(ALICE), proposal_id, second_aye, second_power).is_ok());

    let proposal = e.proposals(proposal_id).unwrap();
    assert_eq!(proposal.ratio, (second_quadratic_amount, second_quadratic_amount));

    assert_eq!(e.balance_frozen(ALICE), second_quadratic_amount);

    assert_eq!(
        e.votes(ALICE, proposal_id),
        Some(VoteInfo { proposal_id, aye: second_aye, power: second_power })
    );

    match e.events().last() {
        Some(Event::VoteAdded { proposal_id: pid, voter, aye, power }) => {
            assert_eq!(*pid, proposal_id);
            assert_eq!(*voter, ALICE);
            assert_eq!(*aye, second_aye);
            assert_eq!(*power, second_power);
        },
        _ => panic!("expected a VoteAdded event"),
    }
}

#[test]
fn retract_vote() {
    let mut e = ext_builder(&[(ALICE, 10)]);
    let init_aye = true;
    let init_power = 3; // 9 tokens required
    vote_setup(&mut e);

    let proposal_id = e.next_proposal_id() - 1;

    assert!(e.vote(Origin::Signed(ALICE), proposal_id, init_aye, init_power).is_ok());

    e.set_block_number(2);

    let second_aye = true;
    let second_power = 0;
    let second_quadratic_amount = Pallet::calculate_quadratic_amount(second_power);

    assert!(e.vote(Origin::Signed(ALICE), proposal_id, second_aye, second_power).is_ok());

    let proposal = e.proposals(proposal_id).unwrap();
    assert_eq!(proposal.ratio, (second_quadratic_amount, second_quadratic_amount));

    assert_eq!(e.balance_frozen(ALICE), second_quadratic_amount);

    assert_eq!(e.votes(ALICE, proposal_id), None);

    match e.events().last() {
        Some(Event::VoteDropped { proposal_id: pid, voter }) => {
            assert_eq!(*pid, proposal_id);
            assert_eq!(*voter, ALICE);
        },
        _ => panic!("expected a VoteDropped event"),
    }
}

#[test]
fn multiple_proposal_votes() {
    let mut e = ext_builder(&[(ALICE, 30)]);

    assert!(e.register_voter(Origin::Root, ALICE).is_ok());
    assert!(try_create(&mut e, 1, 200).is_ok());
    let proposal_1_id = e.next_proposal_id() - 1;
    assert!(try_create(&mut e, 10, 210).is_ok());
    let proposal_2_id = e.next_proposal_id() - 1;

    let proposal_1_vote_aye = true;
    let proposal_1_vote_power = 3; // 9 tokens required
    let proposal_1_quadratic_amount = Pallet::calculate_quadratic_amount(proposal_1_vote_power);
    let proposal_2_vote_aye = false;
    let proposal_2_vote_power = 4; // 16 tokens required
    let proposal_2_quadratic_amount = Pallet::calculate_quadratic_amount(proposal_2_vote_power);

    assert!(e
        .vote(Origin::Signed(ALICE), proposal_1_id, proposal_1_vote_aye, proposal_1_vote_power)
        .is_ok());

    e.set_block_number(20);

    assert!(e
        .vote(Origin::Signed(ALICE), proposal_2_id, proposal_2_vote_aye, proposal_2_vote_power)
        .is_ok());

    let proposal_1 = e.proposals(proposal_1_id).unwrap();
    assert_eq!(proposal_1.ratio, (proposal_1_quadratic_amount, proposal_1_quadratic_amount));

    let proposal_2 = e.proposals(proposal_2_id).unwrap();
    assert_eq!(proposal_2.ratio, (0, proposal_2_quadratic_amount));

    assert_eq!(
        e.balance_frozen(ALICE),
        proposal_1_quadratic_amount + proposal_2_quadratic_amount
    );

    assert_eq!(
        e.votes(ALICE, proposal_1_id),
        Some(VoteInfo {
            proposal_id: proposal_1_id,
            aye: proposal_1_vote_aye,
            power: proposal_1_vote_power
        })
    );

    assert_eq!(
        e.votes(ALICE, proposal_2_id),
        Some(VoteInfo {
            proposal_id: proposal_2_id,
            aye: proposal_2_vote_aye,
            power: proposal_2_vote_power
        })
    );
}
