use beefy_voter::keystore::BeefyKeystore;
use beefy_voter::oracle::{vote_target, next_power_of_two, Error, RoundAction, VoterOracle};
use beefy_voter::pending::PendingBuffer;
use beefy_voter::round::{threshold, Rounds};
use beefy_voter::types::{AuthorityId, Payload, Signature, ValidatorSet, MMR_ROOT_ID};

fn id(n: u8) -> AuthorityId {
    AuthorityId::new(vec![n; 33])
}

fn sig(n: u8) -> Signature {
    Signature::new(vec![n; 65])
}

fn validators(n: u8) -> ValidatorSet {
    ValidatorSet::new((1..=n).map(id).collect(), 3).unwrap()
}

fn round(number: u32) -> (Payload, u32) {
    (Payload::new(MMR_ROOT_ID, vec![number as u8; 32]), number)
}

#[test]
fn threshold_is_all_but_a_third() {
    let expected = [(1usize, 1usize), (2, 2), (3, 3), (4, 3), (5, 4), (6, 5), (7, 5), (10, 7), (100, 67)];
    for (n, t) in expected {
        assert_eq!(threshold(n), t, "of {}", n);
        assert_eq!(threshold(n), 2 * n / 3 + 1, "of {}", n);
    }
    assert_eq!(threshold(0), 0);
    // 2f + 1 of 3f + 1
    for f in 0..50 {
        assert_eq!(threshold(3 * f + 1), 2 * f + 1);
    }
}

#[test]
fn a_validator_set_is_never_empty() {
    assert!(ValidatorSet::new(vec![], 0).is_none());
    let set = validators(2);
    assert_eq!(set.len(), 2);
    assert_eq!(set.id(), 3);
    assert_eq!(set.validators(), &vec![id(1), id(2)]);
}

#[test]
fn new_rounds_start_with_nothing_done() {
    let rounds = Rounds::new(42, validators(3));
    assert_eq!(rounds.session_start(), 42);
    assert_eq!(rounds.validator_set_id(), 3);
    assert_eq!(rounds.validators(), &vec![id(1), id(2), id(3)]);
    assert!(!rounds.mandatory_done());
    assert!(rounds.should_self_vote(&round(42)));
}

#[test]
fn a_vote_is_added_once() {
    let mut rounds = Rounds::new(10, validators(4));
    assert!(rounds.add_vote(&round(10), (id(1), sig(1)), false));
    // the same validator again, with the same or another signature
    assert!(!rounds.add_vote(&round(10), (id(1), sig(1)), false));
    assert!(!rounds.add_vote(&round(10), (id(1), sig(9)), true));
    // the duplicate did not count, nor make the round this node's own
    assert!(rounds.should_self_vote(&round(10)));
    assert_eq!(rounds.try_conclude(&round(10)), None);
    // the same validator in another round
    assert!(rounds.add_vote(&round(11), (id(1), sig(1)), false));
    // another payload at the same block is another round
    let other = (Payload::new(MMR_ROOT_ID, vec![0xff; 32]), 10);
    assert!(rounds.add_vote(&other, (id(1), sig(1)), false));
}

#[test]
fn only_validators_vote() {
    let mut rounds = Rounds::new(10, validators(4));
    assert!(!rounds.add_vote(&round(10), (id(5), sig(5)), false));
    assert!(!rounds.add_vote(&round(10), (AuthorityId::new(vec![]), sig(5)), true));
    assert!(rounds.should_self_vote(&round(10)));
    assert!(rounds.add_vote(&round(10), (id(4), sig(4)), false));
}

#[test]
fn stale_rounds_take_no_votes() {
    let mut rounds = Rounds::new(10, validators(1));
    // before the session
    assert!(!rounds.add_vote(&round(9), (id(1), sig(1)), false));
    assert!(rounds.add_vote(&round(12), (id(1), sig(1)), false));
    assert!(rounds.try_conclude(&round(12)).is_some());
    // at or below a round that concluded
    assert!(!rounds.add_vote(&round(12), (id(1), sig(1)), false));
    assert!(!rounds.add_vote(&round(11), (id(1), sig(1)), false));
    assert!(!rounds.add_vote(&round(10), (id(1), sig(1)), false));
    assert!(rounds.add_vote(&round(13), (id(1), sig(1)), false));
}

#[test]
fn a_round_concludes_at_the_threshold_and_only_once() {
    let mut rounds = Rounds::new(10, validators(4));
    assert_eq!(rounds.try_conclude(&round(11)), None);
    assert!(rounds.add_vote(&round(11), (id(4), sig(4)), false));
    assert_eq!(rounds.try_conclude(&round(11)), None);
    assert!(rounds.add_vote(&round(11), (id(2), sig(2)), false));
    assert_eq!(rounds.try_conclude(&round(11)), None);
    assert!(rounds.add_vote(&round(11), (id(1), sig(1)), false));
    // one place per validator, in the order of the set
    assert_eq!(
        rounds.try_conclude(&round(11)),
        Some(vec![Some(sig(1)), Some(sig(2)), None, Some(sig(4))])
    );
    assert_eq!(rounds.try_conclude(&round(11)), None);
    // the fourth vote comes too late
    assert!(!rounds.add_vote(&round(11), (id(3), sig(3)), false));
    assert_eq!(rounds.try_conclude(&round(11)), None);
    // it was not the session's first block
    assert!(!rounds.mandatory_done());
}

#[test]
fn concluding_the_first_block_finishes_the_mandatory() {
    let mut rounds = Rounds::new(10, validators(2));
    assert!(rounds.add_vote(&round(10), (id(1), sig(1)), false));
    assert!(rounds.add_vote(&round(10), (id(2), sig(2)), false));
    assert!(!rounds.mandatory_done());
    assert_eq!(rounds.try_conclude(&round(10)), Some(vec![Some(sig(1)), Some(sig(2))]));
    assert!(rounds.mandatory_done());
    // it stays done
    assert!(rounds.add_vote(&round(20), (id(1), sig(1)), false));
    assert!(rounds.add_vote(&round(20), (id(2), sig(2)), false));
    assert!(rounds.try_conclude(&round(20)).is_some());
    assert!(rounds.mandatory_done());
}

#[test]
fn concluding_a_round_forgets_the_rounds_below() {
    let mut rounds = Rounds::new(10, validators(2));
    assert!(rounds.add_vote(&round(11), (id(1), sig(1)), true));
    assert!(rounds.add_vote(&round(12), (id(1), sig(1)), false));
    assert!(rounds.add_vote(&round(13), (id(1), sig(1)), true));
    assert!(rounds.add_vote(&round(12), (id(2), sig(2)), false));
    assert!(!rounds.should_self_vote(&round(11)));
    assert!(!rounds.should_self_vote(&round(13)));
    assert!(rounds.try_conclude(&round(12)).is_some());
    // round 11 is gone, round 13 is still there
    assert!(rounds.should_self_vote(&round(11)));
    assert!(!rounds.should_self_vote(&round(13)));
    assert!(rounds.add_vote(&round(13), (id(2), sig(2)), false));
    assert_eq!(rounds.try_conclude(&round(13)), Some(vec![Some(sig(1)), Some(sig(2))]));
}

#[test]
fn a_node_votes_once_per_round() {
    let mut rounds = Rounds::new(1, validators(3));
    assert!(rounds.should_self_vote(&round(5)));
    assert!(rounds.add_vote(&round(5), (id(2), sig(2)), false));
    assert!(rounds.should_self_vote(&round(5)));
    assert!(rounds.add_vote(&round(5), (id(1), sig(1)), true));
    assert!(!rounds.should_self_vote(&round(5)));
    assert!(rounds.should_self_vote(&round(6)));
}

#[test]
fn rounds_are_triaged_by_the_accepted_interval() {
    let mut oracle = VoterOracle::new(1);
    assert_eq!(oracle.triage_round(5, 20), Err(Error::UninitSession));
    assert_eq!(oracle.accepted_interval(20), Err(Error::UninitSession));

    oracle.add_session(Rounds::new(10, validators(1)));
    assert_eq!(oracle.triage_round(9, 20), Ok(RoundAction::Drop));
    assert_eq!(oracle.triage_round(10, 20), Ok(RoundAction::Process));
    assert_eq!(oracle.triage_round(11, 20), Ok(RoundAction::Enqueue));
    assert_eq!(oracle.triage_round(21, 20), Ok(RoundAction::Enqueue));

    oracle.rounds_mut().unwrap().set_mandatory_done();
    assert_eq!(oracle.accepted_interval(20), Ok((10, 20)));
    assert_eq!(oracle.triage_round(9, 20), Ok(RoundAction::Drop));
    assert_eq!(oracle.triage_round(10, 20), Ok(RoundAction::Process));
    assert_eq!(oracle.triage_round(20, 20), Ok(RoundAction::Process));
    assert_eq!(oracle.triage_round(21, 20), Ok(RoundAction::Enqueue));
}

#[test]
fn lagging_sessions_accept_their_mandatory_only() {
    let mut oracle = VoterOracle::new(1);
    for start in [1u32, 11, 21] {
        oracle.add_session(Rounds::new(start, validators(1)));
    }
    assert_eq!(oracle.accepted_interval(30), Ok((1, 1)));
    oracle.rounds_mut().unwrap().set_mandatory_done();
    oracle.try_prune();
    assert_eq!(oracle.accepted_interval(30), Ok((11, 11)));
    oracle.rounds_mut().unwrap().set_mandatory_done();
    oracle.try_prune();
    assert_eq!(oracle.accepted_interval(30), Ok((21, 21)));
    oracle.rounds_mut().unwrap().set_mandatory_done();
    assert_eq!(oracle.accepted_interval(30), Ok((21, 30)));
}

#[test]
fn a_single_session_is_not_pruned() {
    let mut oracle = VoterOracle::new(1);
    oracle.try_prune();
    assert!(oracle.rounds().is_none());
    assert!(oracle.rounds_mut().is_none());
    oracle.add_session(Rounds::new(5, validators(1)));
    oracle.try_prune();
    assert_eq!(oracle.rounds().unwrap().session_start(), 5);
    oracle.rounds_mut().unwrap().set_mandatory_done();
    oracle.try_prune();
    assert_eq!(oracle.rounds().unwrap().session_start(), 5);
    assert!(oracle.rounds().unwrap().mandatory_done());
}

#[test]
fn a_min_delta_of_zero_counts_as_one() {
    let mut oracle = VoterOracle::new(0);
    oracle.add_session(Rounds::new(1, validators(1)));
    assert_eq!(oracle.voting_target(Some(5), 5), None);
    assert_eq!(oracle.voting_target(Some(5), 6), Some(6));
}

#[test]
fn next_power_of_two_is_the_least() {
    let expected = [(0u32, 1u32), (1, 1), (2, 2), (3, 4), (4, 4), (5, 8), (1000, 1024), (1024, 1024), (1025, 2048)];
    for (x, p) in expected {
        assert_eq!(next_power_of_two(x), p);
        assert_eq!(next_power_of_two(x), x.next_power_of_two());
    }
    assert_eq!(next_power_of_two(0x8000_0000), 0x8000_0000);
    assert_eq!(next_power_of_two(0x7fff_ffff), 0x8000_0000);
}

#[test]
fn nothing_to_vote_on_when_caught_up() {
    for (n, s, d) in [(0u32, 0u32, 0u32), (1, 1, 1), (5, 1, 4), (1000, 1000, 1), (u32::MAX, 7, 1), (u32::MAX, u32::MAX, 9)] {
        assert_eq!(vote_target(n, Some(n), s, d), None);
    }
}

#[test]
fn the_mandatory_block_is_voted_on_once_finalized() {
    for (best, s, d) in [(10u32, 10u32, 1u32), (10, 3, 100), (u32::MAX, u32::MAX, 0), (0, 0, 5)] {
        assert_eq!(vote_target(best, None, s, d), Some(s));
    }
    for (best, s, d) in [(9u32, 10u32, 1u32), (0, 1, 1), (u32::MAX - 1, u32::MAX, 4)] {
        assert_eq!(vote_target(best, None, s, d), None);
    }
}

#[test]
fn a_small_gap_is_stepped_by_min_delta() {
    // half the gap is 2, its power of two 2, min delta 4
    assert_eq!(vote_target(104, Some(100), 1, 4), Some(104));
    // half the gap is 4, min delta 8
    assert_eq!(vote_target(108, Some(100), 1, 8), Some(108));
    // half the gap is 3, which is no more than a min delta of 3, but the step is 4
    assert_eq!(vote_target(105, Some(100), 1, 3), Some(104));
}

#[test]
fn targets_at_the_end_of_the_number_range() {
    assert_eq!(vote_target(u32::MAX, Some(0), 0, 1), Some(0x8000_0000));
    assert_eq!(vote_target(u32::MAX, Some(u32::MAX - 1), 0, 1), Some(u32::MAX));
    assert_eq!(vote_target(u32::MAX, Some(u32::MAX - 1), 0, 2), None);
    assert_eq!(vote_target(u32::MAX, Some(5), 0, u32::MAX), None);
    // the best finalized block behind the best block with a proof
    assert_eq!(vote_target(5, Some(9), 0, 1), None);
}

#[test]
fn pending_items_stand_in_the_order_of_their_blocks() {
    let mut buffer: PendingBuffer<Signature> = PendingBuffer::new();
    assert!(buffer.is_empty());
    for (number, item) in [(5u32, 1u8), (3, 2), (5, 3), (9, 4), (3, 5), (1, 6)] {
        buffer.enqueue(number, sig(item));
    }
    assert_eq!(buffer.len(), 6);
    let order: Vec<(u32, Signature)> =
        (0..buffer.len()).map(|i| (buffer.number_at(i), buffer.item_at(i).clone())).collect();
    assert_eq!(
        order,
        vec![(1, sig(6)), (3, sig(2)), (3, sig(5)), (5, sig(1)), (5, sig(3)), (9, sig(4))]
    );
}

#[test]
fn draining_hands_out_what_is_due() {
    let mut buffer: PendingBuffer<Signature> = PendingBuffer::new();
    for number in [1u32, 2, 3, 3, 4, 5, 6, 7] {
        buffer.enqueue(number, sig(number as u8));
    }
    let ready = buffer.drain(3, 5);
    assert_eq!(ready, vec![(3, sig(3)), (3, sig(3)), (4, sig(4)), (5, sig(5))]);
    assert_eq!(buffer.len(), 2);
    assert_eq!(buffer.number_at(0), 6);
    assert_eq!(buffer.number_at(1), 7);
    // an interval that holds nothing
    assert_eq!(buffer.drain(9, 3), vec![]);
    assert_eq!(buffer.len(), 2);
    // all that is left lies below
    assert_eq!(buffer.drain(10, u32::MAX), vec![]);
    assert!(buffer.is_empty());
}

#[test]
fn the_key_store_finds_the_first_local_validator() {
    let store = BeefyKeystore::new(Some(vec![id(9), id(3), id(2)]));
    assert_eq!(store.authority_id(&vec![id(1), id(2), id(3)]), Some(id(2)));
    assert_eq!(store.authority_id(&vec![id(3), id(2)]), Some(id(3)));
    assert_eq!(store.authority_id(&vec![id(1), id(4)]), None);
    assert_eq!(store.authority_id(&vec![]), None);
    assert_eq!(store.public_keys(), Ok(vec![id(9), id(3), id(2)]));
    let none = BeefyKeystore::new(None);
    assert_eq!(none.authority_id(&vec![id(1), id(2), id(3)]), None);
    assert_eq!(none.public_keys(), Err(Error::Keystore("no Keystore".to_string())));
}

#[test]
fn the_interval_opens_once_the_mandatory_is_done() {
    let mut oracle = VoterOracle::new(1);
    oracle.add_session(Rounds::new(1, validators(1)));
    for k in (0..40).chain([1000, u32::MAX]) {
        assert_eq!(oracle.accepted_interval(k), Ok((1, 1)));
    }
    oracle.rounds_mut().unwrap().set_mandatory_done();
    for k in (0..40).chain([1000, u32::MAX]) {
        assert_eq!(oracle.accepted_interval(k), Ok((1, k)));
    }
}
