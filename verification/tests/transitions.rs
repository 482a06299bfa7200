use beefy_voter::digest::{encode_consensus_log, ConsensusLog, DigestItem, Header, BEEFY_ENGINE_ID};
use beefy_voter::justification::verify_with_validator_set;
use beefy_voter::oracle::Error;
use beefy_voter::round::Rounds;
use beefy_voter::types::{
    AuthorityId, Commitment, MmrRootHash, Payload, Signature, SignedCommitment, ValidatorSet,
    VersionedFinalityProof, VoteMessage, GENESIS_AUTHORITY_SET_ID, MMR_ROOT_ID,
};
use beefy_voter::worker::{Action, BeefyWorker, Flow, WorkerEvent};

fn id(n: u8) -> AuthorityId {
    AuthorityId::new(vec![n; 33])
}

fn sig(n: u8) -> Signature {
    Signature::new(vec![n; 65])
}

fn validators(n: u8, set_id: u64) -> ValidatorSet {
    ValidatorSet::new((1..=n).map(id).collect(), set_id).unwrap()
}

fn root() -> MmrRootHash {
    MmrRootHash::new(vec![0x77; 32]).unwrap()
}

fn header(number: u32) -> Header {
    Header::new(number, vec![number as u8; 32])
}

fn header_with_session(number: u32, set: &ValidatorSet) -> Header {
    let mut h = header(number);
    h.digest.push(DigestItem::Consensus(
        BEEFY_ENGINE_ID,
        encode_consensus_log(&ConsensusLog::AuthoritiesChange(set.clone())).unwrap(),
    ));
    h
}

fn vote(number: u32, voter: u8) -> VoteMessage {
    VoteMessage {
        commitment: Commitment {
            payload: Payload::new(MMR_ROOT_ID, root().raw),
            block_number: number,
            validator_set_id: 0,
        },
        id: id(voter),
        signature: sig(voter),
    }
}

fn justif(number: u32) -> VersionedFinalityProof {
    VersionedFinalityProof::V1(SignedCommitment {
        commitment: Commitment {
            payload: Payload::new(MMR_ROOT_ID, vec![]),
            block_number: number,
            validator_set_id: 0,
        },
        signatures: vec![None],
    })
}

fn worker_at(best: u32, session_start: u32, set: ValidatorSet) -> BeefyWorker {
    let mut worker = BeefyWorker::new(header(best), 1);
    worker.init_session_at(set, session_start);
    worker
}

#[test]
fn a_new_worker_has_nothing() {
    let worker = BeefyWorker::new(header(7), 0);
    assert_eq!(worker.best_grandpa_block_header, header(7));
    assert_eq!(worker.best_beefy_block, None);
    assert!(worker.pending_votes.is_empty());
    assert!(worker.pending_justifications.is_empty());
    assert!(worker.voting_oracle.rounds().is_none());
    assert_eq!(worker.try_to_vote(), None);
    assert!(worker.validators().is_none());
}

#[test]
fn votes_without_a_session_fail() {
    let mut worker = BeefyWorker::new(header(7), 1);
    let mut actions = Vec::new();
    assert_eq!(worker.triage_incoming_vote(vote(5, 1), &mut actions), Err(Error::UninitSession));
    assert_eq!(worker.triage_incoming_justif(justif(5), &mut actions), Err(Error::UninitSession));
    assert_eq!(worker.try_pending_justif_and_votes(&mut actions), Err(Error::UninitSession));
    assert!(actions.is_empty());
    let v = vote(5, 1);
    assert_eq!(
        worker.handle_vote((v.commitment.payload, 5), (v.id, v.signature), false, &mut actions),
        Err(Error::UninitSession)
    );
    // the round was noted all the same
    assert_eq!(actions, vec![Action::NoteRound(5)]);
    assert_eq!(worker.vote_commitment(5, &root()), Err(Error::UninitSession));
    assert_eq!(worker.best_beefy_block, None);
}

#[test]
fn a_finalized_header_moves_the_best_block_forward_only() {
    let mut worker = BeefyWorker::new(header(7), 1);
    let mut actions = Vec::new();
    worker.handle_finality_notification(header(7), &mut actions);
    worker.handle_finality_notification(header(3), &mut actions);
    assert_eq!(worker.best_grandpa_block_header.number(), 7);
    worker.handle_finality_notification(header(9), &mut actions);
    assert_eq!(worker.best_grandpa_block_header, header(9));
    assert!(actions.is_empty());
    assert!(worker.voting_oracle.rounds().is_none());
}

#[test]
fn an_announced_validator_set_begins_a_session() {
    let mut worker = BeefyWorker::new(header(7), 1);
    let set = validators(3, 4);
    let mut actions = Vec::new();
    // an old header announces nothing
    worker.handle_finality_notification(header_with_session(6, &set), &mut actions);
    assert!(worker.voting_oracle.rounds().is_none());
    assert!(actions.is_empty());

    worker.handle_finality_notification(header_with_session(12, &set), &mut actions);
    assert_eq!(actions, vec![Action::RequestJustification(12)]);
    let rounds = worker.voting_oracle.rounds().unwrap();
    assert_eq!(rounds.session_start(), 12);
    assert_eq!(rounds.validator_set_id(), 4);
    assert_eq!(rounds.validators(), set.validators());
    assert_eq!(worker.validators(), Some(set.validators()));
    assert!(!rounds.mandatory_done());
    // the mandatory block is the block to vote on
    assert_eq!(worker.try_to_vote(), Some(12));
}

#[test]
fn sessions_queue_up_while_the_voter_lags() {
    let mut worker = BeefyWorker::new(header(0), 1);
    assert!(!worker.init_session_at(validators(1, 0), 1));
    assert!(worker.init_session_at(validators(2, 1), 11));
    assert!(worker.init_session_at(validators(3, 2), 21));
    assert_eq!(worker.voting_oracle.rounds().unwrap().session_start(), 1);
    worker.voting_oracle.rounds_mut().unwrap().set_mandatory_done();
    // the next session replaces the one that is done
    assert!(!worker.init_session_at(validators(4, 3), 31));
    assert_eq!(worker.voting_oracle.rounds().unwrap().session_start(), 11);
    assert_eq!(worker.voting_oracle.accepted_interval(40), Ok((11, 11)));
}

#[test]
fn the_worker_starts_at_genesis_with_block_one() {
    let mut worker = BeefyWorker::new(header(0), 1);
    let mut actions = Vec::new();
    let target = worker.start_at(validators(2, GENESIS_AUTHORITY_SET_ID), header(5), &mut actions);
    assert_eq!(target, Some(1));
    assert!(actions.is_empty());
    assert_eq!(worker.voting_oracle.rounds().unwrap().session_start(), 1);
    assert_eq!(worker.best_grandpa_block_header.number(), 5);
}

#[test]
fn the_worker_starts_elsewhere_without_a_session() {
    let mut worker = BeefyWorker::new(header(100), 1);
    let mut actions = Vec::new();
    let target = worker.start_at(validators(2, 7), header(105), &mut actions);
    assert_eq!(target, None);
    assert!(worker.voting_oracle.rounds().is_none());
    assert_eq!(worker.best_grandpa_block_header.number(), 105);
    // until a session is announced
    let set = validators(2, 8);
    let target = worker.start_at(validators(2, 7), header_with_session(110, &set), &mut actions);
    assert_eq!(target, Some(110));
    assert_eq!(actions, vec![Action::RequestJustification(110)]);
}

#[test]
fn finalizing_moves_the_best_proof_forward_only() {
    let mut worker = BeefyWorker::new(header(50), 1);
    let mut actions = Vec::new();
    worker.finalize(justif(1), &mut actions);
    assert_eq!(worker.best_beefy_block, Some(1));
    assert_eq!(actions, vec![Action::NotifyBestBlock(1), Action::NotifyJustification(justif(1))]);
    let mut actions = Vec::new();
    worker.finalize(justif(2), &mut actions);
    assert_eq!(worker.best_beefy_block, Some(2));
    assert_eq!(actions, vec![Action::NotifyBestBlock(2), Action::NotifyJustification(justif(2))]);
    let mut actions = Vec::new();
    worker.finalize(justif(2), &mut actions);
    worker.finalize(justif(0), &mut actions);
    assert_eq!(worker.best_beefy_block, Some(2));
    assert!(actions.is_empty());
}

#[test]
fn finalizing_prunes_sessions_that_are_done() {
    let mut worker = BeefyWorker::new(header(50), 1);
    worker.init_session_at(validators(1, 0), 1);
    worker.init_session_at(validators(1, 1), 11);
    worker.voting_oracle.rounds_mut().unwrap().set_mandatory_done();
    let mut actions = Vec::new();
    worker.finalize(justif(1), &mut actions);
    assert_eq!(worker.voting_oracle.rounds().unwrap().session_start(), 11);
}

#[test]
fn a_round_that_concludes_yields_a_proof() {
    let mut worker = worker_at(20, 10, validators(4, 0));
    let mut actions = Vec::new();
    for voter in [3u8, 1] {
        worker.triage_incoming_vote(vote(10, voter), &mut actions).unwrap();
    }
    assert_eq!(actions, vec![Action::NoteRound(10), Action::NoteRound(10)]);
    assert_eq!(worker.best_beefy_block, None);

    let mut actions = Vec::new();
    worker.triage_incoming_vote(vote(10, 4), &mut actions).unwrap();
    let expected = VersionedFinalityProof::V1(SignedCommitment {
        commitment: vote(10, 0).commitment,
        signatures: vec![Some(sig(1)), None, Some(sig(3)), Some(sig(4))],
    });
    assert_eq!(
        actions,
        vec![
            Action::NoteRound(10),
            Action::ConcludeRound(10),
            Action::AppendJustification(expected.clone()),
            Action::NotifyBestBlock(10),
            Action::NotifyJustification(expected),
        ]
    );
    assert_eq!(worker.best_beefy_block, Some(10));
    assert!(worker.voting_oracle.rounds().unwrap().mandatory_done());
    assert_eq!(worker.voting_oracle.accepted_interval(20), Ok((10, 20)));
    // the late vote for the same round is noted and nothing more
    let mut actions = Vec::new();
    worker.triage_incoming_vote(vote(10, 2), &mut actions).unwrap();
    assert_eq!(actions, vec![Action::NoteRound(10)]);
    assert_eq!(worker.best_beefy_block, Some(10));
}

#[test]
fn a_concluded_mandatory_moves_on_to_the_next_session() {
    let mut worker = worker_at(30, 10, validators(1, 0));
    worker.init_session_at(validators(1, 1), 20);
    let mut actions = Vec::new();
    worker.triage_incoming_vote(vote(10, 1), &mut actions).unwrap();
    assert_eq!(worker.best_beefy_block, Some(10));
    // the session at 10 is done and pruned
    assert_eq!(worker.voting_oracle.rounds().unwrap().session_start(), 20);
    assert_eq!(worker.voting_oracle.accepted_interval(30), Ok((20, 20)));
    assert_eq!(worker.try_to_vote(), Some(20));
}

#[test]
fn votes_are_triaged_by_their_round() {
    let mut worker = worker_at(20, 10, validators(2, 0));
    let mut actions = Vec::new();
    for n in [9u32, 10, 11, 12, 20, 21, 22] {
        worker.triage_incoming_vote(vote(n, 1), &mut actions).unwrap();
    }
    // only block 10 is handled; block 9 is dropped
    assert_eq!(actions, vec![Action::NoteRound(10)]);
    let numbers: Vec<u32> =
        (0..worker.pending_votes.len()).map(|i| worker.pending_votes.number_at(i)).collect();
    assert_eq!(numbers, vec![11, 12, 20, 21, 22]);

    worker.voting_oracle.rounds_mut().unwrap().set_mandatory_done();
    let mut actions = Vec::new();
    worker.try_pending_justif_and_votes(&mut actions).unwrap();
    assert_eq!(actions, vec![Action::NoteRound(11), Action::NoteRound(12), Action::NoteRound(20)]);
    let numbers: Vec<u32> =
        (0..worker.pending_votes.len()).map(|i| worker.pending_votes.number_at(i)).collect();
    assert_eq!(numbers, vec![21, 22]);
}

#[test]
fn proofs_are_triaged_by_their_round() {
    let mut worker = worker_at(20, 10, validators(2, 0));
    let mut actions = Vec::new();
    for n in [12u32, 9, 11, 25] {
        worker.triage_incoming_justif(justif(n), &mut actions).unwrap();
    }
    assert!(actions.is_empty());
    assert_eq!(worker.best_beefy_block, None);
    assert_eq!(worker.pending_justifications.len(), 3);
    worker.triage_incoming_justif(justif(10), &mut actions).unwrap();
    assert_eq!(actions, vec![Action::NotifyBestBlock(10), Action::NotifyJustification(justif(10))]);
    assert_eq!(worker.best_beefy_block, Some(10));
}

#[test]
fn pending_proofs_come_before_pending_votes_in_the_order_of_their_blocks() {
    let mut worker = worker_at(20, 10, validators(2, 0));
    let mut actions = Vec::new();
    for n in [15u32, 12, 30] {
        worker.triage_incoming_justif(justif(n), &mut actions).unwrap();
    }
    for n in [14u32, 11, 30] {
        worker.triage_incoming_vote(vote(n, 1), &mut actions).unwrap();
    }
    assert!(actions.is_empty());
    worker.voting_oracle.rounds_mut().unwrap().set_mandatory_done();
    worker.try_pending_justif_and_votes(&mut actions).unwrap();
    assert_eq!(
        actions,
        vec![
            Action::NotifyBestBlock(12),
            Action::NotifyJustification(justif(12)),
            Action::NotifyBestBlock(15),
            Action::NotifyJustification(justif(15)),
            Action::NoteRound(11),
            Action::NoteRound(14),
        ]
    );
    assert_eq!(worker.best_beefy_block, Some(15));
    assert_eq!(worker.pending_justifications.len(), 1);
    assert_eq!(worker.pending_votes.len(), 1);
}

#[test]
fn pending_items_below_the_interval_are_dropped() {
    let mut worker = worker_at(40, 10, validators(2, 0));
    let mut actions = Vec::new();
    for n in [11u32, 12, 25] {
        worker.triage_incoming_vote(vote(n, 1), &mut actions).unwrap();
        worker.triage_incoming_justif(justif(n), &mut actions).unwrap();
    }
    // the voter moves on to a session that starts at 20
    worker.voting_oracle.rounds_mut().unwrap().set_mandatory_done();
    worker.init_session_at(validators(2, 1), 20);
    assert_eq!(worker.voting_oracle.accepted_interval(40), Ok((20, 20)));
    worker.try_pending_justif_and_votes(&mut actions).unwrap();
    assert!(actions.is_empty());
    assert_eq!(worker.pending_votes.len(), 1);
    assert_eq!(worker.pending_votes.number_at(0), 25);
    assert_eq!(worker.pending_justifications.len(), 1);
    assert_eq!(worker.pending_justifications.number_at(0), 25);
}

#[test]
fn the_commitment_to_sign_names_the_root_and_the_session() {
    let worker = worker_at(20, 10, validators(3, 9));
    let commitment = worker.vote_commitment(10, &root()).unwrap().unwrap();
    assert_eq!(
        commitment,
        Commitment {
            payload: Payload::new(MMR_ROOT_ID, vec![0x77; 32]),
            block_number: 10,
            validator_set_id: 9,
        }
    );
    assert_eq!(commitment.payload.get_raw(&MMR_ROOT_ID), Some(&vec![0x77u8; 32]));
    assert_eq!(commitment.payload.get_raw(&[b'x', b'x']), None);
}

#[test]
fn a_node_does_not_vote_twice() {
    let mut worker = worker_at(20, 10, validators(3, 0));
    let mut actions = Vec::new();
    let commitment = worker.vote_commitment(10, &root()).unwrap().unwrap();
    let message = VoteMessage { commitment, id: id(2), signature: sig(2) };
    worker.cast_vote(message.clone(), &mut actions);
    assert_eq!(actions, vec![Action::NoteRound(10), Action::GossipVote(message)]);
    assert_eq!(worker.vote_commitment(10, &root()), Ok(None));
    // another block is another round
    assert!(worker.vote_commitment(11, &root()).unwrap().is_some());
}

#[test]
fn a_single_validator_concludes_its_own_rounds() {
    let mut worker = worker_at(20, 1, validators(1, 0));
    assert_eq!(worker.try_to_vote(), Some(1));
    let commitment = worker.vote_commitment(1, &root()).unwrap().unwrap();
    let message = VoteMessage { commitment: commitment.clone(), id: id(1), signature: sig(1) };
    let mut actions = Vec::new();
    worker.cast_vote(message.clone(), &mut actions);
    let expected = VersionedFinalityProof::V1(SignedCommitment {
        commitment,
        signatures: vec![Some(sig(1))],
    });
    assert_eq!(
        actions,
        vec![
            Action::NoteRound(1),
            Action::ConcludeRound(1),
            Action::AppendJustification(expected.clone()),
            Action::NotifyBestBlock(1),
            Action::NotifyJustification(expected),
            Action::GossipVote(message),
        ]
    );
    assert_eq!(worker.best_beefy_block, Some(1));
    // half of the 19 blocks to go, rounded up to a power of two
    assert_eq!(worker.try_to_vote(), Some(17));
}

#[test]
fn the_best_header_is_reused_for_its_own_block() {
    let worker = BeefyWorker::new(header(7), 1);
    assert_eq!(worker.target_header(7), Some(&header(7)));
    assert_eq!(worker.target_header(6), None);
}

#[test]
fn the_root_comes_from_the_digest_before_the_runtime() {
    let mut h = header(3);
    let other = MmrRootHash::new(vec![1; 32]).unwrap();
    assert_eq!(BeefyWorker::get_mmr_root_digest(&h, None), None);
    assert_eq!(BeefyWorker::get_mmr_root_digest(&h, Some(other.clone())), Some(other.clone()));
    h.digest.push(DigestItem::Consensus(
        BEEFY_ENGINE_ID,
        encode_consensus_log(&ConsensusLog::MmrRoot(root())).unwrap(),
    ));
    assert_eq!(BeefyWorker::get_mmr_root_digest(&h, Some(other)), Some(root()));
    assert_eq!(BeefyWorker::get_mmr_root_digest(&h, None), Some(root()));
}

#[test]
fn a_turn_of_the_loop_handles_the_event_and_what_is_pending() {
    let mut worker = worker_at(10, 10, validators(2, 0));
    let mut actions = Vec::new();
    // a vote for a round to come is kept
    assert_eq!(
        worker.on_event(WorkerEvent::Vote(vote(15, 1)), false, &mut actions),
        Flow::Continue(Some(10))
    );
    assert!(actions.is_empty());
    assert_eq!(worker.pending_votes.len(), 1);
    // the mandatory block gets its proof from elsewhere
    worker.voting_oracle.rounds_mut().unwrap().set_mandatory_done();
    assert_eq!(
        worker.on_event(WorkerEvent::Justification(justif(10)), false, &mut actions),
        Flow::Continue(None)
    );
    assert_eq!(actions, vec![Action::NotifyBestBlock(10), Action::NotifyJustification(justif(10))]);
    // finality moves on: the kept vote is handled in the same turn
    let mut actions = Vec::new();
    assert_eq!(
        worker.on_event(WorkerEvent::FinalityNotification(header(20)), false, &mut actions),
        Flow::Continue(Some(18))
    );
    assert_eq!(actions, vec![Action::NoteRound(15)]);
    assert!(worker.pending_votes.is_empty());
}

#[test]
fn a_major_sync_puts_off_pending_items_and_votes() {
    let mut worker = worker_at(20, 10, validators(2, 0));
    let mut actions = Vec::new();
    worker.triage_incoming_vote(vote(15, 1), &mut actions).unwrap();
    worker.voting_oracle.rounds_mut().unwrap().set_mandatory_done();
    assert_eq!(worker.on_event(WorkerEvent::PeersChanged, true, &mut actions), Flow::Continue(None));
    assert!(actions.is_empty());
    assert_eq!(worker.pending_votes.len(), 1);
    assert_eq!(worker.on_event(WorkerEvent::PeersChanged, false, &mut actions), Flow::Continue(Some(10)));
    assert_eq!(actions, vec![Action::NoteRound(15)]);
    assert!(worker.pending_votes.is_empty());
}

#[test]
fn the_end_of_a_stream_ends_the_worker() {
    let mut worker = worker_at(20, 10, validators(2, 0));
    let mut actions = Vec::new();
    worker.triage_incoming_vote(vote(15, 1), &mut actions).unwrap();
    worker.voting_oracle.rounds_mut().unwrap().set_mandatory_done();
    assert_eq!(worker.on_event(WorkerEvent::StreamTerminated, false, &mut actions), Flow::Stop);
    assert!(actions.is_empty());
    assert_eq!(worker.pending_votes.len(), 1);
}

#[test]
fn an_event_without_a_session_is_passed_over() {
    let mut worker = BeefyWorker::new(header(5), 1);
    let mut actions = Vec::new();
    assert_eq!(worker.on_event(WorkerEvent::Vote(vote(5, 1)), false, &mut actions), Flow::Continue(None));
    assert_eq!(
        worker.on_event(WorkerEvent::Justification(justif(5)), false, &mut actions),
        Flow::Continue(None)
    );
    assert!(actions.is_empty());
    assert_eq!(worker.best_beefy_block, None);
    let set = validators(1, 1);
    assert_eq!(
        worker.on_event(WorkerEvent::FinalityNotification(header_with_session(6, &set)), false, &mut actions),
        Flow::Continue(Some(6))
    );
    assert_eq!(actions, vec![Action::RequestJustification(6)]);
    let _ = Rounds::new(1, set);
}

fn signed(number: u32, set_id: u64, places: Vec<Option<Signature>>) -> VersionedFinalityProof {
    VersionedFinalityProof::V1(SignedCommitment {
        commitment: Commitment {
            payload: Payload::new(MMR_ROOT_ID, vec![]),
            block_number: number,
            validator_set_id: set_id,
        },
        signatures: places,
    })
}

#[test]
fn a_valid_proof_has_enough_valid_signatures() {
    let set = validators(4, 7);
    let full = signed(10, 7, vec![Some(sig(1)), None, Some(sig(3)), Some(sig(4))]);
    assert!(verify_with_validator_set(10, &set, &full, &vec![true, true, true, true]));
    assert!(verify_with_validator_set(10, &set, &full, &vec![true, false, true, true]));
    // one signature does not check out: two of four are not enough
    assert!(!verify_with_validator_set(10, &set, &full, &vec![true, true, false, true]));
    // an answer for a place without a signature counts for nothing
    let two = signed(10, 7, vec![Some(sig(1)), None, None, Some(sig(4))]);
    assert!(!verify_with_validator_set(10, &set, &two, &vec![true, true, true, true]));
    // a place without an answer does not count
    assert!(!verify_with_validator_set(10, &set, &full, &vec![true, true, true]));
    assert!(!verify_with_validator_set(10, &set, &full, &vec![]));
    // another block, another set, another number of places
    assert!(!verify_with_validator_set(11, &set, &full, &vec![true; 4]));
    assert!(!verify_with_validator_set(10, &validators(4, 8), &full, &vec![true; 4]));
    assert!(!verify_with_validator_set(10, &validators(5, 7), &full, &vec![true; 5]));
    let short = signed(10, 7, vec![Some(sig(1)), Some(sig(2)), Some(sig(3))]);
    assert!(!verify_with_validator_set(10, &set, &short, &vec![true; 4]));
}

#[test]
fn a_proof_from_a_peer_is_verified_before_it_is_triaged() {
    let mut worker = worker_at(20, 10, validators(2, 0));
    let mut actions = Vec::new();
    let good = signed(10, 0, vec![Some(sig(1)), Some(sig(2))]);

    // a signature that does not check out
    let flow = worker.on_event(
        WorkerEvent::OnDemandJustification(10, good.clone(), vec![true, false]),
        false,
        &mut actions,
    );
    assert_eq!(flow, Flow::Continue(Some(10)));
    // a proof for another block than was asked for
    worker.on_event(WorkerEvent::OnDemandJustification(11, good.clone(), vec![true, true]), false, &mut actions);
    // a proof of a validator set that has no session
    let other = signed(10, 5, vec![Some(sig(1)), Some(sig(2))]);
    worker.on_event(WorkerEvent::OnDemandJustification(10, other, vec![true, true]), false, &mut actions);
    assert!(actions.is_empty());
    assert_eq!(worker.best_beefy_block, None);
    assert!(worker.pending_justifications.is_empty());
    assert!(!worker.verify_on_demand(10, &good, &vec![false, true]));
    assert!(worker.verify_on_demand(10, &good, &vec![true, true]));

    // the valid proof is taken in
    let flow = worker.on_event(
        WorkerEvent::OnDemandJustification(10, good.clone(), vec![true, true]),
        false,
        &mut actions,
    );
    assert_eq!(actions, vec![Action::NotifyBestBlock(10), Action::NotifyJustification(good)]);
    assert_eq!(worker.best_beefy_block, Some(10));
    // half of the 11 blocks to go, rounded up to a power of two
    assert_eq!(flow, Flow::Continue(Some(18)));
}

#[test]
fn a_proof_is_verified_against_the_session_it_names() {
    let mut worker = worker_at(30, 10, validators(1, 0));
    worker.init_session_at(validators(3, 1), 20);
    assert_eq!(worker.voting_oracle.session_of(0).unwrap().session_start(), 10);
    assert_eq!(worker.voting_oracle.session_of(1).unwrap().session_start(), 20);
    assert!(worker.voting_oracle.session_of(2).is_none());
    let next = signed(20, 1, vec![Some(sig(1)), Some(sig(2)), Some(sig(3))]);
    assert!(worker.verify_on_demand(20, &next, &vec![true, true, true]));
    assert!(!worker.verify_on_demand(20, &next, &vec![true, false, false]));
    // valid, but for a round to come: it is kept
    let mut actions = Vec::new();
    worker.on_event(
        WorkerEvent::OnDemandJustification(20, next, vec![true, true, true]),
        false,
        &mut actions,
    );
    assert!(actions.is_empty());
    assert_eq!(worker.pending_justifications.len(), 1);
    assert_eq!(worker.pending_justifications.number_at(0), 20);
}

#[test]
fn what_a_round_concludes_with_is_a_valid_proof() {
    let set = validators(4, 0);
    let mut worker = worker_at(20, 10, set.clone());
    let mut actions = Vec::new();
    for voter in [2u8, 4, 3] {
        worker.triage_incoming_vote(vote(10, voter), &mut actions).unwrap();
    }
    let concluded = actions
        .into_iter()
        .find_map(|a| match a {
            Action::AppendJustification(p) => Some(p),
            _ => None,
        })
        .unwrap();
    assert!(verify_with_validator_set(10, &set, &concluded, &vec![true; 4]));
    assert!(verify_with_validator_set(10, &set, &concluded, &vec![false, true, true, true]));
    assert!(!verify_with_validator_set(10, &set, &concluded, &vec![true, false, true, true]));
}
