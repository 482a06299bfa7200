//! The voter's state and its transitions.
//!
//! The worker owns the best finalized header, the best block with a finality
//! proof, the oracle and the two buffers of pending items. Each transition
//! takes an event, changes the state, and appends to a list of actions what the
//! caller has to do for it outside: tell the gossip validator, store or
//! announce a proof, ask peers for one, gossip a vote.

use crate::digest::{
    find_authorities_change, find_mmr_root_digest, spec_find_authorities_change,
    spec_find_mmr_root, Header, HeaderView,
};
use crate::justification::{spec_verify, verify_with_validator_set};
use crate::oracle::{
    lemma_prune_shape, spec_session_of, Error, OracleView, RoundAction, VoterOracle,
};
use crate::pending::{
    entries_view, lemma_enqueue_sorted, lemma_filter_sorted, sorted, spec_enqueue, spec_later,
    spec_ready, PendingBuffer,
};
use crate::round::{lemma_add_vote_wf, lemma_conclude_wf, Rounds, RoundsView};
use crate::types::{
    AuthorityId, BlockNumber, Commitment, CommitmentView, FinalityProofView, MmrRootHash, Payload,
    PayloadEntryView, Signature, SignedCommitment, SignedCommitmentView, ValidatorSet,
    ValidatorSetId, ValidatorSetView, VersionedFinalityProof, VoteMessage, VoteView,
    GENESIS_AUTHORITY_SET_ID, MMR_ROOT_ID,
};
use vstd::prelude::*;

verus! {

/// What the caller of a transition has to do outside the worker.
#[derive(Debug, PartialEq, Eq)]
pub enum Action {
    /// Tell the gossip validator that votes for this round are of interest.
    NoteRound(BlockNumber),
    /// Tell the gossip validator that this round has concluded.
    ConcludeRound(BlockNumber),
    /// Store the proof, which this node produced, with its block. A failure is
    /// of no consequence.
    AppendJustification(VersionedFinalityProof),
    /// Announce the hash of this block as the best block with a proof. Where
    /// the hash is not known, nothing is announced.
    NotifyBestBlock(BlockNumber),
    /// Announce the proof.
    NotifyJustification(VersionedFinalityProof),
    /// Ask peers for the proof of this block.
    RequestJustification(BlockNumber),
    /// Gossip this node's vote.
    GossipVote(VoteMessage),
}

/// Value of an action.
pub enum ActionView {
    NoteRound(BlockNumber),
    ConcludeRound(BlockNumber),
    AppendJustification(FinalityProofView),
    NotifyBestBlock(BlockNumber),
    NotifyJustification(FinalityProofView),
    RequestJustification(BlockNumber),
    GossipVote(VoteView),
}

impl View for Action {
    type V = ActionView;

    open spec fn view(&self) -> ActionView {
        match self {
            Action::NoteRound(n) => ActionView::NoteRound(*n),
            Action::ConcludeRound(n) => ActionView::ConcludeRound(*n),
            Action::AppendJustification(p) => ActionView::AppendJustification(p@),
            Action::NotifyBestBlock(n) => ActionView::NotifyBestBlock(*n),
            Action::NotifyJustification(p) => ActionView::NotifyJustification(p@),
            Action::RequestJustification(n) => ActionView::RequestJustification(*n),
            Action::GossipVote(v) => ActionView::GossipVote(v@),
        }
    }
}

/// Value of a list of actions.
pub open spec fn actions_view(actions: Seq<Action>) -> Seq<ActionView> {
    Seq::new(actions.len(), |i: int| actions[i]@)
}

/// Appends an action to the list.
fn emit(actions: &mut Vec<Action>, action: Action)
    ensures
        actions_view(final(actions)@) == actions_view(old(actions)@).push(action@),
{
    actions.push(action);
    proof {
        assert(actions_view(actions@) =~= actions_view(old(actions)@).push(action@));
    }
}

/// Whether `a` is no better than `b`, as best blocks go: no block is worse
/// than any block.
pub open spec fn best_le(a: Option<BlockNumber>, b: Option<BlockNumber>) -> bool {
    match a {
        None => true,
        Some(x) => match b {
            Some(y) => x <= y,
            None => false,
        },
    }
}

/// Value of the worker.
pub struct WorkerView {
    /// The best block that the base finality has finalized.
    pub best_grandpa: HeaderView,
    /// The best block that a finality proof has been seen for.
    pub best_beefy: Option<BlockNumber>,
    /// Votes for rounds to come, in the order of their blocks.
    pub pending_votes: Seq<(BlockNumber, VoteView)>,
    /// Proofs for rounds to come, in the order of their blocks.
    pub pending_justifications: Seq<(BlockNumber, FinalityProofView)>,
    pub oracle: OracleView,
}

/// A state with what led to it: the actions to take, and whether the
/// transition succeeded. One that did not, failed for want of a session.
pub struct Step {
    pub worker: WorkerView,
    pub actions: Seq<ActionView>,
    pub ok: bool,
}

/// What the worker is woken for.
#[derive(Debug, PartialEq, Eq)]
pub enum WorkerEvent {
    /// The base finality finalized a block.
    FinalityNotification(Header),
    /// A finality proof came in with an imported block. It is taken to be
    /// valid: the import checked it.
    Justification(VersionedFinalityProof),
    /// A peer sent a finality proof that was asked for, for this block. With
    /// it comes, for each place of the proof, whether the signature there is
    /// that of the validator at that place over the proof's commitment.
    /// Nothing else is known of it.
    OnDemandJustification(BlockNumber, VersionedFinalityProof, Vec<bool>),
    /// A vote came in by gossip, which is taken to be valid.
    Vote(VoteMessage),
    /// A peer came or went: nothing changes for the voter.
    PeersChanged,
    /// One of the streams ended, or the gossip engine did.
    StreamTerminated,
}

/// Value of an event.
pub enum EventView {
    FinalityNotification(HeaderView),
    Justification(FinalityProofView),
    OnDemandJustification(BlockNumber, FinalityProofView, Seq<bool>),
    Vote(VoteView),
    PeersChanged,
    StreamTerminated,
}

impl View for WorkerEvent {
    type V = EventView;

    open spec fn view(&self) -> EventView {
        match self {
            WorkerEvent::FinalityNotification(h) => EventView::FinalityNotification(h@),
            WorkerEvent::Justification(p) => EventView::Justification(p@),
            WorkerEvent::OnDemandJustification(target, p, verified) => EventView::OnDemandJustification(
                *target,
                p@,
                verified@,
            ),
            WorkerEvent::Vote(v) => EventView::Vote(v@),
            WorkerEvent::PeersChanged => EventView::PeersChanged,
            WorkerEvent::StreamTerminated => EventView::StreamTerminated,
        }
    }
}

/// How the worker goes on after an event.
#[derive(Debug, PartialEq, Eq, Clone, Copy)]
pub enum Flow {
    /// The worker ends.
    Stop,
    /// The worker goes on, and first votes on this block, if there is one.
    Continue(Option<BlockNumber>),
}

impl WorkerView {
    /// The sessions are well formed and the buffers in order.
    pub open spec fn inv(self) -> bool {
        &&& self.oracle.wf()
        &&& sorted(self.pending_votes)
        &&& sorted(self.pending_justifications)
    }

    /// The state between two transitions: `inv`, and the queue of sessions in
    /// one of its three states.
    pub open spec fn wf(self) -> bool {
        self.inv() && self.oracle.shape_ok()
    }

    /// The state after a finality proof was taken in: the queue is pruned, and
    /// a proof for a block beyond the best one makes that block the best and
    /// is announced, after the block itself.
    pub open spec fn finalize(self, proof: FinalityProofView) -> Step {
        let pruned = WorkerView { oracle: self.oracle.prune(), ..self };
        let number = proof.block_number();
        if best_le(Some(number), self.best_beefy) {
            Step { worker: pruned, actions: Seq::empty(), ok: true }
        } else {
            Step {
                worker: WorkerView { best_beefy: Some(number), ..pruned },
                actions: seq![
                    ActionView::NotifyBestBlock(number),
                    ActionView::NotifyJustification(proof),
                ],
                ok: true,
            }
        }
    }

    /// The state with `rounds` in place of the head session.
    pub open spec fn with_head(self, rounds: RoundsView) -> WorkerView {
        WorkerView {
            oracle: OracleView { sessions: self.oracle.sessions.update(0, rounds), ..self.oracle },
            ..self
        }
    }

    /// The state after a vote was handled. The round is noted. Without a
    /// session the transition fails there. Else the head session takes the
    /// vote; if it adds it and the round concludes with it, the round is
    /// concluded, the proof made of its signatures is stored, and taken in as
    /// any proof is.
    pub open spec fn handle_vote(
        self,
        payload: Seq<PayloadEntryView>,
        number: BlockNumber,
        id: Seq<u8>,
        signature: Seq<u8>,
        self_vote: bool,
    ) -> Step {
        let noted = seq![ActionView::NoteRound(number)];
        if self.oracle.sessions.len() == 0 {
            Step { worker: self, actions: noted, ok: false }
        } else {
            let head = self.oracle.sessions[0];
            let voted = head.add_vote(payload, number, id, signature, self_vote);
            if head.accepts(payload, number, id) && voted.concludes(payload, number) {
                let proof = FinalityProofView::V1(
                    SignedCommitmentView {
                        commitment: CommitmentView {
                            payload,
                            block_number: number,
                            validator_set_id: head.validator_set_id,
                        },
                        signatures: voted.signatures(payload, number),
                    },
                );
                let last = self.with_head(voted.conclude(number)).finalize(proof);
                Step {
                    worker: last.worker,
                    actions: noted + seq![
                        ActionView::ConcludeRound(number),
                        ActionView::AppendJustification(proof),
                    ] + last.actions,
                    ok: true,
                }
            } else {
                Step { worker: self.with_head(voted), actions: noted, ok: true }
            }
        }
    }

    /// The state after an incoming vote was triaged: handled now if its round
    /// is open, kept for later if its round is to come, dropped if its round
    /// is over. Fails, and changes nothing, without a session.
    pub open spec fn triage_incoming_vote(self, vote: VoteView) -> Step {
        let number = vote.commitment.block_number;
        match self.oracle.triage_round(number, self.best_grandpa.number) {
            None => Step { worker: self, actions: Seq::empty(), ok: false },
            Some(RoundAction::Process) => self.handle_vote(
                vote.commitment.payload,
                number,
                vote.id,
                vote.signature,
                false,
            ),
            Some(RoundAction::Enqueue) => Step {
                worker: WorkerView {
                    pending_votes: spec_enqueue(self.pending_votes, number, vote),
                    ..self
                },
                actions: Seq::empty(),
                ok: true,
            },
            Some(RoundAction::Drop) => Step { worker: self, actions: Seq::empty(), ok: true },
        }
    }

    /// The state after an incoming finality proof was triaged: taken in now if
    /// its round is open, kept for later if its round is to come, dropped if
    /// its round is over. Fails, and changes nothing, without a session.
    pub open spec fn triage_incoming_justif(self, proof: FinalityProofView) -> Step {
        let number = proof.block_number();
        match self.oracle.triage_round(number, self.best_grandpa.number) {
            None => Step { worker: self, actions: Seq::empty(), ok: false },
            Some(RoundAction::Process) => self.finalize(proof),
            Some(RoundAction::Enqueue) => Step {
                worker: WorkerView {
                    pending_justifications: spec_enqueue(
                        self.pending_justifications,
                        number,
                        proof,
                    ),
                    ..self
                },
                actions: Seq::empty(),
                ok: true,
            },
            Some(RoundAction::Drop) => Step { worker: self, actions: Seq::empty(), ok: true },
        }
    }

    /// The state after the proofs were taken in, one after the other.
    pub open spec fn finalize_all(self, proofs: Seq<(BlockNumber, FinalityProofView)>) -> Step
        decreases proofs.len(),
    {
        if proofs.len() == 0 {
            Step { worker: self, actions: Seq::empty(), ok: true }
        } else {
            let before = self.finalize_all(proofs.drop_last());
            let last = before.worker.finalize(proofs.last().1);
            Step { worker: last.worker, actions: before.actions + last.actions, ok: true }
        }
    }

    /// The state after the votes, none of them this node's own, were handled,
    /// one after the other. A vote that fails is passed over.
    pub open spec fn handle_votes(self, votes: Seq<(BlockNumber, VoteView)>) -> Step
        decreases votes.len(),
    {
        if votes.len() == 0 {
            Step { worker: self, actions: Seq::empty(), ok: true }
        } else {
            let before = self.handle_votes(votes.drop_last());
            let vote = votes.last().1;
            let last = before.worker.handle_vote(
                vote.commitment.payload,
                vote.commitment.block_number,
                vote.id,
                vote.signature,
                false,
            );
            Step { worker: last.worker, actions: before.actions + last.actions, ok: true }
        }
    }

    /// The state after the pending items were looked through. First the
    /// proofs: those for rounds in the accepted interval are taken in, in the
    /// order of their blocks, those below it dropped, those above it kept.
    /// Then the votes in the same way, by the accepted interval as it is after
    /// the proofs. Fails where there is no session when an interval is asked
    /// for; what was done until then stays done.
    pub open spec fn try_pending_justif_and_votes(self) -> Step {
        let best = self.best_grandpa.number;
        match self.oracle.accepted_interval(best) {
            None => Step { worker: self, actions: Seq::empty(), ok: false },
            Some((lo, hi)) => {
                let proofs = (WorkerView {
                    pending_justifications: spec_later(self.pending_justifications, hi),
                    ..self
                }).finalize_all(spec_ready(self.pending_justifications, lo, hi));
                match proofs.worker.oracle.accepted_interval(best) {
                    None => Step { worker: proofs.worker, actions: proofs.actions, ok: false },
                    Some((lo2, hi2)) => {
                        let votes = (WorkerView {
                            pending_votes: spec_later(proofs.worker.pending_votes, hi2),
                            ..proofs.worker
                        }).handle_votes(spec_ready(proofs.worker.pending_votes, lo2, hi2));
                        Step {
                            worker: votes.worker,
                            actions: proofs.actions + votes.actions,
                            ok: true,
                        }
                    },
                }
            },
        }
    }

    /// The state after a session began at `start` with `validators`.
    pub open spec fn init_session_at(self, validators: ValidatorSetView, start: BlockNumber) -> WorkerView {
        WorkerView {
            oracle: self.oracle.add_session(
                RoundsView {
                    rounds: Seq::empty(),
                    session_start: start,
                    validators: validators.validators,
                    validator_set_id: validators.id,
                    mandatory_done: false,
                    best_done: None,
                },
            ),
            ..self
        }
    }

    /// Whether the head session still waits for its first block.
    pub open spec fn lagging(self) -> bool {
        self.oracle.sessions.len() > 0 && !self.oracle.sessions[0].mandatory_done
    }

    /// The state after the base finality finalized `header`. A header that is
    /// not beyond the best one changes nothing. Else it becomes the best one;
    /// if its digest announces a validator set, a session begins at it and
    /// peers are asked for the proof of its block.
    pub open spec fn handle_finality_notification(self, header: HeaderView) -> Step {
        if header.number > self.best_grandpa.number {
            let advanced = WorkerView { best_grandpa: header, ..self };
            match spec_find_authorities_change(header.digest) {
                Some(validators) => Step {
                    worker: advanced.init_session_at(validators, header.number),
                    actions: seq![ActionView::RequestJustification(header.number)],
                    ok: true,
                },
                None => Step { worker: advanced, actions: Seq::empty(), ok: true },
            }
        } else {
            Step { worker: self, actions: Seq::empty(), ok: true }
        }
    }

    /// The block to vote on now, if there is one.
    pub open spec fn voting_target(self) -> Option<BlockNumber> {
        self.oracle.voting_target(self.best_beefy, self.best_grandpa.number)
    }

    /// The state when the runtime first reports a validator set, `active`, at
    /// the finalized `header`: where `active` is the set a chain starts with,
    /// a session begins at block 1; then the header is handled as any
    /// finalized header.
    pub open spec fn start_at(self, active: ValidatorSetView, header: HeaderView) -> Step {
        let begun = if active.id == GENESIS_AUTHORITY_SET_ID {
            self.init_session_at(active, 1)
        } else {
            self
        };
        begun.handle_finality_notification(header)
    }

    /// The state after this node's vote for `commitment` was cast: it is
    /// handled as any vote, but as this node's own, and gossiped after that,
    /// whether or not the handling failed.
    pub open spec fn cast_vote(self, vote: VoteView) -> Step {
        let handled = self.handle_vote(
            vote.commitment.payload,
            vote.commitment.block_number,
            vote.id,
            vote.signature,
            true,
        );
        Step {
            worker: handled.worker,
            actions: handled.actions.push(ActionView::GossipVote(vote)),
            ok: true,
        }
    }

    /// Whether a finality proof that a peer sent for block `target` is valid:
    /// the queue holds a session of the validator set that the proof names,
    /// and the proof is valid for that set.
    pub open spec fn on_demand_valid(
        self,
        target: BlockNumber,
        justification: FinalityProofView,
        verified: Seq<bool>,
    ) -> bool {
        match spec_session_of(self.oracle.sessions, justification.validator_set_id(), 0) {
            Some(i) => spec_verify(
                target,
                ValidatorSetView {
                    validators: self.oracle.sessions[i].validators,
                    id: self.oracle.sessions[i].validator_set_id,
                },
                justification,
                verified,
            ),
            None => false,
        }
    }

    /// The state after the event itself was handled, before what follows
    /// every event. A proof or a vote that fails for want of a session is
    /// passed over, and so is a proof from a peer that is not valid.
    pub open spec fn handle_event(self, event: EventView) -> Step {
        match event {
            EventView::FinalityNotification(header) => self.handle_finality_notification(header),
            EventView::Justification(proof) => self.triage_incoming_justif(proof),
            EventView::OnDemandJustification(target, proof, verified) => if self.on_demand_valid(
                target,
                proof,
                verified,
            ) {
                self.triage_incoming_justif(proof)
            } else {
                Step { worker: self, actions: Seq::empty(), ok: true }
            },
            EventView::Vote(vote) => self.triage_incoming_vote(vote),
            EventView::PeersChanged => Step { worker: self, actions: Seq::empty(), ok: true },
            EventView::StreamTerminated => Step { worker: self, actions: Seq::empty(), ok: true },
        }
    }

    /// The state after one turn of the event loop: the event is handled, and,
    /// unless the node is in a major sync, the pending items are looked
    /// through. The end of a stream changes nothing.
    pub open spec fn on_event(self, event: EventView, major_syncing: bool) -> Step {
        let handled = self.handle_event(event);
        if event is StreamTerminated || major_syncing {
            handled
        } else {
            let pending = handled.worker.try_pending_justif_and_votes();
            Step {
                worker: pending.worker,
                actions: handled.actions + pending.actions,
                ok: handled.ok && pending.ok,
            }
        }
    }

    /// How the worker goes on after a turn that led to this state: it ends
    /// with the end of a stream; in a major sync it does not vote; else it
    /// votes on its target.
    pub open spec fn flow(self, event: EventView, major_syncing: bool) -> Flow {
        if event is StreamTerminated {
            Flow::Stop
        } else if major_syncing {
            Flow::Continue(None)
        } else {
            Flow::Continue(self.voting_target())
        }
    }

    /// The commitment this node would sign for `target` with `mmr_root`:
    /// `Err` without a session, `Ok(None)` if this node voted in that round
    /// already.
    pub open spec fn vote_commitment(self, target: BlockNumber, mmr_root: Seq<u8>) -> Result<
        Option<CommitmentView>,
        (),
    > {
        let payload = seq![PayloadEntryView { id: MMR_ROOT_ID@, data: mmr_root }];
        if self.oracle.sessions.len() == 0 {
            Err(())
        } else if self.oracle.sessions[0].self_voted(payload, target) {
            Ok(None)
        } else {
            Ok(
                Some(
                    CommitmentView {
                        payload,
                        block_number: target,
                        validator_set_id: self.oracle.sessions[0].validator_set_id,
                    },
                ),
            )
        }
    }
}

/// A BEEFY worker plays the BEEFY protocol.
pub struct BeefyWorker {
    /// Best block we received a GRANDPA finality for.
    pub best_grandpa_block_header: Header,
    /// Best block a BEEFY voting round has been concluded for.
    pub best_beefy_block: Option<BlockNumber>,
    /// Buffer holding votes for future processing.
    pub pending_votes: PendingBuffer<VoteMessage>,
    /// Buffer holding justifications for future processing.
    pub pending_justifications: PendingBuffer<VersionedFinalityProof>,
    /// Chooses which incoming votes to accept and which votes to generate.
    pub voting_oracle: VoterOracle,
}

impl View for BeefyWorker {
    type V = WorkerView;

    open spec fn view(&self) -> WorkerView {
        WorkerView {
            best_grandpa: self.best_grandpa_block_header@,
            best_beefy: self.best_beefy_block,
            pending_votes: self.pending_votes@,
            pending_justifications: self.pending_justifications@,
            oracle: self.voting_oracle@,
        }
    }
}

impl BeefyWorker {
    /// A worker that starts at the last finalized header, with no session, no
    /// best block with a proof and nothing pending.
    pub fn new(last_finalized_header: Header, min_block_delta: u32) -> (r: Self)
        ensures
            r@.best_grandpa == last_finalized_header@,
            r@.best_beefy.is_none(),
            r@.pending_votes.len() == 0,
            r@.pending_justifications.len() == 0,
            r@.oracle.sessions.len() == 0,
            r@.oracle.min_block_delta == if min_block_delta == 0 {
                1u32
            } else {
                min_block_delta
            },
            r@.wf(),
    {
        BeefyWorker {
            best_grandpa_block_header: last_finalized_header,
            best_beefy_block: None,
            pending_votes: PendingBuffer::new(),
            pending_justifications: PendingBuffer::new(),
            voting_oracle: VoterOracle::new(min_block_delta),
        }
    }

    /// Gets the MMR root of `header` from its digest, or else takes what the
    /// runtime gave for it.
    pub fn get_mmr_root_digest(header: &Header, from_runtime: Option<MmrRootHash>) -> (r: Option<
        MmrRootHash,
    >)
        ensures
            match spec_find_mmr_root(header@.digest) {
                Some(root) => r.is_some() && r.unwrap()@ == root,
                None => r == from_runtime,
            },
    {
        match find_mmr_root_digest(header) {
            Some(root) => Some(root),
            None => from_runtime,
        }
    }

    /// Handles a session change by starting the rounds of the new session.
    /// Returns whether the head session still waits for its first block, that
    /// is, whether the voter lags.
    pub fn init_session_at(&mut self, validator_set: ValidatorSet, new_session_start: BlockNumber) -> (lagging:
        bool)
        requires
            old(self)@.inv(),
        ensures
            final(self)@ == old(self)@.init_session_at(validator_set@, new_session_start),
            lagging == old(self)@.lagging(),
            final(self)@.wf(),
    {
        let lagging: bool = match self.voting_oracle.rounds() {
            Some(active_session) => !active_session.mandatory_done(),
            None => false,
        };
        self.voting_oracle.add_session(Rounds::new(new_session_start, validator_set));
        lagging
    }

    /// Handles a header that the base finality finalized.
    pub fn handle_finality_notification(&mut self, header: Header, actions: &mut Vec<Action>)
        requires
            old(self)@.wf(),
        ensures
            final(self)@ == old(self)@.handle_finality_notification(header@).worker,
            actions_view(final(actions)@) == actions_view(old(actions)@) + old(
                self,
            )@.handle_finality_notification(header@).actions,
            final(self)@.wf(),
            best_le(old(self)@.best_beefy, final(self)@.best_beefy),
            old(self)@.best_grandpa.number <= final(self)@.best_grandpa.number,
    {
        if header.number > self.best_grandpa_block_header.number {
            let number: BlockNumber = header.number;
            let change = find_authorities_change(&header);
            self.best_grandpa_block_header = header;
            match change {
                Some(new_validator_set) => {
                    self.init_session_at(new_validator_set, number);
                    emit(actions, Action::RequestJustification(number));
                    proof {
                        assert(actions_view(actions@) =~= actions_view(old(actions)@)
                            + seq![ActionView::RequestJustification(number)]);
                    }
                },
                None => {
                    proof {
                        assert(actions_view(actions@) =~= actions_view(old(actions)@)
                            + Seq::<ActionView>::empty());
                    }
                },
            }
        } else {
            proof {
                assert(actions_view(actions@) =~= actions_view(old(actions)@)
                    + Seq::<ActionView>::empty());
            }
        }
    }

    /// Provides finality for a block by `finality_proof`, which is taken to be
    /// valid: prunes the queue of sessions, and, if the block is beyond the
    /// best one with a proof, makes it the best and has it and the proof
    /// announced.
    pub fn finalize(&mut self, finality_proof: VersionedFinalityProof, actions: &mut Vec<Action>)
        requires
            old(self)@.inv(),
        ensures
            final(self)@ == old(self)@.finalize(finality_proof@).worker,
            actions_view(final(actions)@) == actions_view(old(actions)@) + old(self)@.finalize(
                finality_proof@,
            ).actions,
            final(self)@.wf(),
            best_le(old(self)@.best_beefy, final(self)@.best_beefy),
            old(self)@.best_grandpa == final(self)@.best_grandpa,
    {
        self.voting_oracle.try_prune();
        let block_num: BlockNumber = finality_proof.block_number();
        let newer: bool = match self.best_beefy_block {
            Some(best) => block_num > best,
            None => true,
        };
        if newer {
            self.best_beefy_block = Some(block_num);
            emit(actions, Action::NotifyBestBlock(block_num));
            emit(actions, Action::NotifyJustification(finality_proof));
            proof {
                assert(actions_view(actions@) =~= actions_view(old(actions)@) + seq![
                    ActionView::NotifyBestBlock(block_num),
                    ActionView::NotifyJustification(finality_proof@),
                ]);
            }
        } else {
            proof {
                assert(actions_view(actions@) =~= actions_view(old(actions)@)
                    + Seq::<ActionView>::empty());
            }
        }
    }

    /// Handles a vote for `round`, which is taken to be valid. Fails with
    /// `UninitSession` without a session.
    pub fn handle_vote(
        &mut self,
        round: (Payload, BlockNumber),
        vote: (AuthorityId, Signature),
        self_vote: bool,
        actions: &mut Vec<Action>,
    ) -> (r: Result<(), Error>)
        requires
            old(self)@.wf(),
        ensures
            final(self)@ == old(self)@.handle_vote(
                round.0@,
                round.1,
                vote.0@,
                vote.1@,
                self_vote,
            ).worker,
            actions_view(final(actions)@) == actions_view(old(actions)@) + old(self)@.handle_vote(
                round.0@,
                round.1,
                vote.0@,
                vote.1@,
                self_vote,
            ).actions,
            r.is_ok() == old(self)@.handle_vote(round.0@, round.1, vote.0@, vote.1@, self_vote).ok,
            r.is_err() ==> r == Err::<(), Error>(Error::UninitSession),
            final(self)@.wf(),
            best_le(old(self)@.best_beefy, final(self)@.best_beefy),
            old(self)@.best_grandpa == final(self)@.best_grandpa,
    {
        let ghost before = self@;
        let ghost step = before.handle_vote(round.0@, round.1, vote.0@, vote.1@, self_vote);
        emit(actions, Action::NoteRound(round.1));
        let ghost noted = actions_view(actions@);
        proof {
            assert(noted =~= actions_view(old(actions)@) + seq![ActionView::NoteRound(round.1)]);
        }
        let concluded: Option<(Vec<Option<Signature>>, ValidatorSetId)> =
            match self.voting_oracle.rounds_mut() {
            None => {
                return Err(Error::UninitSession);
            },
            Some(rounds) => {
                let id: ValidatorSetId = rounds.validator_set_id();
                if rounds.add_vote(&round, vote, self_vote) {
                    match rounds.try_conclude(&round) {
                        Some(signatures) => Some((signatures, id)),
                        None => None,
                    }
                } else {
                    None
                }
            },
        };
        match concluded {
            Some((signatures, validator_set_id)) => {
                emit(actions, Action::ConcludeRound(round.1));
                let commitment = Commitment {
                    payload: round.0,
                    block_number: round.1,
                    validator_set_id,
                };
                let finality_proof = VersionedFinalityProof::V1(
                    SignedCommitment { commitment, signatures },
                );
                emit(actions, Action::AppendJustification(finality_proof.clone()));
                let ghost stored = actions_view(actions@);
                proof {
                    let head = before.oracle.sessions[0];
                    let voted = head.add_vote(round.0@, round.1, vote.0@, vote.1@, self_vote);
                    lemma_conclude_wf(voted, round.1);
                    assert(self@ == before.with_head(voted.conclude(round.1)));
                    assert(stored =~= actions_view(old(actions)@) + (seq![
                        ActionView::NoteRound(round.1),
                    ] + seq![
                        ActionView::ConcludeRound(round.1),
                        ActionView::AppendJustification(finality_proof@),
                    ]));
                }
                self.finalize(finality_proof, actions);
                proof {
                    assert(actions_view(actions@) =~= actions_view(old(actions)@) + step.actions);
                }
            },
            None => {
                proof {
                    let head = before.oracle.sessions[0];
                    let voted = head.add_vote(round.0@, round.1, vote.0@, vote.1@, self_vote);
                    assert(self@ == before.with_head(voted));
                    lemma_same_head_keeps_shape(before.oracle, voted);
                }
            },
        }
        Ok(())
    }

    /// Handles an incoming vote, which is taken to be valid, by what the
    /// oracle says of its round: now, later, or never. Fails with
    /// `UninitSession` without a session.
    pub fn triage_incoming_vote(&mut self, vote: VoteMessage, actions: &mut Vec<Action>) -> (r:
        Result<(), Error>)
        requires
            old(self)@.wf(),
        ensures
            final(self)@ == old(self)@.triage_incoming_vote(vote@).worker,
            actions_view(final(actions)@) == actions_view(old(actions)@) + old(
                self,
            )@.triage_incoming_vote(vote@).actions,
            r.is_ok() == old(self)@.triage_incoming_vote(vote@).ok,
            r.is_err() ==> r == Err::<(), Error>(Error::UninitSession),
            final(self)@.wf(),
            best_le(old(self)@.best_beefy, final(self)@.best_beefy),
            old(self)@.best_grandpa == final(self)@.best_grandpa,
    {
        let block_num: BlockNumber = vote.commitment.block_number;
        let best_grandpa: BlockNumber = self.best_grandpa_block_header.number;
        proof {
            assert(actions_view(actions@) =~= actions_view(old(actions)@)
                + Seq::<ActionView>::empty());
        }
        match self.voting_oracle.triage_round(block_num, best_grandpa) {
            Err(e) => Err(e),
            Ok(RoundAction::Process) => self.handle_vote(
                (vote.commitment.payload, block_num),
                (vote.id, vote.signature),
                false,
                actions,
            ),
            Ok(RoundAction::Enqueue) => {
                self.pending_votes.enqueue(block_num, vote);
                Ok(())
            },
            Ok(RoundAction::Drop) => Ok(()),
        }
    }

    /// Handles an incoming finality proof, which is taken to be valid, by what
    /// the oracle says of its round: now, later, or never. Fails with
    /// `UninitSession` without a session.
    pub fn triage_incoming_justif(
        &mut self,
        justification: VersionedFinalityProof,
        actions: &mut Vec<Action>,
    ) -> (r: Result<(), Error>)
        requires
            old(self)@.wf(),
        ensures
            final(self)@ == old(self)@.triage_incoming_justif(justification@).worker,
            actions_view(final(actions)@) == actions_view(old(actions)@) + old(
                self,
            )@.triage_incoming_justif(justification@).actions,
            r.is_ok() == old(self)@.triage_incoming_justif(justification@).ok,
            r.is_err() ==> r == Err::<(), Error>(Error::UninitSession),
            final(self)@.wf(),
            best_le(old(self)@.best_beefy, final(self)@.best_beefy),
            old(self)@.best_grandpa == final(self)@.best_grandpa,
    {
        let block_num: BlockNumber = justification.block_number();
        let best_grandpa: BlockNumber = self.best_grandpa_block_header.number;
        proof {
            assert(actions_view(actions@) =~= actions_view(old(actions)@)
                + Seq::<ActionView>::empty());
        }
        match self.voting_oracle.triage_round(block_num, best_grandpa) {
            Err(e) => Err(e),
            Ok(RoundAction::Process) => {
                self.finalize(justification, actions);
                Ok(())
            },
            Ok(RoundAction::Enqueue) => {
                self.pending_justifications.enqueue(block_num, justification);
                Ok(())
            },
            Ok(RoundAction::Drop) => Ok(()),
        }
    }

    /// Takes in the proofs, one after the other.
    fn finalize_ready(
        &mut self,
        ready: Vec<(BlockNumber, VersionedFinalityProof)>,
        actions: &mut Vec<Action>,
    )
        requires
            old(self)@.inv(),
        ensures
            final(self)@ == old(self)@.finalize_all(entries_view(ready@)).worker,
            actions_view(final(actions)@) == actions_view(old(actions)@) + old(
                self,
            )@.finalize_all(entries_view(ready@)).actions,
            final(self)@.inv(),
            ready@.len() > 0 ==> final(self)@.wf(),
            best_le(old(self)@.best_beefy, final(self)@.best_beefy),
            old(self)@.best_grandpa == final(self)@.best_grandpa,
            old(self)@.pending_votes == final(self)@.pending_votes,
    {
        let ghost start = self@;
        let ghost proofs = entries_view(ready@);
        proof {
            assert(proofs.take(0) =~= Seq::empty());
            assert(actions_view(actions@) =~= actions_view(old(actions)@)
                + Seq::<ActionView>::empty());
        }
        let ghost moved = ready@;
        for entry in it: ready
            invariant
                it.seq() == moved,
                entries_view(moved) == proofs,
                self@ == start.finalize_all(proofs.take(it.index() as int)).worker,
                actions_view(actions@) == actions_view(old(actions)@) + start.finalize_all(
                    proofs.take(it.index() as int),
                ).actions,
                self@.inv(),
                it.index() > 0 ==> self@.wf(),
                best_le(start.best_beefy, self@.best_beefy),
                start.best_grandpa == self@.best_grandpa,
                start.pending_votes == self@.pending_votes,
        {
            let ghost done = it.index() as int;
            proof {
                assert(proofs.take(done + 1).drop_last() =~= proofs.take(done));
                assert(proofs.take(done + 1).last() == proofs[done]);
                assert(proofs[done].1 == entry.1@);
            }
            self.finalize(entry.1, actions);
            proof {
                let so_far = start.finalize_all(proofs.take(done));
                let last = so_far.worker.finalize(proofs[done].1);
                assert(actions_view(actions@) =~= actions_view(old(actions)@) + (so_far.actions
                    + last.actions));
            }
        }
        proof {
            assert(proofs.take(proofs.len() as int) =~= proofs);
        }
    }

    /// Handles the votes, one after the other, passing over those that fail.
    fn handle_ready(&mut self, ready: Vec<(BlockNumber, VoteMessage)>, actions: &mut Vec<Action>)
        requires
            old(self)@.wf(),
        ensures
            final(self)@ == old(self)@.handle_votes(entries_view(ready@)).worker,
            actions_view(final(actions)@) == actions_view(old(actions)@) + old(
                self,
            )@.handle_votes(entries_view(ready@)).actions,
            final(self)@.wf(),
            best_le(old(self)@.best_beefy, final(self)@.best_beefy),
            old(self)@.best_grandpa == final(self)@.best_grandpa,
    {
        let ghost start = self@;
        let ghost votes = entries_view(ready@);
        proof {
            assert(votes.take(0) =~= Seq::empty());
            assert(actions_view(actions@) =~= actions_view(old(actions)@)
                + Seq::<ActionView>::empty());
        }
        let ghost moved = ready@;
        for entry in it: ready
            invariant
                it.seq() == moved,
                entries_view(moved) == votes,
                self@ == start.handle_votes(votes.take(it.index() as int)).worker,
                actions_view(actions@) == actions_view(old(actions)@) + start.handle_votes(
                    votes.take(it.index() as int),
                ).actions,
                self@.wf(),
                best_le(start.best_beefy, self@.best_beefy),
                start.best_grandpa == self@.best_grandpa,
        {
            let ghost done = it.index() as int;
            proof {
                assert(votes.take(done + 1).drop_last() =~= votes.take(done));
                assert(votes.take(done + 1).last() == votes[done]);
                assert(votes[done].1 == entry.1@);
            }
            let v = entry.1;
            let number: BlockNumber = v.commitment.block_number;
            let _ = self.handle_vote(
                (v.commitment.payload, number),
                (v.id, v.signature),
                false,
                actions,
            );
            proof {
                let so_far = start.handle_votes(votes.take(done));
                let last = so_far.worker.handle_vote(
                    votes[done].1.commitment.payload,
                    votes[done].1.commitment.block_number,
                    votes[done].1.id,
                    votes[done].1.signature,
                    false,
                );
                assert(actions_view(actions@) =~= actions_view(old(actions)@) + (so_far.actions
                    + last.actions));
            }
        }
        proof {
            assert(votes.take(votes.len() as int) =~= votes);
        }
    }

    /// Handles the buffered proofs and votes whose rounds now lie in the
    /// accepted interval, and drops those whose rounds lie below it. Fails
    /// with `UninitSession` without a session.
    pub fn try_pending_justif_and_votes(&mut self, actions: &mut Vec<Action>) -> (r: Result<
        (),
        Error,
    >)
        requires
            old(self)@.wf(),
        ensures
            final(self)@ == old(self)@.try_pending_justif_and_votes().worker,
            actions_view(final(actions)@) == actions_view(old(actions)@) + old(
                self,
            )@.try_pending_justif_and_votes().actions,
            r.is_ok() == old(self)@.try_pending_justif_and_votes().ok,
            r.is_err() ==> r == Err::<(), Error>(Error::UninitSession),
            final(self)@.wf(),
            best_le(old(self)@.best_beefy, final(self)@.best_beefy),
            old(self)@.best_grandpa == final(self)@.best_grandpa,
    {
        let best_grandpa: BlockNumber = self.best_grandpa_block_header.number;
        let ghost before = self@;
        proof {
            assert(actions_view(actions@) =~= actions_view(old(actions)@)
                + Seq::<ActionView>::empty());
        }
        let (lo, hi) = match self.voting_oracle.accepted_interval(best_grandpa) {
            Ok(interval) => interval,
            Err(e) => {
                return Err(e);
            },
        };
        let justifs_to_handle = self.pending_justifications.drain(lo, hi);
        self.finalize_ready(justifs_to_handle, actions);
        let ghost proofs = (WorkerView {
            pending_justifications: spec_later(before.pending_justifications, hi),
            ..before
        }).finalize_all(spec_ready(before.pending_justifications, lo, hi));
        proof {
            if spec_ready(before.pending_justifications, lo, hi).len() == 0 {
                assert(self@.wf());
            }
        }
        let (lo2, hi2) = match self.voting_oracle.accepted_interval(best_grandpa) {
            Ok(interval) => interval,
            Err(e) => {
                return Err(e);
            },
        };
        let votes_to_handle = self.pending_votes.drain(lo2, hi2);
        self.handle_ready(votes_to_handle, actions);
        proof {
            let votes = (WorkerView {
                pending_votes: spec_later(proofs.worker.pending_votes, hi2),
                ..proofs.worker
            }).handle_votes(spec_ready(proofs.worker.pending_votes, lo2, hi2));
            assert(actions_view(actions@) =~= actions_view(old(actions)@) + (proofs.actions
                + votes.actions));
        }
        Ok(())
    }

    /// The block to vote on now, if there is one.
    pub fn try_to_vote(&self) -> (r: Option<BlockNumber>)
        ensures
            r == self@.voting_target(),
    {
        self.voting_oracle.voting_target(
            self.best_beefy_block,
            self.best_grandpa_block_header.number,
        )
    }

    /// The header of `target`, if the worker has it: it has that of the best
    /// finalized block, and most votes are for that block. `None` tells the
    /// caller to fetch the header.
    pub fn target_header(&self, target: BlockNumber) -> (r: Option<&Header>)
        ensures
            r.is_some() == (target == self@.best_grandpa.number),
            r.is_some() ==> r.unwrap()@ == self@.best_grandpa,
    {
        if target == self.best_grandpa_block_header.number {
            Some(&self.best_grandpa_block_header)
        } else {
            None
        }
    }

    /// The commitment to sign for a vote on `target_number`, whose MMR root is
    /// `mmr_root`. `Ok(None)` if this node has voted in that round already.
    /// Fails with `UninitSession` without a session.
    pub fn vote_commitment(&self, target_number: BlockNumber, mmr_root: &MmrRootHash) -> (r: Result<
        Option<Commitment>,
        Error,
    >)
        ensures
            match self@.vote_commitment(target_number, mmr_root@) {
                Ok(Some(c)) => r.is_ok() && r.unwrap().is_some() && r.unwrap().unwrap()@ == c,
                Ok(None) => r.is_ok() && r.unwrap().is_none(),
                Err(_) => r == Err::<Option<Commitment>, Error>(Error::UninitSession),
            },
    {
        let payload = Payload::new(MMR_ROOT_ID, mmr_root.clone().raw);
        let rounds = match self.voting_oracle.rounds() {
            Some(rounds) => rounds,
            None => {
                return Err(Error::UninitSession);
            },
        };
        let round = (payload, target_number);
        if !rounds.should_self_vote(&round) {
            return Ok(None);
        }
        let validator_set_id: ValidatorSetId = rounds.validator_set_id();
        Ok(Some(Commitment { payload: round.0, block_number: target_number, validator_set_id }))
    }

    /// The validators of the head session, among which the key store finds
    /// the key to vote under.
    pub fn validators(&self) -> (r: Option<&Vec<AuthorityId>>)
        ensures
            r.is_some() == (self@.oracle.sessions.len() > 0),
            r.is_some() ==> crate::types::authorities_view(r.unwrap()@)
                == self@.oracle.sessions[0].validators,
    {
        match self.voting_oracle.rounds() {
            Some(rounds) => Some(rounds.validators()),
            None => None,
        }
    }

    /// Casts this node's vote: handles it as any vote, but as this node's
    /// own, and has it gossiped.
    pub fn cast_vote(&mut self, message: VoteMessage, actions: &mut Vec<Action>)
        requires
            old(self)@.wf(),
        ensures
            final(self)@ == old(self)@.cast_vote(message@).worker,
            actions_view(final(actions)@) == actions_view(old(actions)@) + old(self)@.cast_vote(
                message@,
            ).actions,
            final(self)@.wf(),
            best_le(old(self)@.best_beefy, final(self)@.best_beefy),
            old(self)@.best_grandpa == final(self)@.best_grandpa,
    {
        let gossiped = message.clone();
        let number: BlockNumber = message.commitment.block_number;
        let _ = self.handle_vote(
            (message.commitment.payload, number),
            (message.id, message.signature),
            true,
            actions,
        );
        emit(actions, Action::GossipVote(gossiped));
        proof {
            assert(actions_view(actions@) =~= actions_view(old(actions)@) + old(self)@.cast_vote(
                message@,
            ).actions);
        }
    }

    /// Starts the worker when the runtime first reports a validator set,
    /// `active`, at the finalized `header`. Where `active` is the set a chain
    /// starts with, there is no digest that announces it, and the session
    /// begins at block 1. Else the worker goes without a session until it
    /// sees one announced. Returns the block to vote on, if there is one.
    pub fn start_at(&mut self, active: ValidatorSet, header: Header, actions: &mut Vec<Action>) -> (r:
        Option<BlockNumber>)
        requires
            old(self)@.wf(),
        ensures
            final(self)@ == old(self)@.start_at(active@, header@).worker,
            actions_view(final(actions)@) == actions_view(old(actions)@) + old(self)@.start_at(
                active@,
                header@,
            ).actions,
            r == final(self)@.voting_target(),
            final(self)@.wf(),
            best_le(old(self)@.best_beefy, final(self)@.best_beefy),
            old(self)@.best_grandpa.number <= final(self)@.best_grandpa.number,
    {
        if active.id() == GENESIS_AUTHORITY_SET_ID {
            self.init_session_at(active, 1);
        }
        self.handle_finality_notification(header, actions);
        self.try_to_vote()
    }

    /// Verifies a finality proof that a peer sent for block `target_number`
    /// against the session of the validator set it names.
    pub fn verify_on_demand(
        &self,
        target_number: BlockNumber,
        justification: &VersionedFinalityProof,
        verified: &Vec<bool>,
    ) -> (r: bool)
        ensures
            r == self@.on_demand_valid(target_number, justification@, verified@),
    {
        match self.voting_oracle.session_of(justification.validator_set_id()) {
            Some(rounds) => verify_with_validator_set(
                target_number,
                rounds.validator_set(),
                justification,
                verified,
            ),
            None => false,
        }
    }

    /// One turn of the event loop. The event is handled: a finalized header,
    /// a proof or a vote by the transition of its kind, a failure of which is
    /// passed over; a proof from a peer only if it is valid. Unless the node is in a major sync, the pending items are
    /// then looked through and the block to vote on is chosen. The end of a
    /// stream ends the worker.
    pub fn on_event(&mut self, event: WorkerEvent, major_syncing: bool, actions: &mut Vec<Action>) -> (r:
        Flow)
        requires
            old(self)@.wf(),
        ensures
            final(self)@ == old(self)@.on_event(event@, major_syncing).worker,
            actions_view(final(actions)@) == actions_view(old(actions)@) + old(self)@.on_event(
                event@,
                major_syncing,
            ).actions,
            r == final(self)@.flow(event@, major_syncing),
            final(self)@.wf(),
            best_le(old(self)@.best_beefy, final(self)@.best_beefy),
            old(self)@.best_grandpa.number <= final(self)@.best_grandpa.number,
    {
        let ghost before = self@;
        let ghost handled = before.handle_event(event@);
        proof {
            assert(actions_view(actions@) =~= actions_view(old(actions)@)
                + Seq::<ActionView>::empty());
        }
        match event {
            WorkerEvent::FinalityNotification(header) => {
                self.handle_finality_notification(header, actions);
            },
            WorkerEvent::Justification(justification) => {
                let _ = self.triage_incoming_justif(justification, actions);
            },
            WorkerEvent::OnDemandJustification(target, justification, verified) => {
                if self.verify_on_demand(target, &justification, &verified) {
                    let _ = self.triage_incoming_justif(justification, actions);
                }
            },
            WorkerEvent::Vote(vote) => {
                let _ = self.triage_incoming_vote(vote, actions);
            },
            WorkerEvent::PeersChanged => {},
            WorkerEvent::StreamTerminated => {
                return Flow::Stop;
            },
        }
        if major_syncing {
            return Flow::Continue(None);
        }
        let _ = self.try_pending_justif_and_votes(actions);
        proof {
            let pending = handled.worker.try_pending_justif_and_votes();
            assert(actions_view(actions@) =~= actions_view(old(actions)@) + (handled.actions
                + pending.actions));
        }
        Flow::Continue(self.try_to_vote())
    }
}

/// A head session that is as far with its first block as the one it replaces
/// leaves the queue in the state it was in.
pub proof fn lemma_same_head_keeps_shape(o: OracleView, head: RoundsView)
    requires
        o.shape_ok(),
        o.sessions.len() > 0,
        head.mandatory_done == o.sessions[0].mandatory_done,
    ensures
        (OracleView { sessions: o.sessions.update(0, head), ..o }).shape_ok(),
{
    let after = OracleView { sessions: o.sessions.update(0, head), ..o };
    if !(o.sessions.len() == 1 && o.sessions[0].mandatory_done) {
        assert forall|i: int| 0 <= i < after.sessions.len() implies !(
        #[trigger] after.sessions[i]).mandatory_done by {
            if i > 0 {
                assert(after.sessions[i] == o.sessions[i]);
            }
        }
    }
}

/// Whether `after` may follow `before`: it is in order, and neither the best
/// finalized block nor the best block with a proof is behind where it was.
pub open spec fn follows(before: WorkerView, after: WorkerView) -> bool {
    &&& after.wf()
    &&& best_le(before.best_beefy, after.best_beefy)
    &&& before.best_grandpa.number <= after.best_grandpa.number
}

/// Taking in a proof leaves the state in order, with the queue of sessions in
/// one of its three states, and the best block with a proof no worse.
pub proof fn lemma_finalize_follows(w: WorkerView, proof: FinalityProofView)
    requires
        w.inv(),
    ensures
        follows(w, w.finalize(proof).worker),
        w.finalize(proof).worker.best_grandpa == w.best_grandpa,
        w.finalize(proof).worker.pending_votes == w.pending_votes,
        w.finalize(proof).worker.pending_justifications == w.pending_justifications,
{
    lemma_prune_shape(w.oracle);
}

/// Handling a vote leaves the state in order, and the best block with a proof
/// no worse.
pub proof fn lemma_handle_vote_follows(
    w: WorkerView,
    payload: Seq<PayloadEntryView>,
    number: BlockNumber,
    id: Seq<u8>,
    signature: Seq<u8>,
    self_vote: bool,
)
    requires
        w.wf(),
    ensures
        follows(w, w.handle_vote(payload, number, id, signature, self_vote).worker),
        w.handle_vote(payload, number, id, signature, self_vote).worker.best_grandpa
            == w.best_grandpa,
{
    if w.oracle.sessions.len() > 0 {
        let head = w.oracle.sessions[0];
        let voted = head.add_vote(payload, number, id, signature, self_vote);
        lemma_add_vote_wf(head, payload, number, id, signature, self_vote);
        if head.accepts(payload, number, id) && voted.concludes(payload, number) {
            lemma_conclude_wf(voted, number);
            let proof = FinalityProofView::V1(
                SignedCommitmentView {
                    commitment: CommitmentView {
                        payload,
                        block_number: number,
                        validator_set_id: head.validator_set_id,
                    },
                    signatures: voted.signatures(payload, number),
                },
            );
            lemma_finalize_follows(w.with_head(voted.conclude(number)), proof);
        } else {
            lemma_same_head_keeps_shape(w.oracle, voted);
        }
    }
}

/// Taking in proofs one after the other leaves the state in order.
pub proof fn lemma_finalize_all_follows(w: WorkerView, proofs: Seq<(BlockNumber, FinalityProofView)>)
    requires
        w.wf(),
    ensures
        follows(w, w.finalize_all(proofs).worker),
        w.finalize_all(proofs).worker.best_grandpa == w.best_grandpa,
        w.finalize_all(proofs).worker.pending_votes == w.pending_votes,
    decreases proofs.len(),
{
    if proofs.len() > 0 {
        lemma_finalize_all_follows(w, proofs.drop_last());
        lemma_finalize_follows(w.finalize_all(proofs.drop_last()).worker, proofs.last().1);
    }
}

/// Handling votes one after the other leaves the state in order.
pub proof fn lemma_handle_votes_follows(w: WorkerView, votes: Seq<(BlockNumber, VoteView)>)
    requires
        w.wf(),
    ensures
        follows(w, w.handle_votes(votes).worker),
        w.handle_votes(votes).worker.best_grandpa == w.best_grandpa,
    decreases votes.len(),
{
    if votes.len() > 0 {
        lemma_handle_votes_follows(w, votes.drop_last());
        let vote = votes.last().1;
        lemma_handle_vote_follows(
            w.handle_votes(votes.drop_last()).worker,
            vote.commitment.payload,
            vote.commitment.block_number,
            vote.id,
            vote.signature,
            false,
        );
    }
}

/// Looking through the pending items leaves the state in order.
pub proof fn lemma_try_pending_follows(w: WorkerView)
    requires
        w.wf(),
    ensures
        follows(w, w.try_pending_justif_and_votes().worker),
        w.try_pending_justif_and_votes().worker.best_grandpa == w.best_grandpa,
{
    let best = w.best_grandpa.number;
    match w.oracle.accepted_interval(best) {
        None => {},
        Some((lo, hi)) => {
            let kept = WorkerView {
                pending_justifications: spec_later(w.pending_justifications, hi),
                ..w
            };
            lemma_filter_sorted(
                w.pending_justifications,
                |e: (BlockNumber, FinalityProofView)| e.0 > hi,
            );
            let due = spec_ready(w.pending_justifications, lo, hi);
            lemma_finalize_all_follows(kept, due);
            let proofs = kept.finalize_all(due);
            match proofs.worker.oracle.accepted_interval(best) {
                None => {},
                Some((lo2, hi2)) => {
                    let kept2 = WorkerView {
                        pending_votes: spec_later(proofs.worker.pending_votes, hi2),
                        ..proofs.worker
                    };
                    lemma_filter_sorted(
                        proofs.worker.pending_votes,
                        |e: (BlockNumber, VoteView)| e.0 > hi2,
                    );
                    lemma_handle_votes_follows(
                        kept2,
                        spec_ready(proofs.worker.pending_votes, lo2, hi2),
                    );
                },
            }
        },
    }
}

/// A session that begins leaves the state in order.
pub proof fn lemma_init_session_follows(w: WorkerView, validators: ValidatorSetView, start: BlockNumber)
    requires
        w.inv(),
    ensures
        follows(w, w.init_session_at(validators, start)),
        w.init_session_at(validators, start).best_grandpa == w.best_grandpa,
{
    let rounds = RoundsView {
        rounds: Seq::empty(),
        session_start: start,
        validators: validators.validators,
        validator_set_id: validators.id,
        mandatory_done: false,
        best_done: None,
    };
    let pushed = OracleView { sessions: w.oracle.sessions.push(rounds), ..w.oracle };
    assert(pushed.wf());
    lemma_prune_shape(pushed);
}

/// Triaging a finality proof leaves the state in order.
pub proof fn lemma_triage_justif_follows(w: WorkerView, proof: FinalityProofView)
    requires
        w.wf(),
    ensures
        follows(w, w.triage_incoming_justif(proof).worker),
{
    let number = proof.block_number();
    match w.oracle.triage_round(number, w.best_grandpa.number) {
        Some(RoundAction::Process) => {
            lemma_finalize_follows(w, proof);
        },
        Some(RoundAction::Enqueue) => {
            lemma_enqueue_sorted(w.pending_justifications, number, proof);
        },
        _ => {},
    }
}

/// Whatever the event: after a turn of the event loop the queue of sessions
/// is in one of its three states, the buffers are in order, and neither the
/// best finalized block nor the best block with a proof is behind where it
/// was.
pub proof fn lemma_on_event_follows(w: WorkerView, event: EventView, major_syncing: bool)
    requires
        w.wf(),
    ensures
        follows(w, w.on_event(event, major_syncing).worker),
{
    let handled = w.handle_event(event);
    match event {
        EventView::FinalityNotification(header) => {
            if header.number > w.best_grandpa.number {
                match spec_find_authorities_change(header.digest) {
                    Some(validators) => {
                        lemma_init_session_follows(
                            WorkerView { best_grandpa: header, ..w },
                            validators,
                            header.number,
                        );
                    },
                    None => {},
                }
            }
        },
        EventView::Justification(proof) => {
            lemma_triage_justif_follows(w, proof);
        },
        EventView::OnDemandJustification(target, proof, verified) => {
            lemma_triage_justif_follows(w, proof);
        },
        EventView::Vote(vote) => {
            let number = vote.commitment.block_number;
            match w.oracle.triage_round(number, w.best_grandpa.number) {
                Some(RoundAction::Process) => {
                    lemma_handle_vote_follows(
                        w,
                        vote.commitment.payload,
                        number,
                        vote.id,
                        vote.signature,
                        false,
                    );
                },
                Some(RoundAction::Enqueue) => {
                    lemma_enqueue_sorted(w.pending_votes, number, vote);
                },
                _ => {},
            }
        },
        EventView::PeersChanged => {},
        EventView::StreamTerminated => {},
    }
    assert(follows(w, handled.worker));
    if !(event is StreamTerminated || major_syncing) {
        lemma_try_pending_follows(handled.worker);
    }
}

} // verus!
