//! The voting strategy: which rounds a voter accepts now, and which block it
//! votes on next.

use crate::round::{Rounds, RoundsView};
use crate::seqs::{lemma_filter_all, lemma_filter_keeps_order};
use crate::types::{BlockNumber, ValidatorSetId};
use vstd::prelude::*;

verus! {

/// What can go wrong in the voter.
#[derive(Debug, PartialEq, Eq, Clone)]
pub enum Error {
    /// A header could not be had, or a proof not be stored.
    Backend(String),
    /// There is no key store, or no key of a validator in it.
    Keystore(String),
    /// A commitment could not be signed.
    Signature(String),
    /// The voter was asked before its first session began.
    UninitSession,
}

/// What to do with a vote or a proof for some round.
#[derive(Debug, PartialEq, Eq, Clone, Copy)]
pub enum RoundAction {
    /// The round is over: forget the item.
    Drop,
    /// The round is open: handle the item now.
    Process,
    /// The round is yet to come: keep the item for later.
    Enqueue,
}

/// Whether `n` is a power of two.
pub open spec fn is_power_of_two(n: nat) -> bool
    decreases n,
{
    n == 1 || (n > 1 && n % 2 == 0 && is_power_of_two(n / 2))
}

/// The first of `p`, `2p`, `4p`, ... that is no less than `x`.
pub open spec fn doubled_up_to(x: nat, p: nat) -> nat
    decreases
        (if x > p {
            x - p
        } else {
            0
        }),
{
    if p == 0 || p >= x {
        p
    } else {
        doubled_up_to(x, 2 * p)
    }
}

/// The smallest power of two that is no less than `x`.
pub open spec fn spec_next_power_of_two(x: nat) -> nat {
    doubled_up_to(x, 1)
}

/// Doubling a power of two up to `x` ends on a power of two that is no less
/// than `x`, and on the first such: half of it is less than `x`, unless it is
/// where the doubling began.
pub proof fn lemma_doubled_up_to(x: nat, p: nat)
    requires
        is_power_of_two(p),
    ensures
        is_power_of_two(doubled_up_to(x, p)),
        doubled_up_to(x, p) >= x,
        doubled_up_to(x, p) >= p,
        doubled_up_to(x, p) == p || doubled_up_to(x, p) / 2 < x,
        doubled_up_to(x, p) == p || doubled_up_to(x, p) < 2 * x,
    decreases
        (if x > p {
            x - p
        } else {
            0
        }),
{
    if p < x {
        assert(is_power_of_two(2 * p)) by {
            assert((2 * p) / 2 == p);
        }
        lemma_doubled_up_to(x, 2 * p);
    }
}

/// `spec_next_power_of_two(x)` is a power of two, no less than `x`, and no
/// power of two between `x` and it exists.
pub proof fn lemma_next_power_of_two_is_least(x: nat, q: nat)
    requires
        is_power_of_two(q),
        q >= x,
    ensures
        is_power_of_two(spec_next_power_of_two(x)),
        spec_next_power_of_two(x) >= x,
        spec_next_power_of_two(x) <= q,
{
    lemma_doubled_up_to(x, 1);
    lemma_doubled_le_power(x, 1, q);
}

/// Of two powers of two, the smaller divides the larger.
proof fn lemma_power_of_two_multiple(p: nat, q: nat)
    requires
        is_power_of_two(p),
        is_power_of_two(q),
        p < q,
    ensures
        2 * p <= q,
    decreases q,
{
    if p > 1 {
        lemma_power_of_two_multiple(p / 2, q / 2);
    }
}

/// Doubling `p` up to `x` does not pass a power of two `q` that is no less
/// than both.
proof fn lemma_doubled_le_power(x: nat, p: nat, q: nat)
    requires
        is_power_of_two(p),
        is_power_of_two(q),
        q >= x,
        q >= p,
    ensures
        doubled_up_to(x, p) <= q,
    decreases
        (if x > p {
            x - p
        } else {
            0
        }),
{
    if p < x {
        lemma_power_of_two_multiple(p, q);
        assert(is_power_of_two(2 * p)) by {
            assert((2 * p) / 2 == p);
        }
        lemma_doubled_le_power(x, 2 * p, q);
    }
}

/// The smallest power of two that is no less than `x`.
pub fn next_power_of_two(x: u32) -> (r: u32)
    requires
        x <= 0x8000_0000,
    ensures
        r == spec_next_power_of_two(x as nat),
{
    let mut p: u32 = 1;
    while p < x
        invariant
            1 <= p <= 0x8000_0000,
            x <= 0x8000_0000,
            is_power_of_two(p as nat),
            doubled_up_to(x as nat, p as nat) == spec_next_power_of_two(x as nat),
        decreases 0x1_0000_0000 - p,
    {
        proof {
            assert(is_power_of_two(0x8000_0000)) by {
                reveal_with_fuel(is_power_of_two, 33);
            }
            lemma_power_of_two_multiple(p as nat, 0x8000_0000);
            assert(is_power_of_two(2 * p as nat)) by {
                assert((2 * p as nat) / 2 == p as nat);
            }
        }
        p = 2 * p;
    }
    p
}

/// Half the distance, rounded down, from `best_beefy` to the block after
/// `best_grandpa`; nothing where `best_grandpa` is behind.
pub open spec fn spec_vote_diff(best_grandpa: BlockNumber, best_beefy: BlockNumber) -> nat {
    if best_grandpa >= best_beefy {
        ((best_grandpa - best_beefy + 1) / 2) as nat
    } else {
        0
    }
}

/// How far beyond `best_beefy` the next vote goes: half the distance to the
/// best finalized block, rounded up to a power of two, and at least
/// `min_delta`.
pub open spec fn spec_vote_step(
    best_grandpa: BlockNumber,
    best_beefy: BlockNumber,
    min_delta: u32,
) -> nat {
    let pow = spec_next_power_of_two(spec_vote_diff(best_grandpa, best_beefy));
    if min_delta as nat >= pow {
        min_delta as nat
    } else {
        pow
    }
}

/// The block a voter would like to vote on next: the session's first block
/// until that is finalized, then `best_beefy` plus the step.
pub open spec fn spec_vote_candidate(
    best_grandpa: BlockNumber,
    best_beefy: Option<BlockNumber>,
    session_start: BlockNumber,
    min_delta: u32,
) -> nat {
    match best_beefy {
        None => session_start as nat,
        Some(bbb) => if bbb < session_start {
            session_start as nat
        } else {
            bbb as nat + spec_vote_step(best_grandpa, bbb, min_delta)
        },
    }
}

/// The block to vote on next: the candidate, if it has been finalized.
pub open spec fn spec_vote_target(
    best_grandpa: BlockNumber,
    best_beefy: Option<BlockNumber>,
    session_start: BlockNumber,
    min_delta: u32,
) -> Option<BlockNumber> {
    let candidate = spec_vote_candidate(best_grandpa, best_beefy, session_start, min_delta);
    if candidate <= best_grandpa {
        Some(candidate as BlockNumber)
    } else {
        None
    }
}

/// Calculates the next block number to vote on, `None` if there is no block to
/// vote on yet.
pub fn vote_target(
    best_grandpa: BlockNumber,
    best_beefy: Option<BlockNumber>,
    session_start: BlockNumber,
    min_delta: u32,
) -> (r: Option<BlockNumber>)
    ensures
        r == spec_vote_target(best_grandpa, best_beefy, session_start, min_delta),
{
    let target: u64 = match best_beefy {
        None => session_start as u64,
        Some(bbb) => {
            if bbb < session_start {
                session_start as u64
            } else {
                let gap: u64 = best_grandpa.saturating_sub(bbb) as u64 + 1;
                let diff: u32 = (gap / 2) as u32;
                let pow: u32 = next_power_of_two(diff);
                let step: u32 = if min_delta >= pow {
                    min_delta
                } else {
                    pow
                };
                bbb as u64 + step as u64
            }
        },
    };
    if target > best_grandpa as u64 {
        None
    } else {
        Some(target as u32)
    }
}

/// Where the best finalized block has a proof already, there is nothing to
/// vote on.
pub proof fn lemma_vote_target_caught_up(n: BlockNumber, session_start: BlockNumber, min_delta: u32)
    requires
        n >= session_start,
    ensures
        spec_vote_target(n, Some(n), session_start, min_delta).is_none(),
{
    lemma_doubled_up_to(0, 1);
    assert(is_power_of_two(1));
}

/// With no proof yet, the vote goes to the session's first block as soon as it
/// is finalized, and nowhere before.
pub proof fn lemma_vote_target_mandatory(
    best_grandpa: BlockNumber,
    session_start: BlockNumber,
    min_delta: u32,
)
    ensures
        session_start <= best_grandpa ==> spec_vote_target(
            best_grandpa,
            None,
            session_start,
            min_delta,
        ) == Some(session_start),
        session_start > best_grandpa ==> spec_vote_target(
            best_grandpa,
            None,
            session_start,
            min_delta,
        ).is_none(),
{
}

/// Where half the distance is no more than `min_delta`, and so is its next
/// power of two, the step is `min_delta`. The second holds of every
/// `min_delta` that is itself a power of two.
pub proof fn lemma_vote_step_min_delta(
    best_grandpa: BlockNumber,
    best_beefy: BlockNumber,
    min_delta: u32,
)
    requires
        spec_vote_diff(best_grandpa, best_beefy) <= min_delta,
        is_power_of_two(min_delta as nat) || spec_next_power_of_two(
            spec_vote_diff(best_grandpa, best_beefy),
        ) <= min_delta,
    ensures
        spec_vote_step(best_grandpa, best_beefy, min_delta) == min_delta,
{
    if is_power_of_two(min_delta as nat) {
        lemma_next_power_of_two_is_least(
            spec_vote_diff(best_grandpa, best_beefy),
            min_delta as nat,
        );
    }
}

/// A target lies beyond the best block with a proof, and within what is
/// finalized.
pub proof fn lemma_vote_target_advances(
    best_grandpa: BlockNumber,
    best_beefy: BlockNumber,
    session_start: BlockNumber,
    min_delta: u32,
)
    ensures
        match spec_vote_target(best_grandpa, Some(best_beefy), session_start, min_delta) {
            Some(t) => best_beefy < t <= best_grandpa && t >= session_start,
            None => true,
        },
{
    lemma_doubled_up_to(spec_vote_diff(best_grandpa, best_beefy), 1);
    assert(is_power_of_two(1));
}

/// Value of the oracle: its sessions, oldest first, and the least distance
/// between two votes.
pub struct OracleView {
    pub sessions: Seq<RoundsView>,
    pub min_block_delta: u32,
}

impl OracleView {
    /// The queue of sessions is in one of its three states: empty; one session
    /// whose first block is done; or sessions none of whose first blocks is
    /// done.
    pub open spec fn shape_ok(self) -> bool {
        ||| self.sessions.len() == 0
        ||| (self.sessions.len() == 1 && self.sessions[0].mandatory_done)
        ||| forall|i: int| 0 <= i < self.sessions.len() ==> !(#[trigger] self.sessions[i]).mandatory_done
    }

    /// Every session is well formed, and votes are at least one block apart.
    pub open spec fn wf(self) -> bool {
        &&& self.min_block_delta >= 1
        &&& forall|i: int| 0 <= i < self.sessions.len() ==> (#[trigger] self.sessions[i]).wf()
    }

    /// The queue after pruning: of several sessions, those whose first block
    /// is not done.
    pub open spec fn prune(self) -> OracleView {
        if self.sessions.len() > 1 {
            OracleView {
                sessions: self.sessions.filter(|s: RoundsView| !s.mandatory_done),
                ..self
            }
        } else {
            self
        }
    }

    /// The queue after a session was added at its end, and pruned.
    pub open spec fn add_session(self, rounds: RoundsView) -> OracleView {
        (OracleView { sessions: self.sessions.push(rounds), ..self }).prune()
    }

    /// The rounds `(lo, hi)`, both included, whose votes are accepted now:
    /// from the head session's first block to `best_grandpa` once that block
    /// is done, only that block before. `None` without a session.
    pub open spec fn accepted_interval(self, best_grandpa: BlockNumber) -> Option<
        (BlockNumber, BlockNumber),
    > {
        if self.sessions.len() == 0 {
            None
        } else if self.sessions[0].mandatory_done {
            Some((self.sessions[0].session_start, best_grandpa))
        } else {
            Some((self.sessions[0].session_start, self.sessions[0].session_start))
        }
    }

    /// What to do with an item for `round`: process it inside the accepted
    /// interval, keep it if it lies above, drop it if it lies below.
    pub open spec fn triage_round(self, round: BlockNumber, best_grandpa: BlockNumber) -> Option<
        RoundAction,
    > {
        match self.accepted_interval(best_grandpa) {
            Some((start, end)) => Some(
                if start <= round && round <= end {
                    RoundAction::Process
                } else if round > end {
                    RoundAction::Enqueue
                } else {
                    RoundAction::Drop
                },
            ),
            None => None,
        }
    }

    /// The block to vote on next, `None` without a session.
    pub open spec fn voting_target(
        self,
        best_beefy: Option<BlockNumber>,
        best_grandpa: BlockNumber,
    ) -> Option<BlockNumber> {
        if self.sessions.len() == 0 {
            None
        } else {
            spec_vote_target(
                best_grandpa,
                best_beefy,
                self.sessions[0].session_start,
                self.min_block_delta,
            )
        }
    }
}

/// Index of the first session, at or after `from`, of the validator set `id`.
pub open spec fn spec_session_of(sessions: Seq<RoundsView>, id: ValidatorSetId, from: int) -> Option<
    int,
>
    decreases sessions.len() - from,
{
    if from < 0 || from >= sessions.len() {
        None
    } else if sessions[from].validator_set_id == id {
        Some(from)
    } else {
        spec_session_of(sessions, id, from + 1)
    }
}

/// Value of a queue of sessions.
pub open spec fn sessions_view(sessions: Seq<Rounds>) -> Seq<RoundsView> {
    Seq::new(sessions.len(), |i: int| sessions[i]@)
}

/// Responsible for the voting strategy. It chooses which incoming votes to
/// accept and which votes to generate.
pub struct VoterOracle {
    /// Queue of known sessions, the oldest at the head.
    sessions: Vec<Rounds>,
    /// Least distance, in blocks, between two blocks voted on.
    min_block_delta: u32,
}

impl View for VoterOracle {
    type V = OracleView;

    closed spec fn view(&self) -> OracleView {
        OracleView {
            sessions: sessions_view(self.sessions@),
            min_block_delta: self.min_block_delta,
        }
    }
}

impl VoterOracle {
    /// An oracle without sessions. A `min_block_delta` of 0 counts as 1: a
    /// vote always targets a block beyond the best one with a proof.
    pub fn new(min_block_delta: u32) -> (r: Self)
        ensures
            r@.sessions == Seq::<RoundsView>::empty(),
            r@.min_block_delta == if min_block_delta == 0 {
                1u32
            } else {
                min_block_delta
            },
            r@.wf(),
            r@.shape_ok(),
    {
        let r = VoterOracle {
            sessions: Vec::new(),
            min_block_delta: if min_block_delta == 0 {
                1
            } else {
                min_block_delta
            },
        };
        proof {
            assert(r@.sessions =~= Seq::<RoundsView>::empty());
        }
        r
    }

    /// The rounds of the session at the head of the queue, where voting
    /// happens. What the caller does to them is what happens to the head.
    pub fn rounds_mut(&mut self) -> (r: Option<&mut Rounds>)
        ensures
            r.is_some() == (old(self)@.sessions.len() > 0),
            r.is_some() ==> (*r.unwrap())@ == old(self)@.sessions[0] && final(self)@ == (OracleView {
                sessions: old(self)@.sessions.update(0, (*final(r.unwrap()))@),
                ..old(self)@
            }),
            r.is_none() ==> final(self)@ == old(self)@,
    {
        if self.sessions.len() > 0 {
            let ghost before = self.sessions@;
            let head = &mut self.sessions[0];
            proof {
                assert(sessions_view(before.update(0, *final(head))) =~= sessions_view(
                    before,
                ).update(0, (*final(head))@));
            }
            Some(head)
        } else {
            None
        }
    }

    /// The rounds of the session at the head of the queue.
    pub fn rounds(&self) -> (r: Option<&Rounds>)
        ensures
            r.is_some() == (self@.sessions.len() > 0),
            r.is_some() ==> r.unwrap()@ == self@.sessions[0],
    {
        if self.sessions.len() > 0 {
            Some(&self.sessions[0])
        } else {
            None
        }
    }

    /// The rounds of the first session in the queue whose validator set is
    /// `id`.
    pub fn session_of(&self, id: ValidatorSetId) -> (r: Option<&Rounds>)
        ensures
            match spec_session_of(self@.sessions, id, 0) {
                Some(i) => r.is_some() && 0 <= i < self@.sessions.len() && r.unwrap()@
                    == self@.sessions[i],
                None => r.is_none(),
            },
    {
        let mut i: usize = 0;
        while i < self.sessions.len()
            invariant
                i <= self.sessions@.len(),
                spec_session_of(self@.sessions, id, 0) == spec_session_of(
                    self@.sessions,
                    id,
                    i as int,
                ),
            decreases self.sessions@.len() - i,
        {
            if self.sessions[i].validator_set_id() == id {
                return Some(&self.sessions[i]);
            }
            i = i + 1;
        }
        None
    }

    /// Adds a newly seen session at the end of the queue, and prunes.
    pub fn add_session(&mut self, rounds: Rounds)
        requires
            old(self)@.wf(),
            rounds@.wf(),
        ensures
            final(self)@ == old(self)@.add_session(rounds@),
            final(self)@.wf(),
            final(self)@.shape_ok(),
    {
        let ghost before = self@;
        self.sessions.push(rounds);
        proof {
            assert(self@.sessions =~= before.sessions.push(rounds@));
        }
        self.try_prune();
    }

    /// Prunes the queue to one of its three states: of several sessions, only
    /// those stay whose first block is not done.
    pub fn try_prune(&mut self)
        requires
            old(self)@.wf(),
        ensures
            final(self)@ == old(self)@.prune(),
            final(self)@.wf(),
            final(self)@.shape_ok(),
    {
        if self.sessions.len() > 1 {
            let ghost orig = self@.sessions;
            let ghost keep = |s: RoundsView| !s.mandatory_done;
            let mut rest: Vec<Rounds> = Vec::new();
            std::mem::swap(&mut self.sessions, &mut rest);
            proof {
                assert(orig.take(0).filter(keep) =~= Seq::empty()) by {
                    reveal(Seq::filter);
                }
                assert(sessions_view(self.sessions@) =~= Seq::empty());
            }
            let ghost moved = rest@;
            for entry in it: rest
                invariant
                    it.seq() == moved,
                    sessions_view(moved) == orig,
                    sessions_view(self.sessions@) == orig.take(it.index() as int).filter(keep),
                    keep == |s: RoundsView| !s.mandatory_done,
                    self.min_block_delta == old(self).min_block_delta,
            {
                let ghost kept_before = self.sessions@;
                proof {
                    let done = it.index() as int;
                    assert(entry@ == orig[done]);
                    assert(orig.take(done + 1) =~= orig.take(done).push(orig[done]));
                    orig.take(done).lemma_filter_push(orig[done], keep);
                }
                if !entry.mandatory_done() {
                    self.sessions.push(entry);
                    proof {
                        assert(sessions_view(self.sessions@) =~= sessions_view(kept_before).push(
                            entry@,
                        ));
                    }
                }
            }
            proof {
                assert(orig.take(orig.len() as int) =~= orig);
                lemma_prune_shape(old(self)@);
            }
        } else {
            proof {
                lemma_prune_shape(old(self)@);
            }
        }
    }

    /// The rounds `(lo, hi)`, both included, whose votes are accepted now.
    /// Fails with `UninitSession` without a session.
    pub fn accepted_interval(&self, best_grandpa: BlockNumber) -> (r: Result<
        (BlockNumber, BlockNumber),
        Error,
    >)
        ensures
            r == match self@.accepted_interval(best_grandpa) {
                Some(interval) => Ok::<(BlockNumber, BlockNumber), Error>(interval),
                None => Err(Error::UninitSession),
            },
    {
        if self.sessions.len() == 0 {
            return Err(Error::UninitSession);
        }
        let rounds = &self.sessions[0];
        if rounds.mandatory_done() {
            Ok((rounds.session_start(), best_grandpa))
        } else {
            Ok((rounds.session_start(), rounds.session_start()))
        }
    }

    /// Decides what to do with an item for `round`. Fails with
    /// `UninitSession` without a session.
    pub fn triage_round(&self, round: BlockNumber, best_grandpa: BlockNumber) -> (r: Result<
        RoundAction,
        Error,
    >)
        ensures
            r == match self@.triage_round(round, best_grandpa) {
                Some(action) => Ok::<RoundAction, Error>(action),
                None => Err(Error::UninitSession),
            },
    {
        let (start, end) = match self.accepted_interval(best_grandpa) {
            Ok(interval) => interval,
            Err(e) => {
                return Err(e);
            },
        };
        if start <= round && round <= end {
            Ok(RoundAction::Process)
        } else if round > end {
            Ok(RoundAction::Enqueue)
        } else {
            Ok(RoundAction::Drop)
        }
    }

    /// The block to vote on, `None` if there is none.
    pub fn voting_target(&self, best_beefy: Option<BlockNumber>, best_grandpa: BlockNumber) -> (r:
        Option<BlockNumber>)
        ensures
            r == self@.voting_target(best_beefy, best_grandpa),
    {
        if self.sessions.len() == 0 {
            return None;
        }
        vote_target(
            best_grandpa,
            best_beefy,
            self.sessions[0].session_start(),
            self.min_block_delta,
        )
    }
}

/// Pruning leaves the queue in one of its three states, whatever it was, and
/// keeps well-formed sessions well formed.
pub proof fn lemma_prune_shape(o: OracleView)
    ensures
        o.prune().shape_ok(),
        o.wf() ==> o.prune().wf(),
        o.prune().min_block_delta == o.min_block_delta,
{
    let keep = |s: RoundsView| !s.mandatory_done;
    if o.sessions.len() > 1 {
        let kept = o.sessions.filter(keep);
        assert forall|i: int| 0 <= i < kept.len() implies !(#[trigger] kept[i]).mandatory_done by {
            o.sessions.lemma_filter_pred(keep, i);
        }
        if o.wf() {
            let from = lemma_filter_keeps_order(o.sessions, keep);
            assert forall|i: int| 0 <= i < kept.len() implies (#[trigger] kept[i]).wf() by {
                assert(kept[i] == o.sessions[from[i]]);
            }
        }
    }
}

/// While the first block of any session is not done, only the first block of
/// the head session is accepted.
pub proof fn lemma_lagging_accepts_mandatory_only(
    o: OracleView,
    best_grandpa: BlockNumber,
    i: int,
)
    requires
        o.shape_ok(),
        0 <= i < o.sessions.len(),
        !o.sessions[i].mandatory_done,
    ensures
        o.accepted_interval(best_grandpa) == Some(
            (o.sessions[0].session_start, o.sessions[0].session_start),
        ),
{
}

/// A pruned queue stays as it is when pruned again.
pub proof fn lemma_prune_twice(o: OracleView)
    ensures
        o.prune().prune() == o.prune(),
{
    let keep = |s: RoundsView| !s.mandatory_done;
    if o.sessions.len() > 1 {
        let kept = o.sessions.filter(keep);
        assert forall|i: int| 0 <= i < kept.len() implies keep(#[trigger] kept[i]) by {
            o.sessions.lemma_filter_pred(keep, i);
        }
        lemma_filter_all(kept, keep);
    }
}

} // verus!
