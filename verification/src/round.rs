//! Vote collection for the rounds of one session.
//!
//! A round is named by the payload voted on and the block number. It gathers at
//! most one signature per validator and concludes once enough of them signed.

use crate::types::{
    authorities_view, contains_authority, signatures_view, AuthorityId, BlockNumber, Payload,
    PayloadEntryView, Signature, ValidatorSet, ValidatorSetId, ValidatorSetView,
};
use crate::seqs::lemma_filter_keeps_order;
use vstd::prelude::*;

verus! {

/// Smallest number of signers, out of `n` validators, whose votes conclude a
/// round: all but the third that may be faulty.
pub open spec fn spec_threshold(n: nat) -> nat {
    if n == 0 {
        0
    } else {
        (n - (n - 1) / 3) as nat
    }
}

/// Smallest number of signers, out of `authorities` validators, whose votes
/// conclude a round.
pub fn threshold(authorities: usize) -> (r: usize)
    ensures
        r == spec_threshold(authorities as nat),
{
    let faulty: usize = authorities.saturating_sub(1) / 3;
    authorities - faulty
}

/// With `3f + 1` validators a round concludes on `2f + 1` signers.
pub proof fn lemma_threshold_two_thirds(f: nat)
    ensures
        spec_threshold(3 * f + 1) == 2 * f + 1,
{
}

/// The threshold is more than two thirds of the validators, and no more than
/// all of them.
pub proof fn lemma_threshold_supermajority(n: nat)
    requires
        n > 0,
    ensures
        spec_threshold(n) == 2 * n / 3 + 1,
        spec_threshold(n) <= n,
{
}

/// A signature as a round keeps it, with the validator it came from.
pub struct Ballot {
    id: AuthorityId,
    signature: Signature,
}

/// Value of a ballot.
pub struct BallotView {
    pub id: Seq<u8>,
    pub signature: Seq<u8>,
}

impl View for Ballot {
    type V = BallotView;

    closed spec fn view(&self) -> BallotView {
        BallotView { id: self.id@, signature: self.signature@ }
    }
}

/// The votes gathered for one payload at one block.
pub struct Round {
    payload: Payload,
    number: BlockNumber,
    self_vote: bool,
    ballots: Vec<Ballot>,
}

/// Value of a round: what it is about, whether this node voted in it, and the
/// ballots in the order they came.
pub struct RoundView {
    pub payload: Seq<PayloadEntryView>,
    pub number: BlockNumber,
    pub self_vote: bool,
    pub ballots: Seq<BallotView>,
}

impl View for Round {
    type V = RoundView;

    closed spec fn view(&self) -> RoundView {
        RoundView {
            payload: self.payload@,
            number: self.number,
            self_vote: self.self_vote,
            ballots: Seq::new(self.ballots@.len(), |i: int| self.ballots@[i]@),
        }
    }
}

impl RoundView {
    /// Whether this is the round for `payload` at block `number`.
    pub open spec fn is_for(self, payload: Seq<PayloadEntryView>, number: BlockNumber) -> bool {
        self.payload == payload && self.number == number
    }

    /// No validator has two ballots.
    pub open spec fn wf(self) -> bool {
        forall|a: int, b: int|
            0 <= a < b < self.ballots.len() ==> (#[trigger] self.ballots[a]).id != (
            #[trigger] self.ballots[b]).id
    }
}

/// Index of the first ballot of `id` at or after `from`.
pub open spec fn ballot_from(ballots: Seq<BallotView>, id: Seq<u8>, from: int) -> Option<int>
    decreases ballots.len() - from,
{
    if from < 0 || from >= ballots.len() {
        None
    } else if ballots[from].id == id {
        Some(from)
    } else {
        ballot_from(ballots, id, from + 1)
    }
}

/// The signature that `id` gave, if it gave one.
pub open spec fn signature_of(ballots: Seq<BallotView>, id: Seq<u8>) -> Option<Seq<u8>> {
    match ballot_from(ballots, id, 0) {
        Some(i) => Some(ballots[i].signature),
        None => None,
    }
}

/// Index of the first round for `payload` at `number`, at or after `from`.
pub open spec fn round_from(
    rounds: Seq<RoundView>,
    payload: Seq<PayloadEntryView>,
    number: BlockNumber,
    from: int,
) -> Option<int>
    decreases rounds.len() - from,
{
    if from < 0 || from >= rounds.len() {
        None
    } else if rounds[from].is_for(payload, number) {
        Some(from)
    } else {
        round_from(rounds, payload, number, from + 1)
    }
}

/// `ballot_from` finds a ballot of `id`, and the first one; it finds none only
/// where there is none.
pub proof fn lemma_ballot_from(ballots: Seq<BallotView>, id: Seq<u8>, from: int)
    requires
        0 <= from,
    ensures
        match ballot_from(ballots, id, from) {
            Some(i) => from <= i < ballots.len() && ballots[i].id == id && forall|j: int|
                from <= j < i ==> (#[trigger] ballots[j]).id != id,
            None => forall|j: int| from <= j < ballots.len() ==> (#[trigger] ballots[j]).id != id,
        },
    decreases ballots.len() - from,
{
    if from < ballots.len() && ballots[from].id != id {
        lemma_ballot_from(ballots, id, from + 1);
    }
}

/// `round_from` finds a round for the key, and the first one; it finds none
/// only where there is none.
pub proof fn lemma_round_from(
    rounds: Seq<RoundView>,
    payload: Seq<PayloadEntryView>,
    number: BlockNumber,
    from: int,
)
    requires
        0 <= from,
    ensures
        match round_from(rounds, payload, number, from) {
            Some(i) => from <= i < rounds.len() && rounds[i].is_for(payload, number) && forall|
                j: int,
            |
                from <= j < i ==> !(#[trigger] rounds[j]).is_for(payload, number),
            None => forall|j: int|
                from <= j < rounds.len() ==> !(#[trigger] rounds[j]).is_for(payload, number),
        },
    decreases rounds.len() - from,
{
    if from < rounds.len() && !rounds[from].is_for(payload, number) {
        lemma_round_from(rounds, payload, number, from + 1);
    }
}

/// Value of the rounds of a session.
pub struct RoundsView {
    /// The rounds that gather votes, in the order they were opened.
    pub rounds: Seq<RoundView>,
    /// The session's first block, which must be finalized before any other.
    pub session_start: BlockNumber,
    pub validators: Seq<Seq<u8>>,
    pub validator_set_id: ValidatorSetId,
    /// Whether the session's first block has been finalized.
    pub mandatory_done: bool,
    /// The highest block for which a round concluded.
    pub best_done: Option<BlockNumber>,
}

impl RoundsView {
    /// Whether votes for block `number` come too late: the block lies before
    /// the session, or a round at or above it has concluded.
    pub open spec fn is_stale(self, number: BlockNumber) -> bool {
        number < self.session_start || match self.best_done {
            Some(b) => number <= b,
            None => false,
        }
    }

    /// Each key has one round, no round is stale, no validator has two
    /// ballots in a round, and every ballot is a validator's.
    pub open spec fn wf(self) -> bool {
        &&& forall|i: int, j: int|
            0 <= i < j < self.rounds.len() ==> !(#[trigger] self.rounds[i]).is_for(
                (#[trigger] self.rounds[j]).payload,
                self.rounds[j].number,
            )
        &&& forall|i: int|
            0 <= i < self.rounds.len() ==> (#[trigger] self.rounds[i]).wf() && !self.is_stale(
                self.rounds[i].number,
            ) && self.cast_by_validators(self.rounds[i].ballots)
    }

    /// Whether each of `ballots` is that of a validator of the session.
    pub open spec fn cast_by_validators(self, ballots: Seq<BallotView>) -> bool {
        forall|b: int| 0 <= b < ballots.len() ==> self.validators.contains((#[trigger] ballots[b]).id)
    }

    /// Index of the round for `payload` at `number`.
    pub open spec fn position(self, payload: Seq<PayloadEntryView>, number: BlockNumber) -> Option<
        int,
    > {
        round_from(self.rounds, payload, number, 0)
    }

    /// Whether `id` has a ballot in the round for `payload` at `number`.
    pub open spec fn has_voted(
        self,
        payload: Seq<PayloadEntryView>,
        number: BlockNumber,
        id: Seq<u8>,
    ) -> bool {
        match self.position(payload, number) {
            Some(i) => ballot_from(self.rounds[i].ballots, id, 0).is_some(),
            None => false,
        }
    }

    /// Whether a vote of `id` for `payload` at `number` would be added: the
    /// round is not stale, `id` is a validator of the session, and it has not
    /// voted in that round.
    pub open spec fn accepts(
        self,
        payload: Seq<PayloadEntryView>,
        number: BlockNumber,
        id: Seq<u8>,
    ) -> bool {
        !self.is_stale(number) && self.validators.contains(id) && !self.has_voted(
            payload,
            number,
            id,
        )
    }

    /// The rounds after a vote came in. A vote that is not accepted changes
    /// nothing.
    pub open spec fn add_vote(
        self,
        payload: Seq<PayloadEntryView>,
        number: BlockNumber,
        id: Seq<u8>,
        signature: Seq<u8>,
        self_vote: bool,
    ) -> RoundsView {
        if !self.accepts(payload, number, id) {
            self
        } else {
            let ballot = BallotView { id, signature };
            match self.position(payload, number) {
                Some(i) => RoundsView {
                    rounds: self.rounds.update(
                        i,
                        RoundView {
                            self_vote: self.rounds[i].self_vote || self_vote,
                            ballots: self.rounds[i].ballots.push(ballot),
                            ..self.rounds[i]
                        },
                    ),
                    ..self
                },
                None => RoundsView {
                    rounds: self.rounds.push(
                        RoundView { payload, number, self_vote, ballots: seq![ballot] },
                    ),
                    ..self
                },
            }
        }
    }

    /// Whether this node has voted in the round for `payload` at `number`.
    pub open spec fn self_voted(self, payload: Seq<PayloadEntryView>, number: BlockNumber) -> bool {
        match self.position(payload, number) {
            Some(i) => self.rounds[i].self_vote,
            None => false,
        }
    }

    /// Whether the round for `payload` at `number` has the votes to conclude.
    pub open spec fn concludes(self, payload: Seq<PayloadEntryView>, number: BlockNumber) -> bool {
        match self.position(payload, number) {
            Some(i) => self.rounds[i].ballots.len() >= spec_threshold(self.validators.len()),
            None => false,
        }
    }

    /// The signatures of the round for `payload` at `number`, one place per
    /// validator of the session, in the session's order.
    pub open spec fn signatures(self, payload: Seq<PayloadEntryView>, number: BlockNumber) -> Seq<
        Option<Seq<u8>>,
    > {
        match self.position(payload, number) {
            Some(i) => Seq::new(
                self.validators.len(),
                |v: int| signature_of(self.rounds[i].ballots, self.validators[v]),
            ),
            None => Seq::empty(),
        }
    }

    /// The rounds after the round at `number` concluded: it and all rounds at
    /// or below it are gone, and `number` is on record as done.
    pub open spec fn conclude(self, number: BlockNumber) -> RoundsView {
        RoundsView {
            rounds: self.rounds.filter(|r: RoundView| r.number > number),
            mandatory_done: self.mandatory_done || number == self.session_start,
            best_done: match self.best_done {
                Some(b) => if b > number {
                    Some(b)
                } else {
                    Some(number)
                },
                None => Some(number),
            },
            ..self
        }
    }
}

/// Value of a list of rounds.
pub open spec fn rounds_view(rounds: Seq<Round>) -> Seq<RoundView> {
    Seq::new(rounds.len(), |i: int| rounds[i]@)
}

/// Keeps track of all voting rounds within one session.
pub struct Rounds {
    rounds: Vec<Round>,
    session_start: BlockNumber,
    validator_set: ValidatorSet,
    mandatory_done: bool,
    best_done: Option<BlockNumber>,
}

impl View for Rounds {
    type V = RoundsView;

    closed spec fn view(&self) -> RoundsView {
        RoundsView {
            rounds: rounds_view(self.rounds@),
            session_start: self.session_start,
            validators: self.validator_set@.validators,
            validator_set_id: self.validator_set@.id,
            mandatory_done: self.mandatory_done,
            best_done: self.best_done,
        }
    }
}

impl Rounds {
    /// The rounds of a session that starts at `session_start`: none open,
    /// nothing done.
    pub fn new(session_start: BlockNumber, validator_set: ValidatorSet) -> (r: Self)
        ensures
            r@ == (RoundsView {
                rounds: Seq::empty(),
                session_start,
                validators: validator_set@.validators,
                validator_set_id: validator_set@.id,
                mandatory_done: false,
                best_done: None,
            }),
            r@.wf(),
    {
        let r = Rounds {
            rounds: Vec::new(),
            session_start,
            validator_set,
            mandatory_done: false,
            best_done: None,
        };
        proof {
            assert(r@.rounds =~= Seq::empty());
        }
        r
    }

    pub fn validator_set_id(&self) -> (r: ValidatorSetId)
        ensures
            r == self@.validator_set_id,
    {
        self.validator_set.id()
    }

    pub fn validators(&self) -> (r: &Vec<AuthorityId>)
        ensures
            authorities_view(r@) == self@.validators,
    {
        self.validator_set.validators()
    }

    pub fn session_start(&self) -> (r: BlockNumber)
        ensures
            r == self@.session_start,
    {
        self.session_start
    }

    pub fn validator_set(&self) -> (r: &ValidatorSet)
        ensures
            r@ == (ValidatorSetView {
                validators: self@.validators,
                id: self@.validator_set_id,
            }),
    {
        &self.validator_set
    }

    pub fn mandatory_done(&self) -> (r: bool)
        ensures
            r == self@.mandatory_done,
    {
        self.mandatory_done
    }

    /// Records that the session's first block was finalized.
    pub fn set_mandatory_done(&mut self)
        ensures
            final(self)@ == (RoundsView { mandatory_done: true, ..old(self)@ }),
    {
        self.mandatory_done = true;
    }

    /// Index of the round for `round`.
    fn find_round(&self, round: &(Payload, BlockNumber)) -> (r: Option<usize>)
        ensures
            match r {
                Some(i) => self@.position(round.0@, round.1) == Some(i as int) && i
                    < self.rounds@.len(),
                None => self@.position(round.0@, round.1).is_none(),
            },
    {
        let mut i: usize = 0;
        while i < self.rounds.len()
            invariant
                i <= self.rounds@.len(),
                self@.position(round.0@, round.1) == round_from(
                    self@.rounds,
                    round.0@,
                    round.1,
                    i as int,
                ),
            decreases self.rounds@.len() - i,
        {
            if self.rounds[i].number == round.1 && self.rounds[i].payload.same(&round.0) {
                return Some(i);
            }
            i = i + 1;
        }
        None
    }

    /// Whether this node should vote in `round`: it has not voted in it yet.
    pub fn should_self_vote(&self, round: &(Payload, BlockNumber)) -> (r: bool)
        ensures
            r == !self@.self_voted(round.0@, round.1),
    {
        match self.find_round(round) {
            Some(i) => !self.rounds[i].self_vote,
            None => true,
        }
    }

    /// Adds a vote to `round`. Returns whether it was added: a vote for a stale
    /// round, from one who is no validator of the session, or from one who has
    /// voted in the round already, is not.
    pub fn add_vote(
        &mut self,
        round: &(Payload, BlockNumber),
        vote: (AuthorityId, Signature),
        self_vote: bool,
    ) -> (added: bool)
        requires
            old(self)@.wf(),
        ensures
            added == old(self)@.accepts(round.0@, round.1, vote.0@),
            final(self)@ == old(self)@.add_vote(round.0@, round.1, vote.0@, vote.1@, self_vote),
            final(self)@.wf(),
    {
        let num: BlockNumber = round.1;
        let stale: bool = num < self.session_start || match self.best_done {
            Some(b) => num <= b,
            None => false,
        };
        if stale {
            return false;
        }
        if !contains_authority(self.validator_set.validators(), &vote.0) {
            return false;
        }
        let ghost before = self@;
        let ghost ballot = BallotView { id: vote.0@, signature: vote.1@ };
        match self.find_round(round) {
            Some(i) => {
                if find_ballot(&self.rounds[i].ballots, &vote.0).is_some() {
                    return false;
                }
                let entry = &mut self.rounds[i];
                entry.self_vote = entry.self_vote || self_vote;
                entry.ballots.push(Ballot { id: vote.0, signature: vote.1 });
                proof {
                    let after = before.add_vote(round.0@, round.1, vote.0@, vote.1@, self_vote);
                    assert(self.rounds@[i as int]@.ballots =~= before.rounds[i as int].ballots.push(
                        ballot,
                    ));
                    assert(self@.rounds =~= after.rounds);
                    lemma_ballot_from(before.rounds[i as int].ballots, ballot.id, 0);
                    lemma_round_from(before.rounds, round.0@, round.1, 0);
                    assert(after.rounds[i as int].wf());
                    assert(after.wf());
                }
                true
            },
            None => {
                let mut ballots: Vec<Ballot> = Vec::new();
                ballots.push(Ballot { id: vote.0, signature: vote.1 });
                let entry = Round { payload: round.0.clone(), number: num, self_vote, ballots };
                proof {
                    assert(entry@.ballots =~= seq![ballot]);
                }
                self.rounds.push(entry);
                proof {
                    let after = before.add_vote(round.0@, round.1, vote.0@, vote.1@, self_vote);
                    assert(self@.rounds =~= after.rounds);
                    lemma_round_from(before.rounds, round.0@, round.1, 0);
                    assert(after.wf());
                }
                true
            },
        }
    }

    /// Concludes `round` if it has the votes. Returns the signatures, one place
    /// per validator of the session, and forgets the round and all rounds at or
    /// below it; returns `None`, and changes nothing, if the votes are short.
    pub fn try_conclude(&mut self, round: &(Payload, BlockNumber)) -> (r: Option<
        Vec<Option<Signature>>,
    >)
        requires
            old(self)@.wf(),
        ensures
            r.is_some() == old(self)@.concludes(round.0@, round.1),
            r.is_some() ==> signatures_view(r.unwrap()@) == old(self)@.signatures(
                round.0@,
                round.1,
            ) && final(self)@ == old(self)@.conclude(round.1),
            r.is_none() ==> final(self)@ == old(self)@,
            final(self)@.wf(),
    {
        let i: usize = match self.find_round(round) {
            Some(i) => i,
            None => {
                return None;
            },
        };
        if self.rounds[i].ballots.len() < threshold(self.validator_set.len()) {
            return None;
        }
        let ghost before = self@;
        let signatures = collect_signatures(self.validator_set.validators(), &self.rounds[i].ballots);
        proof {
            assert(signatures_view(signatures@) =~= before.signatures(round.0@, round.1));
        }
        self.drop_rounds_up_to(round.1);
        self.mandatory_done = self.mandatory_done || round.1 == self.session_start;
        self.best_done =
        match self.best_done {
            Some(b) => if b > round.1 {
                Some(b)
            } else {
                Some(round.1)
            },
            None => Some(round.1),
        };
        proof {
            lemma_conclude_wf(before, round.1);
        }
        Some(signatures)
    }

    /// Forgets the rounds at or below `number`.
    fn drop_rounds_up_to(&mut self, number: BlockNumber)
        ensures
            final(self)@ == (RoundsView {
                rounds: old(self)@.rounds.filter(|r: RoundView| r.number > number),
                ..old(self)@
            }),
    {
        let ghost orig = self@.rounds;
        let ghost keep = |r: RoundView| r.number > number;
        let mut rest: Vec<Round> = Vec::new();
        std::mem::swap(&mut self.rounds, &mut rest);
        proof {
            assert(orig.take(0).filter(keep) =~= Seq::empty()) by {
                reveal(Seq::filter);
            }
            assert(rounds_view(self.rounds@) =~= Seq::empty());
        }
        let ghost moved = rest@;
        for entry in it: rest
            invariant
                it.seq() == moved,
                rounds_view(moved) == orig,
                rounds_view(self.rounds@) == orig.take(it.index() as int).filter(keep),
                keep == |r: RoundView| r.number > number,
                self.session_start == old(self).session_start,
                self.validator_set == old(self).validator_set,
                self.mandatory_done == old(self).mandatory_done,
                self.best_done == old(self).best_done,
        {
            let ghost kept_before = self.rounds@;
            proof {
                let done = it.index() as int;
                assert(entry@ == orig[done]);
                assert(orig.take(done + 1) =~= orig.take(done).push(orig[done]));
                orig.take(done).lemma_filter_push(orig[done], keep);
            }
            if entry.number > number {
                self.rounds.push(entry);
                proof {
                    assert(rounds_view(self.rounds@) =~= rounds_view(kept_before).push(entry@));
                }
            }
        }
        proof {
            assert(orig.take(orig.len() as int) =~= orig);
        }
    }
}

/// Index of the ballot of `id`.
fn find_ballot(ballots: &Vec<Ballot>, id: &AuthorityId) -> (r: Option<usize>)
    ensures
        match r {
            Some(i) => ballot_from(Seq::new(ballots@.len(), |k: int| ballots@[k]@), id@, 0) == Some(
                i as int,
            ) && i < ballots@.len(),
            None => ballot_from(Seq::new(ballots@.len(), |k: int| ballots@[k]@), id@, 0).is_none(),
        },
{
    let ghost view = Seq::new(ballots@.len(), |k: int| ballots@[k]@);
    let mut i: usize = 0;
    while i < ballots.len()
        invariant
            i <= ballots@.len(),
            view == Seq::new(ballots@.len(), |k: int| ballots@[k]@),
            ballot_from(view, id@, 0) == ballot_from(view, id@, i as int),
        decreases ballots@.len() - i,
    {
        if ballots[i].id.same(id) {
            return Some(i);
        }
        i = i + 1;
    }
    None
}

/// For each validator, in order, the signature it gave among `ballots`.
fn collect_signatures(validators: &Vec<AuthorityId>, ballots: &Vec<Ballot>) -> (r: Vec<
    Option<Signature>,
>)
    ensures
        signatures_view(r@) == Seq::new(
            validators@.len(),
            |v: int|
                signature_of(
                    Seq::new(ballots@.len(), |k: int| ballots@[k]@),
                    authorities_view(validators@)[v],
                ),
        ),
{
    let ghost view = Seq::new(ballots@.len(), |k: int| ballots@[k]@);
    let mut out: Vec<Option<Signature>> = Vec::new();
    let mut v: usize = 0;
    while v < validators.len()
        invariant
            v <= validators@.len(),
            out@.len() == v,
            view == Seq::new(ballots@.len(), |k: int| ballots@[k]@),
            forall|j: int|
                0 <= j < v ==> #[trigger] signatures_view(out@)[j] == signature_of(
                    view,
                    authorities_view(validators@)[j],
                ),
        decreases validators@.len() - v,
    {
        let ghost out_before = out@;
        let item: Option<Signature> = match find_ballot(ballots, &validators[v]) {
            Some(k) => Some(ballots[k].signature.clone()),
            None => None,
        };
        out.push(item);
        proof {
            assert forall|j: int| 0 <= j < v + 1 implies #[trigger] signatures_view(out@)[j]
                == signature_of(view, authorities_view(validators@)[j]) by {
                if j < v {
                    assert(signatures_view(out_before)[j] == signatures_view(out@)[j]);
                }
            }
        }
        v = v + 1;
    }
    proof {
        assert(signatures_view(out@) =~= Seq::new(
            validators@.len(),
            |v: int| signature_of(view, authorities_view(validators@)[v]),
        ));
    }
    out
}

/// Concluding a round keeps the rounds well formed.
pub proof fn lemma_conclude_wf(s: RoundsView, number: BlockNumber)
    requires
        s.wf(),
    ensures
        s.conclude(number).wf(),
{
    let keep = |r: RoundView| r.number > number;
    let after = s.conclude(number);
    let from = lemma_filter_keeps_order(s.rounds, keep);
    assert forall|i: int| 0 <= i < after.rounds.len() implies (#[trigger] after.rounds[i]).wf()
        && !after.is_stale(after.rounds[i].number) && after.cast_by_validators(
        after.rounds[i].ballots,
    ) by {
        s.rounds.lemma_filter_pred(keep, i);
        assert(after.rounds[i] == s.rounds[from[i]]);
        assert(s.cast_by_validators(s.rounds[from[i]].ballots));
    }
    assert forall|i: int, j: int| 0 <= i < j < after.rounds.len() implies !(
    #[trigger] after.rounds[i]).is_for((#[trigger] after.rounds[j]).payload, after.rounds[j].number) by {
        assert(after.rounds[i] == s.rounds[from[i]]);
        assert(after.rounds[j] == s.rounds[from[j]]);
    }
}

/// A second vote of the same validator in the same round is not added and
/// changes nothing, whatever the first did and whatever signature it carries.
pub proof fn lemma_add_vote_idempotent(
    s: RoundsView,
    payload: Seq<PayloadEntryView>,
    number: BlockNumber,
    id: Seq<u8>,
    first: Seq<u8>,
    first_self: bool,
    second: Seq<u8>,
    second_self: bool,
)
    requires
        s.wf(),
    ensures
        !s.add_vote(payload, number, id, first, first_self).accepts(payload, number, id),
        s.add_vote(payload, number, id, first, first_self).add_vote(
            payload,
            number,
            id,
            second,
            second_self,
        ) == s.add_vote(payload, number, id, first, first_self),
{
    let after = s.add_vote(payload, number, id, first, first_self);
    if s.accepts(payload, number, id) {
        lemma_round_from(s.rounds, payload, number, 0);
        lemma_round_from(after.rounds, payload, number, 0);
        match s.position(payload, number) {
            Some(i) => {
                assert(after.rounds[i].is_for(payload, number));
                assert(after.position(payload, number) == Some(i)) by {
                    let k = after.position(payload, number).unwrap();
                    if k < i {
                        assert(after.rounds[k] == s.rounds[k]);
                    }
                }
                let ballots = after.rounds[i].ballots;
                lemma_ballot_from(ballots, id, 0);
                assert(ballots[ballots.len() - 1].id == id);
            },
            None => {
                let i = s.rounds.len() as int;
                assert(after.rounds[i].is_for(payload, number));
                assert(after.position(payload, number) == Some(i)) by {
                    let k = after.position(payload, number).unwrap();
                    if k < i {
                        assert(after.rounds[k] == s.rounds[k]);
                    }
                }
                let ballots = after.rounds[i].ballots;
                lemma_ballot_from(ballots, id, 0);
                assert(ballots[0].id == id);
            },
        }
    }
}

/// A stale round is closed: it takes no vote and does not conclude.
pub proof fn lemma_stale_round_is_closed(
    s: RoundsView,
    payload: Seq<PayloadEntryView>,
    number: BlockNumber,
    id: Seq<u8>,
)
    requires
        s.wf(),
        s.is_stale(number),
    ensures
        !s.accepts(payload, number, id),
        !s.concludes(payload, number),
{
    lemma_round_from(s.rounds, payload, number, 0);
}

/// A round concludes once: after it has, it is stale, so it neither concludes
/// again nor takes another vote.
pub proof fn lemma_conclude_once(
    s: RoundsView,
    payload: Seq<PayloadEntryView>,
    number: BlockNumber,
    id: Seq<u8>,
)
    requires
        s.wf(),
    ensures
        s.conclude(number).is_stale(number),
        !s.conclude(number).concludes(payload, number),
        !s.conclude(number).accepts(payload, number, id),
{
    lemma_conclude_wf(s, number);
    lemma_stale_round_is_closed(s.conclude(number), payload, number, id);
}

/// What is stale stays stale through every vote and every conclusion.
pub proof fn lemma_stale_stays_stale(
    s: RoundsView,
    stale: BlockNumber,
    payload: Seq<PayloadEntryView>,
    number: BlockNumber,
    id: Seq<u8>,
    signature: Seq<u8>,
    self_vote: bool,
)
    requires
        s.is_stale(stale),
    ensures
        s.add_vote(payload, number, id, signature, self_vote).is_stale(stale),
        s.conclude(number).is_stale(stale),
{
}

/// Once the session's first block is done it stays done, and concluding the
/// round at the session's first block makes it so.
pub proof fn lemma_mandatory_done_stays(
    s: RoundsView,
    payload: Seq<PayloadEntryView>,
    number: BlockNumber,
    id: Seq<u8>,
    signature: Seq<u8>,
    self_vote: bool,
)
    ensures
        s.add_vote(payload, number, id, signature, self_vote).mandatory_done == s.mandatory_done,
        s.mandatory_done ==> s.conclude(number).mandatory_done,
        s.conclude(s.session_start).mandatory_done,
        !s.mandatory_done && number != s.session_start ==> !s.conclude(number).mandatory_done,
{
}

/// A vote leaves well-formed rounds well formed.
pub proof fn lemma_add_vote_wf(
    s: RoundsView,
    payload: Seq<PayloadEntryView>,
    number: BlockNumber,
    id: Seq<u8>,
    signature: Seq<u8>,
    self_vote: bool,
)
    requires
        s.wf(),
    ensures
        s.add_vote(payload, number, id, signature, self_vote).wf(),
{
    let after = s.add_vote(payload, number, id, signature, self_vote);
    if s.accepts(payload, number, id) {
        lemma_round_from(s.rounds, payload, number, 0);
        match s.position(payload, number) {
            Some(i) => {
                lemma_ballot_from(s.rounds[i].ballots, id, 0);
                assert(after.rounds[i].wf());
            },
            None => {},
        }
    }
}

} // verus!
