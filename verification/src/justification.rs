//! What makes a finality proof valid for a validator set.
//!
//! Whether a signature is that of a validator over a commitment only the
//! cryptography can tell. The caller asks it, place by place, and hands the
//! answers in; the rest is decided here.

use crate::round::{
    ballot_from, lemma_ballot_from, lemma_round_from, signature_of, spec_threshold, threshold,
    BallotView, RoundsView,
};
use crate::types::{
    signatures_view, BlockNumber, CommitmentView, FinalityProofView, PayloadEntryView, Signature,
    SignedCommitmentView, ValidatorSet, ValidatorSetView, VersionedFinalityProof,
};
use vstd::prelude::*;

verus! {

/// The number of places that hold a signature which checked out: place `i`
/// counts if `signatures[i]` is there and `verified[i]` is true. A place
/// without an answer does not count.
pub open spec fn spec_valid_signatures(signatures: Seq<Option<Seq<u8>>>, verified: Seq<bool>) -> nat
    decreases signatures.len(),
{
    if signatures.len() == 0 {
        0
    } else {
        let last = signatures.len() - 1;
        spec_valid_signatures(signatures.drop_last(), verified) + if signatures[last].is_some()
            && last < verified.len() && verified[last] {
            1nat
        } else {
            0nat
        }
    }
}

/// Whether `finality_proof` is a valid proof of block `target` for the validator set:
/// it is about that block and that set, it has one place per validator, and
/// the valid signatures in it reach the threshold.
pub open spec fn spec_verify(
    target: BlockNumber,
    validator_set: ValidatorSetView,
    finality_proof: FinalityProofView,
    verified: Seq<bool>,
) -> bool {
    match finality_proof {
        FinalityProofView::V1(sc) => {
            &&& sc.signatures.len() == validator_set.validators.len()
            &&& sc.commitment.validator_set_id == validator_set.id
            &&& sc.commitment.block_number == target
            &&& spec_valid_signatures(sc.signatures, verified) >= spec_threshold(
                validator_set.validators.len(),
            )
        },
    }
}

/// No more signatures are valid than there are places.
pub proof fn lemma_valid_signatures_bound(signatures: Seq<Option<Seq<u8>>>, verified: Seq<bool>)
    ensures
        spec_valid_signatures(signatures, verified) <= signatures.len(),
    decreases signatures.len(),
{
    if signatures.len() > 0 {
        lemma_valid_signatures_bound(signatures.drop_last(), verified);
    }
}

/// Counts the places of `signatures` that hold a signature which checked out.
fn valid_signatures(signatures: &Vec<Option<Signature>>, verified: &Vec<bool>) -> (r: usize)
    ensures
        r == spec_valid_signatures(signatures_view(signatures@), verified@),
{
    let ghost view = signatures_view(signatures@);
    let mut count: usize = 0;
    let mut i: usize = 0;
    while i < signatures.len()
        invariant
            i <= signatures@.len(),
            view == signatures_view(signatures@),
            count <= i,
            count == spec_valid_signatures(view.take(i as int), verified@),
        decreases signatures@.len() - i,
    {
        proof {
            assert(view.take(i + 1).drop_last() =~= view.take(i as int));
            assert(view.take(i + 1)[i as int] == view[i as int]);
        }
        if signatures[i].is_some() && i < verified.len() && verified[i] {
            count = count + 1;
        }
        i = i + 1;
    }
    proof {
        assert(view.take(view.len() as int) =~= view);
    }
    count
}

/// Verifies `finality_proof` of block `target_number` against `validator_set`.
/// `verified[i]` tells whether the signature at place `i`, if there is one, is
/// that of validator `i` over the proof's commitment.
pub fn verify_with_validator_set(
    target_number: BlockNumber,
    validator_set: &ValidatorSet,
    finality_proof: &VersionedFinalityProof,
    verified: &Vec<bool>,
) -> (r: bool)
    ensures
        r == spec_verify(target_number, validator_set@, finality_proof@, verified@),
{
    match finality_proof {
        VersionedFinalityProof::V1(signed_commitment) => {
            if signed_commitment.signatures.len() != validator_set.len()
                || signed_commitment.commitment.validator_set_id != validator_set.id()
                || signed_commitment.commitment.block_number != target_number {
                return false;
            }
            valid_signatures(&signed_commitment.signatures, verified) >= threshold(
                validator_set.len(),
            )
        },
    }
}

/// The number of validators, among the first `upto`, that have a ballot.
pub open spec fn spec_signers(validators: Seq<Seq<u8>>, ballots: Seq<BallotView>, upto: int) -> nat
    decreases upto,
{
    if upto <= 0 {
        0
    } else {
        spec_signers(validators, ballots, upto - 1) + if ballot_from(
            ballots,
            validators[upto - 1],
            0,
        ).is_some() {
            1nat
        } else {
            0nat
        }
    }
}

/// The number of places, among the first `upto`, that hold `id`.
pub open spec fn spec_occurrences(validators: Seq<Seq<u8>>, id: Seq<u8>, upto: int) -> nat
    decreases upto,
{
    if upto <= 0 {
        0
    } else {
        spec_occurrences(validators, id, upto - 1) + if validators[upto - 1] == id {
            1nat
        } else {
            0nat
        }
    }
}

/// What stands at a place occurs.
proof fn lemma_occurs(validators: Seq<Seq<u8>>, id: Seq<u8>, upto: int, at: int)
    requires
        0 <= at < upto <= validators.len(),
        validators[at] == id,
    ensures
        spec_occurrences(validators, id, upto) >= 1,
    decreases upto,
{
    if at < upto - 1 {
        lemma_occurs(validators, id, upto - 1, at);
    }
}

/// A ballot of one who had none adds as many signers as there are places that
/// hold its validator.
proof fn lemma_signers_push(
    validators: Seq<Seq<u8>>,
    ballots: Seq<BallotView>,
    ballot: BallotView,
    upto: int,
)
    requires
        0 <= upto <= validators.len(),
        forall|j: int| 0 <= j < ballots.len() ==> (#[trigger] ballots[j]).id != ballot.id,
    ensures
        spec_signers(validators, ballots.push(ballot), upto) == spec_signers(
            validators,
            ballots,
            upto,
        ) + spec_occurrences(validators, ballot.id, upto),
    decreases upto,
{
    if upto > 0 {
        lemma_signers_push(validators, ballots, ballot, upto - 1);
        let id = validators[upto - 1];
        let more = ballots.push(ballot);
        lemma_ballot_from(ballots, id, 0);
        lemma_ballot_from(more, id, 0);
        if id == ballot.id {
            assert(more[more.len() - 1].id == id);
        } else {
            match ballot_from(ballots, id, 0) {
                Some(j) => {
                    assert(more[j].id == id);
                },
                None => {
                    assert forall|j: int| 0 <= j < more.len() implies (#[trigger] more[j]).id
                        != id by {
                        if j < ballots.len() {
                            assert(more[j] == ballots[j]);
                        }
                    }
                },
            }
        }
    }
}

/// Where no validator has two ballots and each ballot is a validator's, at
/// least as many validators have a ballot as there are ballots.
pub proof fn lemma_signers_at_least_ballots(validators: Seq<Seq<u8>>, ballots: Seq<BallotView>)
    requires
        forall|a: int, b: int|
            0 <= a < b < ballots.len() ==> (#[trigger] ballots[a]).id != (#[trigger] ballots[b]).id,
        forall|b: int| 0 <= b < ballots.len() ==> validators.contains((#[trigger] ballots[b]).id),
    ensures
        spec_signers(validators, ballots, validators.len() as int) >= ballots.len(),
    decreases ballots.len(),
{
    if ballots.len() > 0 {
        let front = ballots.drop_last();
        let last = ballots.last();
        assert forall|b: int| 0 <= b < front.len() implies validators.contains(
            (#[trigger] front[b]).id,
        ) by {
            assert(front[b] == ballots[b]);
        }
        lemma_signers_at_least_ballots(validators, front);
        assert forall|j: int| 0 <= j < front.len() implies (#[trigger] front[j]).id != last.id by {
            assert(front[j] == ballots[j]);
        }
        lemma_signers_push(validators, front, last, validators.len() as int);
        assert(front.push(last) =~= ballots);
        assert(validators.contains(ballots[ballots.len() - 1].id));
        let at = choose|at: int| 0 <= at < validators.len() && validators[at] == last.id;
        lemma_occurs(validators, last.id, validators.len() as int, at);
    }
}

/// Where every signature that stands in the proof checks out, the valid
/// signatures are as many as the validators that have a ballot.
proof fn lemma_valid_signatures_are_signers(
    validators: Seq<Seq<u8>>,
    ballots: Seq<BallotView>,
    signatures: Seq<Option<Seq<u8>>>,
    verified: Seq<bool>,
    upto: int,
)
    requires
        0 <= upto <= validators.len(),
        signatures.len() == validators.len(),
        forall|v: int|
            0 <= v < validators.len() ==> #[trigger] signatures[v] == signature_of(
                ballots,
                validators[v],
            ),
        forall|v: int|
            0 <= v < validators.len() && (#[trigger] signatures[v]).is_some() ==> v
                < verified.len() && verified[v],
    ensures
        spec_valid_signatures(signatures.take(upto), verified) == spec_signers(
            validators,
            ballots,
            upto,
        ),
    decreases upto,
{
    if upto > 0 {
        lemma_valid_signatures_are_signers(validators, ballots, signatures, verified, upto - 1);
        assert(signatures.take(upto).drop_last() =~= signatures.take(upto - 1));
        assert(signatures.take(upto)[upto - 1] == signatures[upto - 1]);
    }
}

/// What a round concludes with is a valid proof: where every signature in it
/// checks out, the proof made of the signatures of a round that concludes is
/// valid for the session's validator set.
pub proof fn lemma_concluded_proof_is_valid(
    s: RoundsView,
    payload: Seq<PayloadEntryView>,
    number: BlockNumber,
    verified: Seq<bool>,
)
    requires
        s.wf(),
        s.concludes(payload, number),
        forall|v: int|
            0 <= v < s.validators.len() && (#[trigger] s.signatures(payload, number)[v]).is_some()
                ==> v < verified.len() && verified[v],
    ensures
        spec_verify(
            number,
            ValidatorSetView { validators: s.validators, id: s.validator_set_id },
            FinalityProofView::V1(
                SignedCommitmentView {
                    commitment: CommitmentView {
                        payload,
                        block_number: number,
                        validator_set_id: s.validator_set_id,
                    },
                    signatures: s.signatures(payload, number),
                },
            ),
            verified,
        ),
{
    let i = s.position(payload, number).unwrap();
    lemma_round_from(s.rounds, payload, number, 0);
    let ballots = s.rounds[i].ballots;
    let signatures = s.signatures(payload, number);
    assert(s.rounds[i].wf());
    assert(s.cast_by_validators(ballots));
    lemma_signers_at_least_ballots(s.validators, ballots);
    lemma_valid_signatures_are_signers(
        s.validators,
        ballots,
        signatures,
        verified,
        s.validators.len() as int,
    );
    assert(signatures.take(s.validators.len() as int) =~= signatures);
}

} // verus!
