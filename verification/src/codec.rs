//! The wire format of commitments, votes, signed commitments and finality
//! proofs: for each the bytes it is written as, how bytes are read back, and
//! the proof that what is read back is what was written.
//!
//! Fields follow one another in the order of their declaration. A list has its
//! length in compact form in front; an optional signature has a byte 0 or 1 in
//! front; a finality proof has its version in front.

use crate::seqs::lemma_skip_skip;
use crate::types::{
    signatures_view, AuthorityId, Commitment, CommitmentView, FinalityProofView,
    Payload, PayloadEntry, PayloadEntryView, Signature, SignedCommitment, SignedCommitmentView,
    ValidatorSetView, VersionedFinalityProof, VoteMessage, VoteView,
};
use crate::wire::{
    lemma_bytes_round_trip, lemma_compact_round_trip, lemma_u32_round_trip, lemma_u64_round_trip,
    put_bytes, put_compact, put_u32, put_u64, spec_bytes, spec_compact, spec_parse_bytes,
    spec_parse_compact, spec_parse_u32, spec_parse_u64, spec_u32_le, spec_u64_le, take_bytes,
    take_compact, take_u32, take_u64,
};
use vstd::prelude::*;

verus! {

/// The items of `s`, each written by `enc`, one after the other.
pub open spec fn spec_items<A>(s: Seq<A>, enc: spec_fn(A) -> Seq<u8>) -> Seq<u8>
    decreases s.len(),
{
    if s.len() == 0 {
        Seq::empty()
    } else {
        spec_items(s.drop_last(), enc) + enc(s.last())
    }
}

/// Reads `count` items from the front of `s`, each by `parse`.
pub open spec fn spec_parse_items<A>(
    s: Seq<u8>,
    count: nat,
    parse: spec_fn(Seq<u8>) -> Option<(A, int)>,
) -> Option<(Seq<A>, int)>
    decreases count,
{
    if count == 0 {
        Some((Seq::empty(), 0))
    } else {
        match parse(s) {
            Some((a, k)) => match spec_parse_items(s.skip(k), (count - 1) as nat, parse) {
                Some((rest, m)) => Some((seq![a] + rest, k + m)),
                None => None,
            },
            None => None,
        }
    }
}

/// A list on the wire: the number of its items in compact form, then the
/// items.
pub open spec fn spec_list<A>(s: Seq<A>, enc: spec_fn(A) -> Seq<u8>) -> Seq<u8> {
    spec_compact(s.len() as u32) + spec_items(s, enc)
}

/// Reads a list from the front of `s`.
pub open spec fn spec_parse_list<A>(s: Seq<u8>, parse: spec_fn(Seq<u8>) -> Option<(A, int)>) -> Option<
    (Seq<A>, int),
> {
    match spec_parse_compact(s) {
        Some((n, k)) => match spec_parse_items(s.skip(k), n as nat, parse) {
            Some((items, m)) => Some((items, k + m)),
            None => None,
        },
        None => None,
    }
}

/// What has been read so far, followed by what reading the rest gives.
pub open spec fn spec_joined<A>(front: Seq<A>, used: int, rest: Option<(Seq<A>, int)>) -> Option<
    (Seq<A>, int),
> {
    match rest {
        Some((items, m)) => Some((front + items, used + m)),
        None => None,
    }
}

/// Reading one item off the front leaves one item less to read.
pub proof fn lemma_parse_items_step<A>(
    s: Seq<u8>,
    count: nat,
    parse: spec_fn(Seq<u8>) -> Option<(A, int)>,
    front: Seq<A>,
    used: int,
)
    requires
        count > 0,
    ensures
        match parse(s) {
            Some((a, k)) => spec_joined(front, used, spec_parse_items(s, count, parse))
                == spec_joined(
                front.push(a),
                used + k,
                spec_parse_items(s.skip(k), (count - 1) as nat, parse),
            ),
            None => spec_parse_items(s, count, parse).is_none(),
        },
{
    match parse(s) {
        Some((a, k)) => {
            let rest = spec_parse_items(s.skip(k), (count - 1) as nat, parse);
            if rest.is_some() {
                assert(front + (seq![a] + rest.unwrap().0) =~= front.push(a) + rest.unwrap().0);
            }
        },
        None => {},
    }
}

/// With no item left to read, what has been read is the result.
pub proof fn lemma_parse_items_done<A>(
    s: Seq<u8>,
    parse: spec_fn(Seq<u8>) -> Option<(A, int)>,
    front: Seq<A>,
    used: int,
)
    ensures
        spec_joined(front, used, spec_parse_items(s, 0, parse)) == Some((front, used)),
        spec_joined(Seq::<A>::empty(), 0, spec_parse_items(s, 0, parse)) == spec_parse_items(
            s,
            0,
            parse,
        ),
{
    assert(front + Seq::<A>::empty() =~= front);
}

/// Nothing read yet, all is to read.
pub proof fn lemma_parse_items_start<A>(
    s: Seq<u8>,
    count: nat,
    parse: spec_fn(Seq<u8>) -> Option<(A, int)>,
)
    ensures
        spec_joined(Seq::<A>::empty(), 0, spec_parse_items(s, count, parse)) == spec_parse_items(
            s,
            count,
            parse,
        ),
{
    let rest = spec_parse_items(s, count, parse);
    if rest.is_some() {
        assert(Seq::<A>::empty() + rest.unwrap().0 =~= rest.unwrap().0);
    }
}

/// The items of a sequence are its first item, then the others.
pub proof fn lemma_items_front<A>(s: Seq<A>, enc: spec_fn(A) -> Seq<u8>)
    requires
        s.len() > 0,
    ensures
        spec_items(s, enc) == enc(s[0]) + spec_items(s.skip(1), enc),
    decreases s.len(),
{
    if s.len() == 1 {
        assert(s.drop_last() =~= Seq::<A>::empty());
        assert(s.skip(1) =~= Seq::<A>::empty());
        assert(spec_items(s, enc) =~= enc(s[0]) + spec_items(s.skip(1), enc));
    } else {
        lemma_items_front(s.drop_last(), enc);
        assert(s.drop_last().skip(1) =~= s.skip(1).drop_last());
        assert(s.skip(1).last() == s.last());
        assert(s.drop_last()[0] == s[0]);
        assert(spec_items(s, enc) =~= enc(s[0]) + spec_items(s.skip(1), enc));
    }
}

/// Items read back are the items written, where each item is.
pub proof fn lemma_items_round_trip<A>(
    s: Seq<A>,
    enc: spec_fn(A) -> Seq<u8>,
    parse: spec_fn(Seq<u8>) -> Option<(A, int)>,
    rest: Seq<u8>,
)
    requires
        forall|i: int, r: Seq<u8>|
            0 <= i < s.len() ==> #[trigger] parse(enc(s[i]) + r) == Some(
                (s[i], enc(s[i]).len() as int),
            ),
    ensures
        spec_parse_items(spec_items(s, enc) + rest, s.len(), parse) == Some(
            (s, spec_items(s, enc).len() as int),
        ),
    decreases s.len(),
{
    if s.len() == 0 {
        assert(s =~= Seq::<A>::empty());
    } else {
        let a = s[0];
        let tail = s.skip(1);
        lemma_items_front(s, enc);
        let bytes = spec_items(s, enc) + rest;
        assert(bytes =~= enc(a) + (spec_items(tail, enc) + rest));
        assert(parse(enc(s[0]) + (spec_items(tail, enc) + rest)) == Some(
            (a, enc(a).len() as int),
        ));
        assert(bytes.skip(enc(a).len() as int) =~= spec_items(tail, enc) + rest);
        assert forall|i: int, r: Seq<u8>| 0 <= i < tail.len() implies #[trigger] parse(
            enc(tail[i]) + r,
        ) == Some((tail[i], enc(tail[i]).len() as int)) by {
            assert(tail[i] == s[i + 1]);
            assert(parse(enc(s[i + 1]) + r) == Some((s[i + 1], enc(s[i + 1]).len() as int)));
        }
        lemma_items_round_trip(tail, enc, parse, rest);
        assert(seq![a] + tail =~= s);
    }
}

/// A list read back is the list written, where each item is.
pub proof fn lemma_list_round_trip<A>(
    s: Seq<A>,
    enc: spec_fn(A) -> Seq<u8>,
    parse: spec_fn(Seq<u8>) -> Option<(A, int)>,
    rest: Seq<u8>,
)
    requires
        s.len() <= u32::MAX,
        forall|i: int, r: Seq<u8>|
            0 <= i < s.len() ==> #[trigger] parse(enc(s[i]) + r) == Some(
                (s[i], enc(s[i]).len() as int),
            ),
    ensures
        spec_parse_list(spec_list(s, enc) + rest, parse) == Some(
            (s, spec_list(s, enc).len() as int),
        ),
{
    let n = s.len() as u32;
    let bytes = spec_list(s, enc) + rest;
    assert(bytes =~= spec_compact(n) + (spec_items(s, enc) + rest));
    lemma_compact_round_trip(n, spec_items(s, enc) + rest);
    assert(bytes.skip(spec_compact(n).len() as int) =~= spec_items(s, enc) + rest);
    lemma_items_round_trip(s, enc, parse, rest);
}

/// A payload entry on the wire: its two-byte tag, then its bytes as a byte
/// string.
pub open spec fn spec_entry(e: PayloadEntryView) -> Seq<u8> {
    e.id + spec_bytes(e.data)
}

/// Reads a payload entry from the front of `s`.
pub open spec fn spec_parse_entry(s: Seq<u8>) -> Option<(PayloadEntryView, int)> {
    if s.len() < 2 {
        None
    } else {
        match spec_parse_bytes(s.skip(2)) {
            Some((data, k)) => Some((PayloadEntryView { id: s.take(2), data }, 2 + k)),
            None => None,
        }
    }
}

/// Whether the entry can be written: its tag has two bytes and the length of
/// its bytes fits 32 bits.
pub open spec fn entry_fits(e: PayloadEntryView) -> bool {
    e.id.len() == 2 && e.data.len() <= u32::MAX
}

/// How an entry is written, as a function.
pub open spec fn entry_enc() -> spec_fn(PayloadEntryView) -> Seq<u8> {
    |e: PayloadEntryView| spec_entry(e)
}

/// How an entry is read, as a function.
pub open spec fn entry_parse() -> spec_fn(Seq<u8>) -> Option<(PayloadEntryView, int)> {
    |s: Seq<u8>| spec_parse_entry(s)
}

/// How a byte string is written, as a function.
pub open spec fn bytes_enc() -> spec_fn(Seq<u8>) -> Seq<u8> {
    |b: Seq<u8>| spec_bytes(b)
}

/// How a byte string is read, as a function.
pub open spec fn bytes_parse() -> spec_fn(Seq<u8>) -> Option<(Seq<u8>, int)> {
    |s: Seq<u8>| spec_parse_bytes(s)
}

/// An optional signature on the wire: a byte 0 for none; a byte 1 and the
/// signature as a byte string.
pub open spec fn spec_opt_sig(o: Option<Seq<u8>>) -> Seq<u8> {
    match o {
        Some(sig) => seq![1u8] + spec_bytes(sig),
        None => seq![0u8],
    }
}

/// Reads an optional signature from the front of `s`.
pub open spec fn spec_parse_opt_sig(s: Seq<u8>) -> Option<(Option<Seq<u8>>, int)> {
    if s.len() == 0 {
        None
    } else if s[0] == 0 {
        Some((None, 1))
    } else if s[0] == 1 {
        match spec_parse_bytes(s.skip(1)) {
            Some((sig, k)) => Some((Some(sig), 1 + k)),
            None => None,
        }
    } else {
        None
    }
}

/// Whether the optional signature can be written.
pub open spec fn opt_sig_fits(o: Option<Seq<u8>>) -> bool {
    match o {
        Some(sig) => sig.len() <= u32::MAX,
        None => true,
    }
}

/// How an optional signature is written, as a function.
pub open spec fn opt_sig_enc() -> spec_fn(Option<Seq<u8>>) -> Seq<u8> {
    |o: Option<Seq<u8>>| spec_opt_sig(o)
}

/// How an optional signature is read, as a function.
pub open spec fn opt_sig_parse() -> spec_fn(Seq<u8>) -> Option<(Option<Seq<u8>>, int)> {
    |s: Seq<u8>| spec_parse_opt_sig(s)
}

/// A payload on the wire: the list of its entries.
pub open spec fn spec_payload(p: Seq<PayloadEntryView>) -> Seq<u8> {
    spec_list(p, entry_enc())
}

/// Reads a payload from the front of `s`.
pub open spec fn spec_parse_payload(s: Seq<u8>) -> Option<(Seq<PayloadEntryView>, int)> {
    spec_parse_list(s, entry_parse())
}

/// Whether the payload can be written: the number of its entries fits 32 bits
/// and each entry can be written.
pub open spec fn payload_fits(p: Seq<PayloadEntryView>) -> bool {
    p.len() <= u32::MAX && forall|i: int| 0 <= i < p.len() ==> entry_fits(#[trigger] p[i])
}

/// A commitment on the wire: payload, block number, validator set id.
pub open spec fn spec_commitment(c: CommitmentView) -> Seq<u8> {
    spec_payload(c.payload) + spec_u32_le(c.block_number) + spec_u64_le(c.validator_set_id)
}

/// Reads a commitment from the front of `s`.
pub open spec fn spec_parse_commitment(s: Seq<u8>) -> Option<(CommitmentView, int)> {
    match spec_parse_payload(s) {
        Some((payload, k)) => match spec_parse_u32(s.skip(k)) {
            Some((block_number, k2)) => match spec_parse_u64(s.skip(k + k2)) {
                Some((validator_set_id, k3)) => Some(
                    (CommitmentView { payload, block_number, validator_set_id }, k + k2 + k3),
                ),
                None => None,
            },
            None => None,
        },
        None => None,
    }
}

/// Whether the commitment can be written.
pub open spec fn commitment_fits(c: CommitmentView) -> bool {
    payload_fits(c.payload)
}

/// A vote on the wire: commitment, then the voter's key and the signature as
/// byte strings.
pub open spec fn spec_vote(v: VoteView) -> Seq<u8> {
    spec_commitment(v.commitment) + spec_bytes(v.id) + spec_bytes(v.signature)
}

/// Reads a vote from the front of `s`.
pub open spec fn spec_parse_vote(s: Seq<u8>) -> Option<(VoteView, int)> {
    match spec_parse_commitment(s) {
        Some((commitment, k)) => match spec_parse_bytes(s.skip(k)) {
            Some((id, k2)) => match spec_parse_bytes(s.skip(k + k2)) {
                Some((signature, k3)) => Some((VoteView { commitment, id, signature }, k + k2 + k3)),
                None => None,
            },
            None => None,
        },
        None => None,
    }
}

/// Whether the vote can be written.
pub open spec fn vote_fits(v: VoteView) -> bool {
    commitment_fits(v.commitment) && v.id.len() <= u32::MAX && v.signature.len() <= u32::MAX
}

/// Whether the signatures can be written.
pub open spec fn signatures_fit(sigs: Seq<Option<Seq<u8>>>) -> bool {
    sigs.len() <= u32::MAX && forall|i: int| 0 <= i < sigs.len() ==> opt_sig_fits(#[trigger] sigs[i])
}

/// A signed commitment on the wire: commitment, then the list of optional
/// signatures.
pub open spec fn spec_signed_commitment(sc: SignedCommitmentView) -> Seq<u8> {
    spec_commitment(sc.commitment) + spec_list(sc.signatures, opt_sig_enc())
}

/// Reads a signed commitment from the front of `s`.
pub open spec fn spec_parse_signed_commitment(s: Seq<u8>) -> Option<(SignedCommitmentView, int)> {
    match spec_parse_commitment(s) {
        Some((commitment, k)) => match spec_parse_list(s.skip(k), opt_sig_parse()) {
            Some((signatures, k2)) => Some((SignedCommitmentView { commitment, signatures }, k + k2)),
            None => None,
        },
        None => None,
    }
}

/// Whether the signed commitment can be written.
pub open spec fn signed_commitment_fits(sc: SignedCommitmentView) -> bool {
    commitment_fits(sc.commitment) && signatures_fit(sc.signatures)
}

/// A finality proof on the wire: the byte 1 for its version, then the signed
/// commitment.
pub open spec fn spec_finality_proof(p: FinalityProofView) -> Seq<u8> {
    match p {
        FinalityProofView::V1(sc) => seq![1u8] + spec_signed_commitment(sc),
    }
}

/// Reads a finality proof from the front of `s`. Any version but 1 is refused.
pub open spec fn spec_parse_finality_proof(s: Seq<u8>) -> Option<(FinalityProofView, int)> {
    if s.len() == 0 || s[0] != 1 {
        None
    } else {
        match spec_parse_signed_commitment(s.skip(1)) {
            Some((sc, k)) => Some((FinalityProofView::V1(sc), 1 + k)),
            None => None,
        }
    }
}

/// Whether the finality proof can be written.
pub open spec fn finality_proof_fits(p: FinalityProofView) -> bool {
    match p {
        FinalityProofView::V1(sc) => signed_commitment_fits(sc),
    }
}

/// A validator set on the wire: the list of its validators' keys as byte
/// strings, then its id.
pub open spec fn spec_validator_set(vs: ValidatorSetView) -> Seq<u8> {
    spec_list(vs.validators, bytes_enc()) + spec_u64_le(vs.id)
}

/// Reads a validator set from the front of `s`. A set without validators is
/// refused.
pub open spec fn spec_parse_validator_set(s: Seq<u8>) -> Option<(ValidatorSetView, int)> {
    match spec_parse_list(s, bytes_parse()) {
        Some((validators, k)) => match spec_parse_u64(s.skip(k)) {
            Some((id, k2)) => if validators.len() > 0 {
                Some((ValidatorSetView { validators, id }, k + k2))
            } else {
                None
            },
            None => None,
        },
        None => None,
    }
}

/// Whether the validator set can be written.
pub open spec fn validator_set_fits(vs: ValidatorSetView) -> bool {
    0 < vs.validators.len() <= u32::MAX && forall|i: int|
        0 <= i < vs.validators.len() ==> (#[trigger] vs.validators[i]).len() <= u32::MAX
}

/// A payload entry read back is the entry written.
pub proof fn lemma_entry_round_trip(e: PayloadEntryView, rest: Seq<u8>)
    requires
        entry_fits(e),
    ensures
        spec_parse_entry(spec_entry(e) + rest) == Some((e, spec_entry(e).len() as int)),
{
    let s = spec_entry(e) + rest;
    assert(s.skip(2) =~= spec_bytes(e.data) + rest);
    assert(s.take(2) =~= e.id);
    lemma_bytes_round_trip(e.data, rest);
}

/// An optional signature read back is the one written.
pub proof fn lemma_opt_sig_round_trip(o: Option<Seq<u8>>, rest: Seq<u8>)
    requires
        opt_sig_fits(o),
    ensures
        spec_parse_opt_sig(spec_opt_sig(o) + rest) == Some((o, spec_opt_sig(o).len() as int)),
{
    let s = spec_opt_sig(o) + rest;
    match o {
        Some(sig) => {
            assert(s[0] == 1);
            assert(s.skip(1) =~= spec_bytes(sig) + rest);
            lemma_bytes_round_trip(sig, rest);
        },
        None => {
            assert(s[0] == 0);
        },
    }
}

/// A payload read back is the payload written.
pub proof fn lemma_payload_round_trip(p: Seq<PayloadEntryView>, rest: Seq<u8>)
    requires
        payload_fits(p),
    ensures
        spec_parse_payload(spec_payload(p) + rest) == Some((p, spec_payload(p).len() as int)),
{
    assert forall|i: int, r: Seq<u8>| 0 <= i < p.len() implies #[trigger] entry_parse()(
        entry_enc()(p[i]) + r,
    ) == Some((p[i], entry_enc()(p[i]).len() as int)) by {
        lemma_entry_round_trip(p[i], r);
    }
    lemma_list_round_trip(p, entry_enc(), entry_parse(), rest);
}

/// Encoding and then decoding a commitment gives the commitment back, whatever
/// follows it.
pub proof fn lemma_commitment_round_trip(c: CommitmentView, rest: Seq<u8>)
    requires
        commitment_fits(c),
    ensures
        spec_parse_commitment(spec_commitment(c) + rest) == Some(
            (c, spec_commitment(c).len() as int),
        ),
{
    let p = spec_payload(c.payload);
    let n = spec_u32_le(c.block_number);
    let i = spec_u64_le(c.validator_set_id);
    let s = spec_commitment(c) + rest;
    assert(s =~= p + (n + (i + rest)));
    lemma_payload_round_trip(c.payload, n + (i + rest));
    assert(s.skip(p.len() as int) =~= n + (i + rest));
    lemma_u32_round_trip(c.block_number, i + rest);
    assert(s.skip((p.len() + 4) as int) =~= i + rest);
    lemma_u64_round_trip(c.validator_set_id, rest);
}

/// Encoding and then decoding a vote gives the vote back, whatever follows it.
pub proof fn lemma_vote_round_trip(v: VoteView, rest: Seq<u8>)
    requires
        vote_fits(v),
    ensures
        spec_parse_vote(spec_vote(v) + rest) == Some((v, spec_vote(v).len() as int)),
{
    let c = spec_commitment(v.commitment);
    let a = spec_bytes(v.id);
    let g = spec_bytes(v.signature);
    let s = spec_vote(v) + rest;
    assert(s =~= c + (a + (g + rest)));
    lemma_commitment_round_trip(v.commitment, a + (g + rest));
    assert(s.skip(c.len() as int) =~= a + (g + rest));
    lemma_bytes_round_trip(v.id, g + rest);
    assert(s.skip((c.len() + a.len()) as int) =~= g + rest);
    lemma_bytes_round_trip(v.signature, rest);
}

/// Encoding and then decoding a signed commitment gives it back, whatever
/// follows it.
pub proof fn lemma_signed_commitment_round_trip(sc: SignedCommitmentView, rest: Seq<u8>)
    requires
        signed_commitment_fits(sc),
    ensures
        spec_parse_signed_commitment(spec_signed_commitment(sc) + rest) == Some(
            (sc, spec_signed_commitment(sc).len() as int),
        ),
{
    let c = spec_commitment(sc.commitment);
    let l = spec_list(sc.signatures, opt_sig_enc());
    let s = spec_signed_commitment(sc) + rest;
    assert(s =~= c + (l + rest));
    lemma_commitment_round_trip(sc.commitment, l + rest);
    assert(s.skip(c.len() as int) =~= l + rest);
    let sigs = sc.signatures;
    assert forall|i: int, r: Seq<u8>| 0 <= i < sigs.len() implies #[trigger] opt_sig_parse()(
        opt_sig_enc()(sigs[i]) + r,
    ) == Some((sigs[i], opt_sig_enc()(sigs[i]).len() as int)) by {
        lemma_opt_sig_round_trip(sigs[i], r);
    }
    lemma_list_round_trip(sigs, opt_sig_enc(), opt_sig_parse(), rest);
}

/// Encoding and then decoding a finality proof gives it back, whatever
/// follows it.
pub proof fn lemma_finality_proof_round_trip(p: FinalityProofView, rest: Seq<u8>)
    requires
        finality_proof_fits(p),
    ensures
        spec_parse_finality_proof(spec_finality_proof(p) + rest) == Some(
            (p, spec_finality_proof(p).len() as int),
        ),
{
    match p {
        FinalityProofView::V1(sc) => {
            let s = spec_finality_proof(p) + rest;
            assert(s[0] == 1);
            assert(s.skip(1) =~= spec_signed_commitment(sc) + rest);
            lemma_signed_commitment_round_trip(sc, rest);
        },
    }
}

/// A validator set read back is the set written.
pub proof fn lemma_validator_set_round_trip(vs: ValidatorSetView, rest: Seq<u8>)
    requires
        validator_set_fits(vs),
    ensures
        spec_parse_validator_set(spec_validator_set(vs) + rest) == Some(
            (vs, spec_validator_set(vs).len() as int),
        ),
{
    let l = spec_list(vs.validators, bytes_enc());
    let i = spec_u64_le(vs.id);
    let s = spec_validator_set(vs) + rest;
    assert(s =~= l + (i + rest));
    let ids = vs.validators;
    assert forall|k: int, r: Seq<u8>| 0 <= k < ids.len() implies #[trigger] bytes_parse()(
        bytes_enc()(ids[k]) + r,
    ) == Some((ids[k], bytes_enc()(ids[k]).len() as int)) by {
        lemma_bytes_round_trip(ids[k], r);
    }
    lemma_list_round_trip(ids, bytes_enc(), bytes_parse(), i + rest);
    assert(s.skip(l.len() as int) =~= i + rest);
    lemma_u64_round_trip(vs.id, rest);
}

/// Value of a list of payload entries.
pub open spec fn entries_view(entries: Seq<PayloadEntry>) -> Seq<PayloadEntryView> {
    Seq::new(entries.len(), |i: int| entries[i]@)
}

/// Value of an optional signature.
pub open spec fn opt_sig_view(o: Option<Signature>) -> Option<Seq<u8>> {
    match o {
        Some(sig) => Some(sig@),
        None => None,
    }
}

/// Whether the byte string can be written.
fn bytes_fit(b: &Vec<u8>) -> (r: bool)
    ensures
        r == (b@.len() <= u32::MAX),
{
    b.len() <= 0xffff_ffff
}

/// Whether the payload can be written.
fn payload_fits_wire(p: &Payload) -> (r: bool)
    ensures
        r == payload_fits(p@),
{
    if p.entries.len() > 0xffff_ffff {
        return false;
    }
    let mut i: usize = 0;
    while i < p.entries.len()
        invariant
            i <= p.entries@.len(),
            p@.len() == p.entries@.len(),
            forall|j: int| 0 <= j < i ==> entry_fits(#[trigger] p@[j]),
        decreases p.entries@.len() - i,
    {
        if !bytes_fit(&p.entries[i].data) {
            proof {
                assert(!entry_fits(p@[i as int]));
            }
            return false;
        }
        proof {
            assert(p@[i as int].id.len() == 2);
        }
        i = i + 1;
    }
    true
}

/// Whether the signatures can be written.
fn signatures_fit_wire(sigs: &Vec<Option<Signature>>) -> (r: bool)
    ensures
        r == signatures_fit(signatures_view(sigs@)),
{
    if sigs.len() > 0xffff_ffff {
        return false;
    }
    let ghost view = signatures_view(sigs@);
    let mut i: usize = 0;
    while i < sigs.len()
        invariant
            i <= sigs@.len(),
            view == signatures_view(sigs@),
            forall|j: int| 0 <= j < i ==> opt_sig_fits(#[trigger] view[j]),
        decreases sigs@.len() - i,
    {
        let fits: bool = match &sigs[i] {
            Some(sig) => bytes_fit(&sig.raw),
            None => true,
        };
        if !fits {
            proof {
                assert(!opt_sig_fits(view[i as int]));
            }
            return false;
        }
        proof {
            assert(opt_sig_fits(view[i as int]));
        }
        i = i + 1;
    }
    true
}

/// Appends a payload to `out`.
fn put_payload(out: &mut Vec<u8>, p: &Payload)
    requires
        payload_fits(p@),
    ensures
        final(out)@ == old(out)@ + spec_payload(p@),
{
    put_compact(out, p.entries.len() as u32);
    let ghost start = out@;
    let ghost view = p@;
    let mut i: usize = 0;
    proof {
        assert(view.take(0) =~= Seq::<PayloadEntryView>::empty());
        assert(out@ =~= start + spec_items(view.take(0), entry_enc()));
    }
    while i < p.entries.len()
        invariant
            i <= p.entries@.len(),
            view == p@,
            view.len() == p.entries@.len(),
            payload_fits(view),
            out@ == start + spec_items(view.take(i as int), entry_enc()),
        decreases p.entries@.len() - i,
    {
        let ghost before = out@;
        let e = &p.entries[i];
        out.push(e.id[0]);
        out.push(e.id[1]);
        proof {
            assert(entry_fits(view[i as int]));
        }
        put_bytes(out, &e.data);
        proof {
            let t = view.take(i + 1);
            assert(t.drop_last() =~= view.take(i as int));
            assert(t.last() == view[i as int]);
            assert(e.id@ =~= seq![e.id[0], e.id[1]]);
            assert(out@ =~= before + spec_entry(view[i as int]));
            assert(out@ =~= start + spec_items(t, entry_enc()));
        }
        i = i + 1;
    }
    proof {
        assert(view.take(view.len() as int) =~= view);
        assert(out@ =~= old(out)@ + spec_payload(view));
    }
}

/// Appends a list of optional signatures to `out`.
fn put_signatures(out: &mut Vec<u8>, sigs: &Vec<Option<Signature>>)
    requires
        signatures_fit(signatures_view(sigs@)),
    ensures
        final(out)@ == old(out)@ + spec_list(signatures_view(sigs@), opt_sig_enc()),
{
    put_compact(out, sigs.len() as u32);
    let ghost start = out@;
    let ghost view = signatures_view(sigs@);
    let mut i: usize = 0;
    proof {
        assert(view.take(0) =~= Seq::<Option<Seq<u8>>>::empty());
        assert(out@ =~= start + spec_items(view.take(0), opt_sig_enc()));
    }
    while i < sigs.len()
        invariant
            i <= sigs@.len(),
            view == signatures_view(sigs@),
            signatures_fit(view),
            out@ == start + spec_items(view.take(i as int), opt_sig_enc()),
        decreases sigs@.len() - i,
    {
        let ghost before = out@;
        proof {
            assert(opt_sig_fits(view[i as int]));
        }
        match &sigs[i] {
            Some(sig) => {
                out.push(1u8);
                put_bytes(out, &sig.raw);
            },
            None => {
                out.push(0u8);
            },
        }
        proof {
            let t = view.take(i + 1);
            assert(t.drop_last() =~= view.take(i as int));
            assert(t.last() == view[i as int]);
            assert(out@ =~= before + spec_opt_sig(view[i as int]));
            assert(out@ =~= start + spec_items(t, opt_sig_enc()));
        }
        i = i + 1;
    }
    proof {
        assert(view.take(view.len() as int) =~= view);
        assert(out@ =~= old(out)@ + spec_list(view, opt_sig_enc()));
    }
}

/// Appends a commitment to `out`.
fn put_commitment(out: &mut Vec<u8>, c: &Commitment)
    requires
        commitment_fits(c@),
    ensures
        final(out)@ == old(out)@ + spec_commitment(c@),
{
    put_payload(out, &c.payload);
    put_u32(out, c.block_number);
    put_u64(out, c.validator_set_id);
    proof {
        assert(out@ =~= old(out)@ + spec_commitment(c@));
    }
}

/// Appends a signed commitment to `out`.
fn put_signed_commitment(out: &mut Vec<u8>, sc: &SignedCommitment)
    requires
        signed_commitment_fits(sc@),
    ensures
        final(out)@ == old(out)@ + spec_signed_commitment(sc@),
{
    put_commitment(out, &sc.commitment);
    put_signatures(out, &sc.signatures);
    proof {
        assert(out@ =~= old(out)@ + spec_signed_commitment(sc@));
    }
}

/// The bytes of a commitment: what a validator signs. `None` if a length in it
/// does not fit 32 bits.
pub fn encode_commitment(c: &Commitment) -> (r: Option<Vec<u8>>)
    ensures
        r.is_some() == commitment_fits(c@),
        r.is_some() ==> r.unwrap()@ == spec_commitment(c@),
{
    if !payload_fits_wire(&c.payload) {
        return None;
    }
    let mut out: Vec<u8> = Vec::new();
    put_commitment(&mut out, c);
    proof {
        assert(out@ =~= spec_commitment(c@));
    }
    Some(out)
}

/// The bytes of a vote, as gossiped. `None` if a length in it does not fit 32
/// bits.
pub fn encode_vote(v: &VoteMessage) -> (r: Option<Vec<u8>>)
    ensures
        r.is_some() == vote_fits(v@),
        r.is_some() ==> r.unwrap()@ == spec_vote(v@),
{
    if !payload_fits_wire(&v.commitment.payload) || !bytes_fit(&v.id.raw) || !bytes_fit(
        &v.signature.raw,
    ) {
        return None;
    }
    let mut out: Vec<u8> = Vec::new();
    put_commitment(&mut out, &v.commitment);
    put_bytes(&mut out, &v.id.raw);
    put_bytes(&mut out, &v.signature.raw);
    proof {
        assert(out@ =~= spec_vote(v@));
    }
    Some(out)
}

/// The bytes of a signed commitment. `None` if a length in it does not fit 32
/// bits.
pub fn encode_signed_commitment(sc: &SignedCommitment) -> (r: Option<Vec<u8>>)
    ensures
        r.is_some() == signed_commitment_fits(sc@),
        r.is_some() ==> r.unwrap()@ == spec_signed_commitment(sc@),
{
    if !payload_fits_wire(&sc.commitment.payload) || !signatures_fit_wire(&sc.signatures) {
        return None;
    }
    let mut out: Vec<u8> = Vec::new();
    put_signed_commitment(&mut out, sc);
    proof {
        assert(out@ =~= spec_signed_commitment(sc@));
    }
    Some(out)
}

/// The bytes of a finality proof, as stored and sent. `None` if a length in it
/// does not fit 32 bits.
pub fn encode_finality_proof(p: &VersionedFinalityProof) -> (r: Option<Vec<u8>>)
    ensures
        r.is_some() == finality_proof_fits(p@),
        r.is_some() ==> r.unwrap()@ == spec_finality_proof(p@),
{
    match p {
        VersionedFinalityProof::V1(sc) => {
            if !payload_fits_wire(&sc.commitment.payload) || !signatures_fit_wire(&sc.signatures) {
                return None;
            }
            let mut out: Vec<u8> = Vec::new();
            out.push(1u8);
            put_signed_commitment(&mut out, sc);
            proof {
                assert(out@ =~= spec_finality_proof(p@));
            }
            Some(out)
        },
    }
}

/// Reads a payload entry at `pos`. Returns it with the place behind it.
fn take_entry(bytes: &[u8], pos: usize) -> (r: Option<(PayloadEntry, usize)>)
    requires
        pos <= bytes@.len(),
    ensures
        match spec_parse_entry(bytes@.skip(pos as int)) {
            Some((e, k)) => r.is_some() && r.unwrap().0@ == e && r.unwrap().1 == pos + k && 0 <= k && pos + k <= bytes@.len(),
            None => r.is_none(),
        },
{
    if bytes.len() - pos < 2 {
        return None;
    }
    let id: [u8; 2] = [bytes[pos], bytes[pos + 1]];
    proof {
        let s = bytes@.skip(pos as int);
        assert(s.take(2) =~= id@);
        assert(s.skip(2) =~= bytes@.skip(pos + 2));
    }
    match take_bytes(bytes, pos + 2) {
        Some((data, next)) => Some((PayloadEntry { id, data }, next)),
        None => None,
    }
}

/// Reads an optional signature at `pos`. Returns it with the place behind it.
fn take_opt_sig(bytes: &[u8], pos: usize) -> (r: Option<(Option<Signature>, usize)>)
    requires
        pos <= bytes@.len(),
    ensures
        match spec_parse_opt_sig(bytes@.skip(pos as int)) {
            Some((o, k)) => r.is_some() && opt_sig_view(r.unwrap().0) == o && r.unwrap().1 == pos
                + k && 0 <= k && pos + k <= bytes@.len(),
            None => r.is_none(),
        },
{
    if bytes.len() - pos < 1 {
        return None;
    }
    let tag: u8 = bytes[pos];
    proof {
        let s = bytes@.skip(pos as int);
        assert(s[0] == tag);
        assert(s.skip(1) =~= bytes@.skip(pos + 1));
    }
    if tag == 0 {
        Some((None, pos + 1))
    } else if tag == 1 {
        match take_bytes(bytes, pos + 1) {
            Some((raw, next)) => Some((Some(Signature { raw }), next)),
            None => None,
        }
    } else {
        None
    }
}

/// Reads a payload at `pos`. Returns it with the place behind it.
fn take_payload(bytes: &[u8], pos: usize) -> (r: Option<(Payload, usize)>)
    requires
        pos <= bytes@.len(),
    ensures
        match spec_parse_payload(bytes@.skip(pos as int)) {
            Some((p, k)) => r.is_some() && r.unwrap().0@ == p && r.unwrap().1 == pos + k && 0 <= k
                && pos + k <= bytes@.len(),
            None => r.is_none(),
        },
{
    let (n, start) = match take_compact(bytes, pos) {
        Some(x) => x,
        None => {
            return None;
        },
    };
    let ghost whole = spec_parse_items(bytes@.skip(start as int), n as nat, entry_parse());
    let mut entries: Vec<PayloadEntry> = Vec::new();
    let mut at: usize = start;
    let mut i: u32 = 0;
    proof {
        lemma_skip_skip(bytes@, pos as int, start - pos);
        assert(entries_view(entries@) =~= Seq::<PayloadEntryView>::empty());
        lemma_parse_items_start(bytes@.skip(start as int), n as nat, entry_parse());
    }
    while i < n
        invariant
            start <= at <= bytes@.len(),
            i <= n,
            spec_parse_payload(bytes@.skip(pos as int)) == (match whole {
                Some((items, m)) => Some((items, start - pos + m)),
                None => None,
            }),
            whole == spec_joined(
                entries_view(entries@),
                at - start,
                spec_parse_items(bytes@.skip(at as int), (n - i) as nat, entry_parse()),
            ),
        decreases n - i,
    {
        let ghost front = entries_view(entries@);
        proof {
            lemma_parse_items_step(
                bytes@.skip(at as int),
                (n - i) as nat,
                entry_parse(),
                front,
                at - start,
            );
        }
        let (e, next) = match take_entry(bytes, at) {
            Some(x) => x,
            None => {
                return None;
            },
        };
        proof {
            lemma_skip_skip(bytes@, at as int, next - at);
        }
        entries.push(e);
        proof {
            assert(entries_view(entries@) =~= front.push(e@));
        }
        at = next;
        i = i + 1;
    }
    let p = Payload { entries };
    proof {
        assert(p@ =~= entries_view(entries@));
        lemma_parse_items_done(bytes@.skip(at as int), entry_parse(), p@, at - start);
    }
    Some((p, at))
}

/// Reads a list of optional signatures at `pos`. Returns it with the place
/// behind it.
fn take_signatures(bytes: &[u8], pos: usize) -> (r: Option<(Vec<Option<Signature>>, usize)>)
    requires
        pos <= bytes@.len(),
    ensures
        match spec_parse_list(bytes@.skip(pos as int), opt_sig_parse()) {
            Some((sigs, k)) => r.is_some() && signatures_view(r.unwrap().0@) == sigs && r.unwrap().1
                == pos + k && 0 <= k && pos + k <= bytes@.len(),
            None => r.is_none(),
        },
{
    let (n, start) = match take_compact(bytes, pos) {
        Some(x) => x,
        None => {
            return None;
        },
    };
    let ghost whole = spec_parse_items(bytes@.skip(start as int), n as nat, opt_sig_parse());
    let mut sigs: Vec<Option<Signature>> = Vec::new();
    let mut at: usize = start;
    let mut i: u32 = 0;
    proof {
        lemma_skip_skip(bytes@, pos as int, start - pos);
        assert(signatures_view(sigs@) =~= Seq::<Option<Seq<u8>>>::empty());
        lemma_parse_items_start(bytes@.skip(start as int), n as nat, opt_sig_parse());
    }
    while i < n
        invariant
            start <= at <= bytes@.len(),
            i <= n,
            spec_parse_list(bytes@.skip(pos as int), opt_sig_parse()) == (match whole {
                Some((items, m)) => Some((items, start - pos + m)),
                None => None,
            }),
            whole == spec_joined(
                signatures_view(sigs@),
                at - start,
                spec_parse_items(bytes@.skip(at as int), (n - i) as nat, opt_sig_parse()),
            ),
        decreases n - i,
    {
        let ghost front = signatures_view(sigs@);
        proof {
            lemma_parse_items_step(
                bytes@.skip(at as int),
                (n - i) as nat,
                opt_sig_parse(),
                front,
                at - start,
            );
        }
        let (o, next) = match take_opt_sig(bytes, at) {
            Some(x) => x,
            None => {
                return None;
            },
        };
        let ghost value: Option<Seq<u8>> = opt_sig_view(o);
        proof {
            lemma_skip_skip(bytes@, at as int, next - at);
        }
        sigs.push(o);
        proof {
            assert(signatures_view(sigs@) =~= front.push(value));
        }
        at = next;
        i = i + 1;
    }
    proof {
        lemma_parse_items_done(
            bytes@.skip(at as int),
            opt_sig_parse(),
            signatures_view(sigs@),
            at - start,
        );
    }
    Some((sigs, at))
}

/// Reads a commitment at `pos`. Returns it with the place behind it.
fn take_commitment(bytes: &[u8], pos: usize) -> (r: Option<(Commitment, usize)>)
    requires
        pos <= bytes@.len(),
    ensures
        match spec_parse_commitment(bytes@.skip(pos as int)) {
            Some((c, k)) => r.is_some() && r.unwrap().0@ == c && r.unwrap().1 == pos + k && 0 <= k && pos + k <= bytes@.len(),
            None => r.is_none(),
        },
{
    let (payload, at) = match take_payload(bytes, pos) {
        Some(x) => x,
        None => {
            return None;
        },
    };
    proof {
        lemma_skip_skip(bytes@, pos as int, at - pos);
    }
    let (block_number, at2) = match take_u32(bytes, at) {
        Some(x) => x,
        None => {
            return None;
        },
    };
    proof {
        lemma_skip_skip(bytes@, pos as int, at2 - pos);
    }
    let (validator_set_id, at3) = match take_u64(bytes, at2) {
        Some(x) => x,
        None => {
            return None;
        },
    };
    Some((Commitment { payload, block_number, validator_set_id }, at3))
}

/// Reads a signed commitment at `pos`. Returns it with the place behind it.
fn take_signed_commitment(bytes: &[u8], pos: usize) -> (r: Option<(SignedCommitment, usize)>)
    requires
        pos <= bytes@.len(),
    ensures
        match spec_parse_signed_commitment(bytes@.skip(pos as int)) {
            Some((sc, k)) => r.is_some() && r.unwrap().0@ == sc && r.unwrap().1 == pos + k && 0 <= k && pos + k <= bytes@.len(),
            None => r.is_none(),
        },
{
    let (commitment, at) = match take_commitment(bytes, pos) {
        Some(x) => x,
        None => {
            return None;
        },
    };
    proof {
        lemma_skip_skip(bytes@, pos as int, at - pos);
    }
    let (signatures, at2) = match take_signatures(bytes, at) {
        Some(x) => x,
        None => {
            return None;
        },
    };
    Some((SignedCommitment { commitment, signatures }, at2))
}

/// Reads a commitment from the front of `bytes`; what follows it is ignored.
/// `None` where the bytes are no commitment.
pub fn decode_commitment(bytes: &[u8]) -> (r: Option<Commitment>)
    ensures
        match spec_parse_commitment(bytes@) {
            Some((c, _)) => r.is_some() && r.unwrap()@ == c,
            None => r.is_none(),
        },
{
    proof {
        assert(bytes@.skip(0) =~= bytes@);
    }
    match take_commitment(bytes, 0) {
        Some((c, _)) => Some(c),
        None => None,
    }
}

/// Reads a vote from the front of `bytes`; what follows it is ignored. `None`
/// where the bytes are no vote.
pub fn decode_vote(bytes: &[u8]) -> (r: Option<VoteMessage>)
    ensures
        match spec_parse_vote(bytes@) {
            Some((v, _)) => r.is_some() && r.unwrap()@ == v,
            None => r.is_none(),
        },
{
    proof {
        assert(bytes@.skip(0) =~= bytes@);
    }
    let (commitment, at) = match take_commitment(bytes, 0) {
        Some(x) => x,
        None => {
            return None;
        },
    };
    let (id, at2) = match take_bytes(bytes, at) {
        Some(x) => x,
        None => {
            return None;
        },
    };
    proof {
        lemma_skip_skip(bytes@, 0, at as int);
        lemma_skip_skip(bytes@, 0, at2 as int);
    }
    let (signature, _) = match take_bytes(bytes, at2) {
        Some(x) => x,
        None => {
            return None;
        },
    };
    Some(VoteMessage { commitment, id: AuthorityId { raw: id }, signature: Signature { raw: signature } })
}

/// Reads a signed commitment from the front of `bytes`; what follows it is
/// ignored. `None` where the bytes are no signed commitment.
pub fn decode_signed_commitment(bytes: &[u8]) -> (r: Option<SignedCommitment>)
    ensures
        match spec_parse_signed_commitment(bytes@) {
            Some((sc, _)) => r.is_some() && r.unwrap()@ == sc,
            None => r.is_none(),
        },
{
    proof {
        assert(bytes@.skip(0) =~= bytes@);
    }
    match take_signed_commitment(bytes, 0) {
        Some((sc, _)) => Some(sc),
        None => None,
    }
}

/// Reads a finality proof from the front of `bytes`; what follows it is
/// ignored. `None` where the bytes are no finality proof of a known version.
pub fn decode_finality_proof(bytes: &[u8]) -> (r: Option<VersionedFinalityProof>)
    ensures
        match spec_parse_finality_proof(bytes@) {
            Some((p, _)) => r.is_some() && r.unwrap()@ == p,
            None => r.is_none(),
        },
{
    if bytes.len() == 0 || bytes[0] != 1 {
        return None;
    }
    match take_signed_commitment(bytes, 1) {
        Some((sc, _)) => Some(VersionedFinalityProof::V1(sc)),
        None => None,
    }
}

} // verus!
