//! Headers and what their digests tell the voter: a change of the validator
//! set, and the MMR root.

use crate::codec::{
    bytes_enc, bytes_parse, lemma_parse_items_done, lemma_parse_items_start,
    lemma_parse_items_step, lemma_validator_set_round_trip, spec_items, spec_joined,
    spec_parse_items, spec_parse_list, spec_parse_validator_set, spec_validator_set,
    validator_set_fits,
};
use crate::seqs::lemma_skip_skip;
use crate::types::{
    authorities_view, AuthorityId, BlockNumber, MmrRootHash, ValidatorSet, ValidatorSetView,
    HASH_LEN,
};
use crate::wire::{
    lemma_u32_round_trip, put_bytes, put_compact, put_u32, put_u64, spec_parse_u32, spec_u32_le,
    take_bytes, take_compact, take_raw, take_u32, take_u64,
};
use vstd::prelude::*;

verus! {

/// Four-byte name of a consensus engine.
pub type ConsensusEngineId = [u8; 4];

/// The name under which this protocol's entries stand in a digest.
pub const BEEFY_ENGINE_ID: [u8; 4] = [66u8, 69u8, 69u8, 70u8];

/// The bytes of `BEEFY_ENGINE_ID`.
pub open spec fn beefy_engine_id() -> Seq<u8> {
    seq![66u8, 69u8, 69u8, 70u8]
}

/// One entry of a header's digest.
#[derive(Debug, PartialEq, Eq)]
pub enum DigestItem {
    /// A message of a consensus engine to the runtime.
    PreRuntime(ConsensusEngineId, Vec<u8>),
    /// A message of the runtime to a consensus engine.
    Consensus(ConsensusEngineId, Vec<u8>),
    /// A seal put on by a consensus engine.
    Seal(ConsensusEngineId, Vec<u8>),
    /// Anything else.
    Other(Vec<u8>),
    /// The runtime code or heap pages changed.
    RuntimeEnvironmentUpdated,
}

/// Value of a digest entry.
pub enum DigestItemView {
    PreRuntime(Seq<u8>, Seq<u8>),
    Consensus(Seq<u8>, Seq<u8>),
    Seal(Seq<u8>, Seq<u8>),
    Other(Seq<u8>),
    RuntimeEnvironmentUpdated,
}

impl View for DigestItem {
    type V = DigestItemView;

    open spec fn view(&self) -> DigestItemView {
        match self {
            DigestItem::PreRuntime(engine, data) => DigestItemView::PreRuntime(engine@, data@),
            DigestItem::Consensus(engine, data) => DigestItemView::Consensus(engine@, data@),
            DigestItem::Seal(engine, data) => DigestItemView::Seal(engine@, data@),
            DigestItem::Other(data) => DigestItemView::Other(data@),
            DigestItem::RuntimeEnvironmentUpdated => DigestItemView::RuntimeEnvironmentUpdated,
        }
    }
}

/// What the voter reads of a block header.
#[derive(Debug, PartialEq, Eq)]
pub struct Header {
    pub number: BlockNumber,
    pub hash: Vec<u8>,
    pub digest: Vec<DigestItem>,
}

/// Value of a header.
pub struct HeaderView {
    pub number: BlockNumber,
    pub hash: Seq<u8>,
    pub digest: Seq<DigestItemView>,
}

/// Value of a digest.
pub open spec fn digest_view(digest: Seq<DigestItem>) -> Seq<DigestItemView> {
    Seq::new(digest.len(), |i: int| digest[i]@)
}

impl View for Header {
    type V = HeaderView;

    open spec fn view(&self) -> HeaderView {
        HeaderView { number: self.number, hash: self.hash@, digest: digest_view(self.digest@) }
    }
}

impl Header {
    /// A header with an empty digest.
    pub fn new(number: BlockNumber, hash: Vec<u8>) -> (r: Self)
        ensures
            r@ == (HeaderView { number, hash: hash@, digest: Seq::empty() }),
    {
        let r = Header { number, hash, digest: Vec::new() };
        proof {
            assert(r@.digest =~= Seq::<DigestItemView>::empty());
        }
        r
    }

    pub fn number(&self) -> (r: BlockNumber)
        ensures
            r == self@.number,
    {
        self.number
    }
}

/// What this protocol's runtime part tells the voter in a digest.
#[derive(Debug, PartialEq, Eq)]
pub enum ConsensusLog {
    /// The validator set has changed.
    AuthoritiesChange(ValidatorSet),
    /// The validator at this place of the set was disabled.
    OnDisabled(u32),
    /// The MMR root at this block.
    MmrRoot(MmrRootHash),
}

/// Value of a consensus log.
pub enum ConsensusLogView {
    AuthoritiesChange(ValidatorSetView),
    OnDisabled(u32),
    MmrRoot(Seq<u8>),
}

impl View for ConsensusLog {
    type V = ConsensusLogView;

    open spec fn view(&self) -> ConsensusLogView {
        match self {
            ConsensusLog::AuthoritiesChange(vs) => ConsensusLogView::AuthoritiesChange(vs@),
            ConsensusLog::OnDisabled(i) => ConsensusLogView::OnDisabled(*i),
            ConsensusLog::MmrRoot(root) => ConsensusLogView::MmrRoot(root@),
        }
    }
}

/// A consensus log on the wire: a byte that tells its kind, 1 for a change of
/// the validator set, 2 for a disabled validator, 3 for an MMR root; then the
/// set, the place as four bytes, or the 32 bytes of the root.
pub open spec fn spec_log(log: ConsensusLogView) -> Seq<u8> {
    match log {
        ConsensusLogView::AuthoritiesChange(vs) => seq![1u8] + spec_validator_set(vs),
        ConsensusLogView::OnDisabled(i) => seq![2u8] + spec_u32_le(i),
        ConsensusLogView::MmrRoot(root) => seq![3u8] + root,
    }
}

/// Reads a consensus log from the front of `s`.
pub open spec fn spec_parse_log(s: Seq<u8>) -> Option<(ConsensusLogView, int)> {
    if s.len() == 0 {
        None
    } else if s[0] == 1 {
        match spec_parse_validator_set(s.skip(1)) {
            Some((vs, k)) => Some((ConsensusLogView::AuthoritiesChange(vs), 1 + k)),
            None => None,
        }
    } else if s[0] == 2 {
        match spec_parse_u32(s.skip(1)) {
            Some((i, k)) => Some((ConsensusLogView::OnDisabled(i), 1 + k)),
            None => None,
        }
    } else if s[0] == 3 {
        if s.len() >= 1 + HASH_LEN {
            Some((ConsensusLogView::MmrRoot(s.subrange(1, 1 + HASH_LEN as int)), 1 + HASH_LEN))
        } else {
            None
        }
    } else {
        None
    }
}

/// Whether the log can be written.
pub open spec fn log_fits(log: ConsensusLogView) -> bool {
    match log {
        ConsensusLogView::AuthoritiesChange(vs) => validator_set_fits(vs),
        ConsensusLogView::OnDisabled(_) => true,
        ConsensusLogView::MmrRoot(root) => root.len() == HASH_LEN,
    }
}

/// Encoding and then decoding a consensus log gives the log back, whatever
/// follows it.
pub proof fn lemma_log_round_trip(log: ConsensusLogView, rest: Seq<u8>)
    requires
        log_fits(log),
    ensures
        spec_parse_log(spec_log(log) + rest) == Some((log, spec_log(log).len() as int)),
{
    let s = spec_log(log) + rest;
    match log {
        ConsensusLogView::AuthoritiesChange(vs) => {
            assert(s[0] == 1);
            assert(s.skip(1) =~= spec_validator_set(vs) + rest);
            lemma_validator_set_round_trip(vs, rest);
        },
        ConsensusLogView::OnDisabled(i) => {
            assert(s[0] == 2);
            assert(s.skip(1) =~= spec_u32_le(i) + rest);
            lemma_u32_round_trip(i, rest);
        },
        ConsensusLogView::MmrRoot(root) => {
            assert(s[0] == 3);
            assert(s.subrange(1, 1 + HASH_LEN as int) =~= root);
        },
    }
}

/// What an entry of a digest tells the voter: the log in it, if the entry is a
/// message to this protocol's engine and reads as a log.
pub open spec fn beefy_log(item: DigestItemView) -> Option<ConsensusLogView> {
    match item {
        DigestItemView::Consensus(engine, data) => if engine == beefy_engine_id() {
            match spec_parse_log(data) {
                Some((log, _)) => Some(log),
                None => None,
            }
        } else {
            None
        },
        _ => None,
    }
}

/// The MMR root that an entry of a digest holds.
pub open spec fn mmr_root_in(item: DigestItemView) -> Option<Seq<u8>> {
    match beefy_log(item) {
        Some(ConsensusLogView::MmrRoot(root)) => Some(root),
        _ => None,
    }
}

/// The new validator set that an entry of a digest announces.
pub open spec fn authorities_change_in(item: DigestItemView) -> Option<ValidatorSetView> {
    match beefy_log(item) {
        Some(ConsensusLogView::AuthoritiesChange(vs)) => Some(vs),
        _ => None,
    }
}

/// The MMR root of the first entry, at or after `from`, that holds one.
pub open spec fn spec_mmr_root_from(digest: Seq<DigestItemView>, from: int) -> Option<Seq<u8>>
    decreases digest.len() - from,
{
    if from < 0 || from >= digest.len() {
        None
    } else if mmr_root_in(digest[from]).is_some() {
        mmr_root_in(digest[from])
    } else {
        spec_mmr_root_from(digest, from + 1)
    }
}

/// The validator set of the first entry, at or after `from`, that announces
/// one.
pub open spec fn spec_authorities_change_from(digest: Seq<DigestItemView>, from: int) -> Option<
    ValidatorSetView,
>
    decreases digest.len() - from,
{
    if from < 0 || from >= digest.len() {
        None
    } else if authorities_change_in(digest[from]).is_some() {
        authorities_change_in(digest[from])
    } else {
        spec_authorities_change_from(digest, from + 1)
    }
}

/// The MMR root that the digest holds: that of its first entry that holds one.
pub open spec fn spec_find_mmr_root(digest: Seq<DigestItemView>) -> Option<Seq<u8>> {
    spec_mmr_root_from(digest, 0)
}

/// The change of the validator set that the digest announces: that of its
/// first entry that announces one.
pub open spec fn spec_find_authorities_change(digest: Seq<DigestItemView>) -> Option<
    ValidatorSetView,
> {
    spec_authorities_change_from(digest, 0)
}

/// Appends a validator set to `out`.
fn put_validator_set(out: &mut Vec<u8>, vs: &ValidatorSet)
    requires
        validator_set_fits(vs@),
    ensures
        final(out)@ == old(out)@ + spec_validator_set(vs@),
{
    let ids = vs.validators();
    put_compact(out, ids.len() as u32);
    let ghost start = out@;
    let ghost view = vs@.validators;
    let mut i: usize = 0;
    proof {
        assert(view.take(0) =~= Seq::<Seq<u8>>::empty());
        assert(out@ =~= start + spec_items(view.take(0), bytes_enc()));
    }
    while i < ids.len()
        invariant
            i <= ids@.len(),
            view == authorities_view(ids@),
            view == vs@.validators,
            validator_set_fits(vs@),
            out@ == start + spec_items(view.take(i as int), bytes_enc()),
        decreases ids@.len() - i,
    {
        proof {
            assert(view[i as int] == ids@[i as int]@);
            assert(view[i as int].len() <= u32::MAX);
        }
        put_bytes(out, &ids[i].raw);
        proof {
            let t = view.take(i + 1);
            assert(t.drop_last() =~= view.take(i as int));
            assert(t.last() == view[i as int]);
            assert(out@ =~= start + spec_items(t, bytes_enc()));
        }
        i = i + 1;
    }
    proof {
        assert(view.take(view.len() as int) =~= view);
    }
    put_u64(out, vs.id());
    proof {
        assert(out@ =~= old(out)@ + spec_validator_set(vs@));
    }
}

/// Whether the validator set can be written.
fn validator_set_fits_wire(vs: &ValidatorSet) -> (r: bool)
    ensures
        r == validator_set_fits(vs@),
{
    let ids = vs.validators();
    if ids.len() == 0 || ids.len() > 0xffff_ffff {
        return false;
    }
    let ghost view = vs@.validators;
    let mut i: usize = 0;
    while i < ids.len()
        invariant
            i <= ids@.len(),
            view == authorities_view(ids@),
            view == vs@.validators,
            forall|j: int| 0 <= j < i ==> (#[trigger] view[j]).len() <= u32::MAX,
        decreases ids@.len() - i,
    {
        proof {
            assert(view[i as int] == ids@[i as int]@);
        }
        if ids[i].raw.len() > 0xffff_ffff {
            proof {
                assert(vs@.validators[i as int].len() > u32::MAX);
            }
            return false;
        }
        i = i + 1;
    }
    true
}

/// Reads a validator set at `pos`. Returns it with the place behind it.
fn take_validator_set(bytes: &[u8], pos: usize) -> (r: Option<(ValidatorSet, usize)>)
    requires
        pos <= bytes@.len(),
    ensures
        match spec_parse_validator_set(bytes@.skip(pos as int)) {
            Some((vs, k)) => r.is_some() && r.unwrap().0@ == vs && r.unwrap().0.wf() && r.unwrap().1
                == pos + k && 0 <= k && pos + k <= bytes@.len(),
            None => r.is_none(),
        },
{
    let (n, start) = match take_compact(bytes, pos) {
        Some(x) => x,
        None => {
            return None;
        },
    };
    let ghost whole = spec_parse_items(bytes@.skip(start as int), n as nat, bytes_parse());
    let mut ids: Vec<AuthorityId> = Vec::new();
    let mut at: usize = start;
    let mut i: u32 = 0;
    proof {
        lemma_skip_skip(bytes@, pos as int, start - pos);
        assert(authorities_view(ids@) =~= Seq::<Seq<u8>>::empty());
        lemma_parse_items_start(bytes@.skip(start as int), n as nat, bytes_parse());
    }
    while i < n
        invariant
            start <= at <= bytes@.len(),
            i <= n,
            spec_parse_list(bytes@.skip(pos as int), bytes_parse()) == (match whole {
                Some((items, m)) => Some((items, start - pos + m)),
                None => None,
            }),
            whole == spec_joined(
                authorities_view(ids@),
                at - start,
                spec_parse_items(bytes@.skip(at as int), (n - i) as nat, bytes_parse()),
            ),
        decreases n - i,
    {
        let ghost front = authorities_view(ids@);
        proof {
            lemma_parse_items_step(
                bytes@.skip(at as int),
                (n - i) as nat,
                bytes_parse(),
                front,
                at - start,
            );
        }
        let (raw, next) = match take_bytes(bytes, at) {
            Some(x) => x,
            None => {
                return None;
            },
        };
        proof {
            lemma_skip_skip(bytes@, at as int, next - at);
        }
        ids.push(AuthorityId { raw });
        proof {
            assert(authorities_view(ids@) =~= front.push(raw@));
        }
        at = next;
        i = i + 1;
    }
    proof {
        lemma_parse_items_done(bytes@.skip(at as int), bytes_parse(), authorities_view(ids@), at - start);
        lemma_skip_skip(bytes@, pos as int, at - pos);
    }
    let (id, at2) = match take_u64(bytes, at) {
        Some(x) => x,
        None => {
            return None;
        },
    };
    match ValidatorSet::new(ids, id) {
        Some(vs) => Some((vs, at2)),
        None => None,
    }
}

/// The bytes of a consensus log, as they stand in a digest. `None` if the log
/// cannot be written: a length in it does not fit 32 bits, or its root has not
/// 32 bytes.
pub fn encode_consensus_log(log: &ConsensusLog) -> (r: Option<Vec<u8>>)
    ensures
        r.is_some() == log_fits(log@),
        r.is_some() ==> r.unwrap()@ == spec_log(log@),
{
    let mut out: Vec<u8> = Vec::new();
    match log {
        ConsensusLog::AuthoritiesChange(vs) => {
            if !validator_set_fits_wire(vs) {
                return None;
            }
            out.push(1u8);
            put_validator_set(&mut out, vs);
        },
        ConsensusLog::OnDisabled(i) => {
            out.push(2u8);
            put_u32(&mut out, *i);
        },
        ConsensusLog::MmrRoot(root) => {
            if root.raw.len() != HASH_LEN {
                return None;
            }
            out.push(3u8);
            out.extend_from_slice(root.raw.as_slice());
        },
    }
    proof {
        assert(out@ =~= spec_log(log@));
    }
    Some(out)
}

/// Reads a consensus log from the front of `bytes`; what follows it is
/// ignored. `None` where the bytes are no consensus log.
pub fn decode_consensus_log(bytes: &[u8]) -> (r: Option<ConsensusLog>)
    ensures
        match spec_parse_log(bytes@) {
            Some((log, _)) => r.is_some() && r.unwrap()@ == log && (match r.unwrap() {
                ConsensusLog::AuthoritiesChange(vs) => vs.wf(),
                ConsensusLog::OnDisabled(_) => true,
                ConsensusLog::MmrRoot(root) => root.wf(),
            }),
            None => r.is_none(),
        },
{
    if bytes.len() == 0 {
        return None;
    }
    let tag: u8 = bytes[0];
    if tag == 1 {
        match take_validator_set(bytes, 1) {
            Some((vs, _)) => Some(ConsensusLog::AuthoritiesChange(vs)),
            None => None,
        }
    } else if tag == 2 {
        match take_u32(bytes, 1) {
            Some((i, _)) => Some(ConsensusLog::OnDisabled(i)),
            None => None,
        }
    } else if tag == 3 {
        if bytes.len() - 1 < HASH_LEN {
            return None;
        }
        let raw = take_raw(bytes, 1, HASH_LEN);
        match MmrRootHash::new(raw) {
            Some(root) => Some(ConsensusLog::MmrRoot(root)),
            None => None,
        }
    } else {
        None
    }
}

/// Whether `engine` names this protocol's engine.
fn is_beefy_engine(engine: &ConsensusEngineId) -> (r: bool)
    ensures
        r == (engine@ == beefy_engine_id()),
{
    let r: bool = engine[0] == 66 && engine[1] == 69 && engine[2] == 69 && engine[3] == 70;
    proof {
        if r {
            assert(engine@ =~= beefy_engine_id());
        } else {
            assert(beefy_engine_id()[0] == 66 && beefy_engine_id()[1] == 69 && beefy_engine_id()[2]
                == 69 && beefy_engine_id()[3] == 70);
        }
    }
    r
}

/// The log that a digest entry holds for this protocol's engine.
fn beefy_log_of(item: &DigestItem) -> (r: Option<ConsensusLog>)
    ensures
        match beefy_log(item@) {
            Some(log) => r.is_some() && r.unwrap()@ == log && (match r.unwrap() {
                ConsensusLog::AuthoritiesChange(vs) => vs.wf(),
                ConsensusLog::OnDisabled(_) => true,
                ConsensusLog::MmrRoot(root) => root.wf(),
            }),
            None => r.is_none(),
        },
{
    match item {
        DigestItem::Consensus(engine, data) => {
            if is_beefy_engine(engine) {
                decode_consensus_log(data.as_slice())
            } else {
                None
            }
        },
        _ => None,
    }
}

/// Extracts the MMR root from the digest of `header`: that of the first entry
/// for this protocol's engine that reads as an MMR root.
pub fn find_mmr_root_digest(header: &Header) -> (r: Option<MmrRootHash>)
    ensures
        match spec_find_mmr_root(header@.digest) {
            Some(root) => r.is_some() && r.unwrap()@ == root && r.unwrap().wf(),
            None => r.is_none(),
        },
{
    let mut i: usize = 0;
    while i < header.digest.len()
        invariant
            i <= header.digest@.len(),
            spec_find_mmr_root(header@.digest) == spec_mmr_root_from(header@.digest, i as int),
        decreases header.digest@.len() - i,
    {
        proof {
            assert(header@.digest[i as int] == header.digest@[i as int]@);
        }
        match beefy_log_of(&header.digest[i]) {
            Some(ConsensusLog::MmrRoot(root)) => {
                return Some(root);
            },
            _ => {},
        }
        i = i + 1;
    }
    None
}

/// Scans the digest of `header` for a change of the validator set: that of the
/// first entry for this protocol's engine that reads as one. `None` if no
/// change has been signaled.
pub fn find_authorities_change(header: &Header) -> (r: Option<ValidatorSet>)
    ensures
        match spec_find_authorities_change(header@.digest) {
            Some(vs) => r.is_some() && r.unwrap()@ == vs && r.unwrap().wf(),
            None => r.is_none(),
        },
{
    let mut i: usize = 0;
    while i < header.digest.len()
        invariant
            i <= header.digest@.len(),
            spec_find_authorities_change(header@.digest) == spec_authorities_change_from(
                header@.digest,
                i as int,
            ),
        decreases header.digest@.len() - i,
    {
        proof {
            assert(header@.digest[i as int] == header.digest@[i as int]@);
        }
        match beefy_log_of(&header.digest[i]) {
            Some(ConsensusLog::AuthoritiesChange(vs)) => {
                return Some(vs);
            },
            _ => {},
        }
        i = i + 1;
    }
    None
}

/// A validator set written into a digest is the one found there: where entry
/// `at` of the digest is a message to this protocol's engine that begins with
/// the bytes of the set's announcement, and no entry before it announces a
/// set, `spec_find_authorities_change` gives that set.
pub proof fn lemma_authorities_change_round_trip(
    digest: Seq<DigestItemView>,
    at: int,
    vs: ValidatorSetView,
    rest: Seq<u8>,
)
    requires
        validator_set_fits(vs),
        0 <= at < digest.len(),
        digest[at] == DigestItemView::Consensus(
            beefy_engine_id(),
            spec_log(ConsensusLogView::AuthoritiesChange(vs)) + rest,
        ),
        forall|j: int| 0 <= j < at ==> authorities_change_in(#[trigger] digest[j]).is_none(),
    ensures
        spec_find_authorities_change(digest) == Some(vs),
{
    lemma_log_round_trip(ConsensusLogView::AuthoritiesChange(vs), rest);
    lemma_authorities_change_skips(digest, 0, at);
}

/// An MMR root written into a digest is the one found there: where entry `at`
/// of the digest is a message to this protocol's engine that begins with the
/// bytes of the root's log, and no entry before it holds a root,
/// `spec_find_mmr_root` gives that root.
pub proof fn lemma_mmr_root_round_trip(
    digest: Seq<DigestItemView>,
    at: int,
    root: Seq<u8>,
    rest: Seq<u8>,
)
    requires
        root.len() == HASH_LEN,
        0 <= at < digest.len(),
        digest[at] == DigestItemView::Consensus(
            beefy_engine_id(),
            spec_log(ConsensusLogView::MmrRoot(root)) + rest,
        ),
        forall|j: int| 0 <= j < at ==> mmr_root_in(#[trigger] digest[j]).is_none(),
    ensures
        spec_find_mmr_root(digest) == Some(root),
{
    lemma_log_round_trip(ConsensusLogView::MmrRoot(root), rest);
    lemma_mmr_root_skips(digest, 0, at);
}

/// The search for a validator set passes the entries that announce none.
proof fn lemma_authorities_change_skips(digest: Seq<DigestItemView>, from: int, at: int)
    requires
        0 <= from <= at < digest.len(),
        forall|j: int| from <= j < at ==> authorities_change_in(#[trigger] digest[j]).is_none(),
    ensures
        spec_authorities_change_from(digest, from) == spec_authorities_change_from(digest, at),
    decreases at - from,
{
    if from < at {
        lemma_authorities_change_skips(digest, from + 1, at);
    }
}

/// The search for an MMR root passes the entries that hold none.
proof fn lemma_mmr_root_skips(digest: Seq<DigestItemView>, from: int, at: int)
    requires
        0 <= from <= at < digest.len(),
        forall|j: int| from <= j < at ==> mmr_root_in(#[trigger] digest[j]).is_none(),
    ensures
        spec_mmr_root_from(digest, from) == spec_mmr_root_from(digest, at),
    decreases at - from,
{
    if from < at {
        lemma_mmr_root_skips(digest, from + 1, at);
    }
}

} // verus!
