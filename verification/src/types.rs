//! The data that the voter works on: authorities, payloads, commitments, votes
//! and finality proofs, each with the mathematical value that contracts speak of.

use vstd::prelude::*;

verus! {

/// Height of a block.
pub type BlockNumber = u32;

/// Identity of a validator set. Grows by one with each new set.
pub type ValidatorSetId = u64;

/// Two-byte tag of a payload entry.
pub type BeefyPayloadId = [u8; 2];

/// Tag of the payload entry that carries an MMR root.
pub const MMR_ROOT_ID: [u8; 2] = [109u8, 104u8];

/// Identity of the validator set a chain starts with.
pub const GENESIS_AUTHORITY_SET_ID: u64 = 0;

/// Number of bytes of an MMR root.
pub const HASH_LEN: usize = 32;

/// Whether two byte strings hold the same bytes.
pub fn bytes_eq(a: &Vec<u8>, b: &Vec<u8>) -> (r: bool)
    ensures
        r == (a@ == b@),
{
    if a.len() != b.len() {
        return false;
    }
    let mut i: usize = 0;
    while i < a.len()
        invariant
            a@.len() == b@.len(),
            i <= a@.len(),
            a@.take(i as int) == b@.take(i as int),
        decreases a@.len() - i,
    {
        if a[i] != b[i] {
            return false;
        }
        proof {
            assert(a@.take(i + 1) =~= a@.take(i as int).push(a@[i as int]));
            assert(b@.take(i + 1) =~= b@.take(i as int).push(b@[i as int]));
        }
        i = i + 1;
    }
    proof {
        assert(a@.take(a@.len() as int) =~= a@);
        assert(b@.take(b@.len() as int) =~= b@);
    }
    true
}

/// A copy of a byte string.
pub fn bytes_copy(a: &Vec<u8>) -> (r: Vec<u8>)
    ensures
        r@ == a@,
{
    let mut out: Vec<u8> = Vec::new();
    let mut i: usize = 0;
    while i < a.len()
        invariant
            i <= a@.len(),
            out@ == a@.take(i as int),
        decreases a@.len() - i,
    {
        out.push(a[i]);
        proof {
            assert(a@.take(i + 1) =~= a@.take(i as int).push(a@[i as int]));
        }
        i = i + 1;
    }
    proof {
        assert(a@.take(a@.len() as int) =~= a@);
    }
    out
}

/// Public key of a validator, as raw bytes.
#[derive(Debug, PartialEq, Eq)]
pub struct AuthorityId {
    pub raw: Vec<u8>,
}

impl View for AuthorityId {
    type V = Seq<u8>;

    open spec fn view(&self) -> Seq<u8> {
        self.raw@
    }
}

impl Clone for AuthorityId {
    fn clone(&self) -> (r: Self)
        ensures
            r@ == self@,
    {
        AuthorityId { raw: bytes_copy(&self.raw) }
    }
}

impl AuthorityId {
    pub fn new(raw: Vec<u8>) -> (r: Self)
        ensures
            r@ == raw@,
    {
        AuthorityId { raw }
    }

    /// Whether both keys are the same.
    pub fn same(&self, other: &AuthorityId) -> (r: bool)
        ensures
            r == (self@ == other@),
    {
        bytes_eq(&self.raw, &other.raw)
    }
}

/// Signature of a validator over an encoded commitment, as raw bytes.
#[derive(Debug, PartialEq, Eq)]
pub struct Signature {
    pub raw: Vec<u8>,
}

impl View for Signature {
    type V = Seq<u8>;

    open spec fn view(&self) -> Seq<u8> {
        self.raw@
    }
}

impl Clone for Signature {
    fn clone(&self) -> (r: Self)
        ensures
            r@ == self@,
    {
        Signature { raw: bytes_copy(&self.raw) }
    }
}

impl Signature {
    pub fn new(raw: Vec<u8>) -> (r: Self)
        ensures
            r@ == raw@,
    {
        Signature { raw }
    }
}

/// Root of the Merkle Mountain Range at some block.
#[derive(Debug, PartialEq, Eq)]
pub struct MmrRootHash {
    pub raw: Vec<u8>,
}

impl View for MmrRootHash {
    type V = Seq<u8>;

    open spec fn view(&self) -> Seq<u8> {
        self.raw@
    }
}

impl Clone for MmrRootHash {
    fn clone(&self) -> (r: Self)
        ensures
            r@ == self@,
    {
        MmrRootHash { raw: bytes_copy(&self.raw) }
    }
}

impl MmrRootHash {
    /// A root from its bytes; `None` unless there are exactly `HASH_LEN` of them.
    pub fn new(raw: Vec<u8>) -> (r: Option<Self>)
        ensures
            r.is_some() == (raw@.len() == HASH_LEN),
            r.is_some() ==> r.unwrap()@ == raw@,
    {
        if raw.len() == HASH_LEN {
            Some(MmrRootHash { raw })
        } else {
            None
        }
    }

    /// A root has exactly `HASH_LEN` bytes.
    pub open spec fn wf(&self) -> bool {
        self@.len() == HASH_LEN
    }
}

/// One tagged blob of a payload.
#[derive(Debug, PartialEq, Eq)]
pub struct PayloadEntry {
    pub id: BeefyPayloadId,
    pub data: Vec<u8>,
}

/// Value of a payload entry: its tag and its bytes.
pub struct PayloadEntryView {
    pub id: Seq<u8>,
    pub data: Seq<u8>,
}

impl View for PayloadEntry {
    type V = PayloadEntryView;

    open spec fn view(&self) -> PayloadEntryView {
        PayloadEntryView { id: self.id@, data: self.data@ }
    }
}

impl Clone for PayloadEntry {
    fn clone(&self) -> (r: Self)
        ensures
            r@ == self@,
    {
        let id: [u8; 2] = [self.id[0], self.id[1]];
        proof {
            assert(id@ =~= self.id@);
        }
        PayloadEntry { id, data: bytes_copy(&self.data) }
    }
}

impl PayloadEntry {
    /// Whether both entries carry the same tag and bytes.
    pub fn same(&self, other: &PayloadEntry) -> (r: bool)
        ensures
            r == (self@ == other@),
    {
        let ids: bool = self.id[0] == other.id[0] && self.id[1] == other.id[1];
        proof {
            if ids {
                assert(self.id@ =~= other.id@);
            }
        }
        ids && bytes_eq(&self.data, &other.data)
    }
}

/// What validators sign: a list of tagged blobs.
#[derive(Debug, PartialEq, Eq)]
pub struct Payload {
    pub entries: Vec<PayloadEntry>,
}

impl View for Payload {
    type V = Seq<PayloadEntryView>;

    open spec fn view(&self) -> Seq<PayloadEntryView> {
        Seq::new(self.entries@.len(), |i: int| self.entries@[i]@)
    }
}

impl Clone for Payload {
    fn clone(&self) -> (r: Self)
        ensures
            r@ == self@,
    {
        let mut entries: Vec<PayloadEntry> = Vec::new();
        let mut i: usize = 0;
        while i < self.entries.len()
            invariant
                i <= self.entries@.len(),
                entries@.len() == i,
                forall|j: int| 0 <= j < i ==> (#[trigger] entries@[j])@ == self.entries@[j]@,
            decreases self.entries@.len() - i,
        {
            entries.push(self.entries[i].clone());
            i = i + 1;
        }
        let r = Payload { entries };
        proof {
            assert(r@ =~= self@);
        }
        r
    }
}

impl Payload {
    /// A payload of one entry.
    pub fn new(id: BeefyPayloadId, value: Vec<u8>) -> (r: Self)
        ensures
            r@ == seq![PayloadEntryView { id: id@, data: value@ }],
    {
        let mut entries: Vec<PayloadEntry> = Vec::new();
        entries.push(PayloadEntry { id, data: value });
        let r = Payload { entries };
        proof {
            assert(r@ =~= seq![PayloadEntryView { id: id@, data: value@ }]);
        }
        r
    }

    /// Whether both payloads hold the same entries in the same order.
    pub fn same(&self, other: &Payload) -> (r: bool)
        ensures
            r == (self@ == other@),
    {
        if self.entries.len() != other.entries.len() {
            proof {
                assert(self@.len() != other@.len());
            }
            return false;
        }
        let mut i: usize = 0;
        while i < self.entries.len()
            invariant
                self.entries@.len() == other.entries@.len(),
                i <= self.entries@.len(),
                forall|j: int| 0 <= j < i ==> (#[trigger] self.entries@[j])@ == other.entries@[j]@,
            decreases self.entries@.len() - i,
        {
            if !self.entries[i].same(&other.entries[i]) {
                proof {
                    assert(self@[i as int] != other@[i as int]);
                }
                return false;
            }
            i = i + 1;
        }
        proof {
            assert(self@ =~= other@);
        }
        true
    }

    /// The bytes of the first entry tagged `id`, if there is one.
    pub fn get_raw(&self, id: &BeefyPayloadId) -> (r: Option<&Vec<u8>>)
        ensures
            r.is_some() == exists|j: int| 0 <= j < self@.len() && (#[trigger] self@[j]).id == id@,
            r.is_some() ==> exists|j: int|
                0 <= j < self@.len() && (#[trigger] self@[j]).id == id@ && self@[j].data
                    == r.unwrap()@ && forall|k: int| 0 <= k < j ==> (#[trigger] self@[k]).id != id@,
    {
        let mut i: usize = 0;
        while i < self.entries.len()
            invariant
                i <= self.entries@.len(),
                forall|k: int| 0 <= k < i ==> (#[trigger] self@[k]).id != id@,
            decreases self.entries@.len() - i,
        {
            if self.entries[i].id[0] == id[0] && self.entries[i].id[1] == id[1] {
                proof {
                    assert(self@[i as int].id =~= id@);
                }
                return Some(&self.entries[i].data);
            }
            proof {
                assert(self@[i as int].id != id@);
            }
            i = i + 1;
        }
        None
    }
}

/// The statement that validators sign.
#[derive(Debug, PartialEq, Eq)]
pub struct Commitment {
    pub payload: Payload,
    pub block_number: BlockNumber,
    pub validator_set_id: ValidatorSetId,
}

/// Value of a commitment.
pub struct CommitmentView {
    pub payload: Seq<PayloadEntryView>,
    pub block_number: BlockNumber,
    pub validator_set_id: ValidatorSetId,
}

impl View for Commitment {
    type V = CommitmentView;

    open spec fn view(&self) -> CommitmentView {
        CommitmentView {
            payload: self.payload@,
            block_number: self.block_number,
            validator_set_id: self.validator_set_id,
        }
    }
}

impl Clone for Commitment {
    fn clone(&self) -> (r: Self)
        ensures
            r@ == self@,
    {
        Commitment {
            payload: self.payload.clone(),
            block_number: self.block_number,
            validator_set_id: self.validator_set_id,
        }
    }
}

/// One validator's signed commitment, as gossiped.
#[derive(Debug, PartialEq, Eq)]
pub struct VoteMessage {
    pub commitment: Commitment,
    pub id: AuthorityId,
    pub signature: Signature,
}

/// Value of a vote.
pub struct VoteView {
    pub commitment: CommitmentView,
    pub id: Seq<u8>,
    pub signature: Seq<u8>,
}

impl View for VoteMessage {
    type V = VoteView;

    open spec fn view(&self) -> VoteView {
        VoteView { commitment: self.commitment@, id: self.id@, signature: self.signature@ }
    }
}

impl Clone for VoteMessage {
    fn clone(&self) -> (r: Self)
        ensures
            r@ == self@,
    {
        VoteMessage {
            commitment: self.commitment.clone(),
            id: self.id.clone(),
            signature: self.signature.clone(),
        }
    }
}

/// Value of a list of signatures aligned with a validator set.
pub open spec fn signatures_view(sigs: Seq<Option<Signature>>) -> Seq<Option<Seq<u8>>> {
    Seq::new(
        sigs.len(),
        |i: int|
            match sigs[i] {
                Some(s) => Some(s@),
                None => None,
            },
    )
}

/// A commitment with the signatures of the validators that signed it. Entry `i`
/// belongs to validator `i` of the set.
#[derive(Debug, PartialEq, Eq)]
pub struct SignedCommitment {
    pub commitment: Commitment,
    pub signatures: Vec<Option<Signature>>,
}

/// Value of a signed commitment.
pub struct SignedCommitmentView {
    pub commitment: CommitmentView,
    pub signatures: Seq<Option<Seq<u8>>>,
}

impl View for SignedCommitment {
    type V = SignedCommitmentView;

    open spec fn view(&self) -> SignedCommitmentView {
        SignedCommitmentView {
            commitment: self.commitment@,
            signatures: signatures_view(self.signatures@),
        }
    }
}

/// A copy of a list of optional signatures.
pub fn signatures_copy(sigs: &Vec<Option<Signature>>) -> (r: Vec<Option<Signature>>)
    ensures
        signatures_view(r@) == signatures_view(sigs@),
{
    let mut out: Vec<Option<Signature>> = Vec::new();
    let mut i: usize = 0;
    while i < sigs.len()
        invariant
            i <= sigs@.len(),
            out@.len() == i,
            forall|j: int|
                0 <= j < i ==> signatures_view(out@)[j] == #[trigger] signatures_view(sigs@)[j],
        decreases sigs@.len() - i,
    {
        let item: Option<Signature> = match &sigs[i] {
            Some(s) => Some(s.clone()),
            None => None,
        };
        out.push(item);
        i = i + 1;
    }
    proof {
        assert(signatures_view(out@) =~= signatures_view(sigs@));
    }
    out
}

impl Clone for SignedCommitment {
    fn clone(&self) -> (r: Self)
        ensures
            r@ == self@,
    {
        SignedCommitment {
            commitment: self.commitment.clone(),
            signatures: signatures_copy(&self.signatures),
        }
    }
}

/// A finality proof in one of the known versions.
#[derive(Debug, PartialEq, Eq)]
pub enum VersionedFinalityProof {
    V1(SignedCommitment),
}

/// Value of a finality proof.
pub enum FinalityProofView {
    V1(SignedCommitmentView),
}

impl View for VersionedFinalityProof {
    type V = FinalityProofView;

    open spec fn view(&self) -> FinalityProofView {
        match self {
            VersionedFinalityProof::V1(sc) => FinalityProofView::V1(sc@),
        }
    }
}

impl Clone for VersionedFinalityProof {
    fn clone(&self) -> (r: Self)
        ensures
            r@ == self@,
    {
        match self {
            VersionedFinalityProof::V1(sc) => VersionedFinalityProof::V1(sc.clone()),
        }
    }
}

impl FinalityProofView {
    /// The block that the proof finalizes.
    pub open spec fn block_number(self) -> BlockNumber {
        match self {
            FinalityProofView::V1(sc) => sc.commitment.block_number,
        }
    }

    /// The validator set whose signatures the proof holds.
    pub open spec fn validator_set_id(self) -> ValidatorSetId {
        match self {
            FinalityProofView::V1(sc) => sc.commitment.validator_set_id,
        }
    }
}

impl VersionedFinalityProof {
    /// The block that the proof finalizes.
    pub fn block_number(&self) -> (r: BlockNumber)
        ensures
            r == self@.block_number(),
    {
        match self {
            VersionedFinalityProof::V1(sc) => sc.commitment.block_number,
        }
    }

    /// The validator set whose signatures the proof holds.
    pub fn validator_set_id(&self) -> (r: ValidatorSetId)
        ensures
            r == self@.validator_set_id(),
    {
        match self {
            VersionedFinalityProof::V1(sc) => sc.commitment.validator_set_id,
        }
    }
}

/// Value of a list of authorities.
pub open spec fn authorities_view(ids: Seq<AuthorityId>) -> Seq<Seq<u8>> {
    Seq::new(ids.len(), |i: int| ids[i]@)
}

/// A copy of a list of authorities.
pub fn authorities_copy(ids: &Vec<AuthorityId>) -> (r: Vec<AuthorityId>)
    ensures
        authorities_view(r@) == authorities_view(ids@),
{
    let mut out: Vec<AuthorityId> = Vec::new();
    let mut i: usize = 0;
    while i < ids.len()
        invariant
            i <= ids@.len(),
            out@.len() == i,
            forall|j: int| 0 <= j < i ==> (#[trigger] out@[j])@ == ids@[j]@,
        decreases ids@.len() - i,
    {
        out.push(ids[i].clone());
        i = i + 1;
    }
    proof {
        assert(authorities_view(out@) =~= authorities_view(ids@));
    }
    out
}

/// The validators of one session, in their order, and the set's identity.
/// A set is never empty.
#[derive(Debug, PartialEq, Eq)]
pub struct ValidatorSet {
    validators: Vec<AuthorityId>,
    id: ValidatorSetId,
}

/// Value of a validator set.
pub struct ValidatorSetView {
    pub validators: Seq<Seq<u8>>,
    pub id: ValidatorSetId,
}

impl View for ValidatorSet {
    type V = ValidatorSetView;

    closed spec fn view(&self) -> ValidatorSetView {
        ValidatorSetView { validators: authorities_view(self.validators@), id: self.id }
    }
}

impl Clone for ValidatorSet {
    fn clone(&self) -> (r: Self)
        ensures
            r@ == self@,
            self.wf() ==> r.wf(),
    {
        ValidatorSet { validators: authorities_copy(&self.validators), id: self.id }
    }
}

impl ValidatorSet {
    /// A set holds at least one validator.
    pub open spec fn wf(&self) -> bool {
        self@.validators.len() > 0
    }

    /// The set of the given validators; `None` if there are none.
    pub fn new(validators: Vec<AuthorityId>, id: ValidatorSetId) -> (r: Option<Self>)
        ensures
            r.is_some() == (validators@.len() > 0),
            r.is_some() ==> r.unwrap().wf() && r.unwrap()@ == (ValidatorSetView {
                validators: authorities_view(validators@),
                id,
            }),
    {
        if validators.len() == 0 {
            None
        } else {
            Some(ValidatorSet { validators, id })
        }
    }

    pub fn validators(&self) -> (r: &Vec<AuthorityId>)
        ensures
            authorities_view(r@) == self@.validators,
    {
        &self.validators
    }

    pub fn id(&self) -> (r: ValidatorSetId)
        ensures
            r == self@.id,
    {
        self.id
    }

    pub fn len(&self) -> (r: usize)
        ensures
            r == self@.validators.len(),
    {
        self.validators.len()
    }
}

/// Whether `id` is one of `ids`.
pub fn contains_authority(ids: &Vec<AuthorityId>, id: &AuthorityId) -> (r: bool)
    ensures
        r == authorities_view(ids@).contains(id@),
{
    let mut i: usize = 0;
    while i < ids.len()
        invariant
            i <= ids@.len(),
            forall|j: int| 0 <= j < i ==> authorities_view(ids@)[j] != id@,
        decreases ids@.len() - i,
    {
        if ids[i].same(id) {
            proof {
                assert(authorities_view(ids@)[i as int] == id@);
            }
            return true;
        }
        i = i + 1;
    }
    false
}

} // verus!
