//! The plain values that the protocol reads: hashes, identifiers, views of the
//! relay chain, candidate receipts and the data that is made available.

use vstd::prelude::*;

use crate::collections::Key;

verus! {

/// A 256 bit hash.
#[derive(Clone, Copy, Debug, PartialEq, Eq, Hash)]
pub struct H256(pub [u8; 32]);

impl View for H256 {
    type V = H256;

    open spec fn view(&self) -> H256 {
        *self
    }
}

/// Hashes with the same bytes are equal.
pub proof fn lemma_hash_bytes(a: H256, b: H256)
    requires
        a.0@ == b.0@,
    ensures
        a == b,
{
    assert forall|i: int| 0 <= i < 32 implies a.0[i] == b.0[i] by {
        assert(a.0@[i] == b.0@[i]);
    }
    assert(a.0 =~= b.0);
}

fn same_bytes(a: &[u8; 32], b: &[u8; 32]) -> (equal: bool)
    ensures
        equal == (a == b),
{
    let mut i: usize = 0;
    while i < 32
        invariant
            i <= 32,
            forall|j: int| 0 <= j < i ==> a[j] == b[j],
        decreases 32 - i,
    {
        if a[i] != b[i] {
            return false;
        }
        i = i + 1;
    }
    assert(a =~= b);
    true
}

impl H256 {
    /// The hash whose bytes are all zero.
    pub fn zero() -> (hash: H256)
        ensures
            hash.is_zero(),
    {
        H256([0u8; 32])
    }

    /// Whether all bytes are zero.
    pub open spec fn is_zero(self) -> bool {
        forall|i: int| 0 <= i < 32 ==> self.0@[i] == 0u8
    }
}

impl Key for H256 {
    fn same(&self, other: &Self) -> (equal: bool) {
        same_bytes(&self.0, &other.0)
    }

    fn duplicate(&self) -> (copy: Self) {
        *self
    }
}

/// The position of a validator in the validator set.
pub type ValidatorIndex = u32;

/// The identifier of a parachain.
#[derive(Clone, Copy, Debug, PartialEq, Eq, Hash)]
pub struct ParaId(pub u32);

/// The public key of a validator.
#[derive(Clone, Copy, Debug, PartialEq, Eq, Hash)]
pub struct ValidatorId(pub [u8; 32]);

impl View for ValidatorId {
    type V = ValidatorId;

    open spec fn view(&self) -> ValidatorId {
        *self
    }
}

impl Key for ValidatorId {
    fn same(&self, other: &Self) -> (equal: bool) {
        same_bytes(&self.0, &other.0)
    }

    fn duplicate(&self) -> (copy: Self) {
        *self
    }
}

/// The network identity of a peer.
#[derive(Clone, Debug, PartialEq, Eq, Hash)]
pub struct PeerId {
    pub bytes: Vec<u8>,
}

impl View for PeerId {
    type V = Seq<u8>;

    open spec fn view(&self) -> Seq<u8> {
        self.bytes@
    }
}

/// A copy of a byte string.
pub(crate) fn copy_bytes(bytes: &Vec<u8>) -> (copy: Vec<u8>)
    ensures
        copy@ == bytes@,
{
    let copy = bytes.clone();
    assert(copy@ =~= bytes@);
    copy
}

impl Key for PeerId {
    fn same(&self, other: &Self) -> (equal: bool) {
        if self.bytes.len() != other.bytes.len() {
            return false;
        }
        let mut i: usize = 0;
        while i < self.bytes.len()
            invariant
                i <= self.bytes.len(),
                self.bytes.len() == other.bytes.len(),
                forall|j: int| 0 <= j < i ==> self.bytes[j] == other.bytes[j],
            decreases self.bytes.len() - i,
        {
            if self.bytes[i] != other.bytes[i] {
                return false;
            }
            i = i + 1;
        }
        assert(self@ =~= other@);
        true
    }

    fn duplicate(&self) -> (copy: Self) {
        PeerId { bytes: copy_bytes(&self.bytes) }
    }
}

/// The peers of a list, by identity.
pub open spec fn peer_keys(peers: Seq<PeerId>) -> Seq<Seq<u8>> {
    peers.map_values(|p: PeerId| p@)
}

/// A view of the relay chain: the heads that somebody works on.
#[derive(Clone, Debug, PartialEq, Eq)]
pub struct RelayView(pub Vec<H256>);

impl View for RelayView {
    type V = Seq<H256>;

    open spec fn view(&self) -> Seq<H256> {
        self.0@
    }
}

/// The heads of `a` that are not in `b`, in the order of `a`.
pub open spec fn heads_difference(a: Seq<H256>, b: Seq<H256>) -> Seq<H256> {
    a.filter(|h: H256| !b.contains(h))
}

impl RelayView {
    /// The view with no heads.
    pub fn empty() -> (view: RelayView)
        ensures
            view@ == Seq::<H256>::empty(),
    {
        RelayView(Vec::new())
    }

    /// Whether `head` is in the view.
    pub fn contains(&self, head: &H256) -> (found: bool)
        ensures
            found == self@.contains(*head),
    {
        let mut i: usize = 0;
        while i < self.0.len()
            invariant
                i <= self.0.len(),
                forall|j: int| 0 <= j < i ==> self@[j] != *head,
            decreases self.0.len() - i,
        {
            if self.0[i].same(head) {
                assert(self@[i as int] == *head);
                return true;
            }
            i = i + 1;
        }
        false
    }

    /// The heads that are in this view and not in `other`.
    pub fn difference(&self, other: &RelayView) -> (heads: Vec<H256>)
        ensures
            heads@ == heads_difference(self@, other@),
    {
        let mut heads: Vec<H256> = Vec::new();
        let ghost keep = |h: H256| !other@.contains(h);
        let mut i: usize = 0;
        assert(self@.take(0).filter(keep) =~= Seq::<H256>::empty()) by {
            reveal(Seq::filter);
        }
        while i < self.0.len()
            invariant
                i <= self.0.len(),
                keep == |h: H256| !other@.contains(h),
                heads@ == self@.take(i as int).filter(keep),
            decreases self.0.len() - i,
        {
            proof {
                reveal(Seq::filter);
                assert(self@.take(i + 1).drop_last() =~= self@.take(i as int));
                assert(self@.take(i + 1).last() == self@[i as int]);
            }
            if !other.contains(&self.0[i]) {
                heads.push(self.0[i]);
            }
            i = i + 1;
        }
        assert(self@.take(self@.len() as int) =~= self@);
        heads
    }
}

/// What a candidate's descriptor says of the candidate.
#[derive(Clone, Copy, Debug, PartialEq, Eq, Hash)]
pub struct CandidateDescriptor {
    /// The parachain of the candidate.
    pub para_id: ParaId,
    /// The relay chain block that the candidate is built on.
    pub relay_parent: H256,
    /// The hash of the candidate's validation data.
    pub validation_data_hash: H256,
}

/// What a candidate commits to.
#[derive(Clone, Copy, Debug, PartialEq, Eq, Hash)]
pub struct CandidateCommitments {
    /// The root of the trie over the candidate's erasure chunks.
    pub erasure_root: H256,
}

/// A candidate that is pending availability.
#[derive(Clone, Copy, Debug, PartialEq, Eq, Hash)]
pub struct CommittedCandidateReceipt {
    pub descriptor: CandidateDescriptor,
    pub commitments: CandidateCommitments,
}

impl View for CommittedCandidateReceipt {
    type V = CommittedCandidateReceipt;

    open spec fn view(&self) -> CommittedCandidateReceipt {
        *self
    }
}

impl Key for CommittedCandidateReceipt {
    fn same(&self, other: &Self) -> (equal: bool) {
        self.descriptor.para_id.0 == other.descriptor.para_id.0
            && self.descriptor.relay_parent.same(&other.descriptor.relay_parent)
            && self.descriptor.validation_data_hash.same(&other.descriptor.validation_data_hash)
            && self.commitments.erasure_root.same(&other.commitments.erasure_root)
    }

    fn duplicate(&self) -> (copy: Self) {
        *self
    }
}

/// The hash by which a candidate is known.
pub open spec fn candidate_hash(receipt: CommittedCandidateReceipt) -> H256 {
    receipt.descriptor.validation_data_hash
}

/// The hash by which a candidate is known.
pub fn candidate_hash_of(receipt: &CommittedCandidateReceipt) -> (hash: H256)
    ensures
        hash == candidate_hash(*receipt),
{
    receipt.descriptor.validation_data_hash
}

/// The state of an availability core.
#[derive(Clone, Copy, Debug, PartialEq, Eq)]
pub enum CoreState {
    /// The core is occupied by a candidate of a parachain.
    Occupied(ParaId),
    /// A parachain is scheduled on the core.
    Scheduled(ParaId),
    /// The core is free.
    Free,
}

/// The parachains on the occupied cores, in the order of the cores.
pub open spec fn occupied(cores: Seq<CoreState>) -> Seq<ParaId>
    decreases cores.len(),
{
    if cores.len() == 0 {
        Seq::empty()
    } else {
        let before = occupied(cores.drop_last());
        match cores.last() {
            CoreState::Occupied(para) => before.push(para),
            _ => before,
        }
    }
}

/// The parachains on the occupied cores.
pub fn occupied_para_ids(cores: &Vec<CoreState>) -> (paras: Vec<ParaId>)
    ensures
        paras@ == occupied(cores@),
{
    let mut paras: Vec<ParaId> = Vec::new();
    let mut i: usize = 0;
    while i < cores.len()
        invariant
            i <= cores.len(),
            paras@ == occupied(cores@.take(i as int)),
        decreases cores.len() - i,
    {
        assert(cores@.take(i + 1).drop_last() =~= cores@.take(i as int));
        if let CoreState::Occupied(para) = cores[i] {
            paras.push(para);
        }
        i = i + 1;
    }
    assert(cores@.take(cores@.len() as int) =~= cores@);
    paras
}

/// The body of a parachain block.
#[derive(Clone, Debug, PartialEq, Eq)]
pub struct BlockData(pub Vec<u8>);

/// A proof of validity.
#[derive(Clone, Debug, PartialEq, Eq)]
pub struct PoV {
    pub block_data: BlockData,
}

/// The head of a parachain.
#[derive(Clone, Debug, PartialEq, Eq)]
pub struct HeadData(pub Vec<u8>);

/// The validation data that all parachains share.
#[derive(Clone, Debug, PartialEq, Eq)]
pub struct GlobalValidationData {
    pub max_code_size: u32,
    pub max_head_data_size: u32,
    pub block_number: u32,
}

impl GlobalValidationData {
    /// Whether every field has its default value.
    pub open spec fn is_default(self) -> bool {
        self.max_code_size == 0 && self.max_head_data_size == 0 && self.block_number == 0
    }
}

/// The validation data of one parachain.
#[derive(Clone, Debug, PartialEq, Eq)]
pub struct LocalValidationData {
    pub parent_head: HeadData,
    pub balance: u128,
    pub validation_code_hash: H256,
    pub code_upgrade_allowed: Option<u32>,
}

impl LocalValidationData {
    /// Whether every field has its default value.
    pub open spec fn is_default(self) -> bool {
        &&& self.parent_head.0@ == Seq::<u8>::empty()
        &&& self.balance == 0
        &&& self.validation_code_hash.is_zero()
        &&& self.code_upgrade_allowed is None
    }
}

/// The validation data that the proof of validity leaves out.
#[derive(Clone, Debug, PartialEq, Eq)]
pub struct OmittedValidationData {
    pub global_validation: GlobalValidationData,
    pub local_validation: LocalValidationData,
}

/// The data of a candidate that is made available.
#[derive(Clone, Debug, PartialEq, Eq)]
pub struct AvailableData {
    pub pov: PoV,
    pub omitted_validation: OmittedValidationData,
}

/// The global validation data at a relay parent: its default.
pub fn query_global_validation_data(relay_parent: H256) -> (data: GlobalValidationData)
    ensures
        data.is_default(),
{
    GlobalValidationData { max_code_size: 0, max_head_data_size: 0, block_number: 0 }
}

/// The local validation data at a relay parent: its default.
pub fn query_local_validation_data(relay_parent: H256) -> (data: LocalValidationData)
    ensures
        data.is_default(),
{
    LocalValidationData {
        parent_head: HeadData(Vec::new()),
        balance: 0,
        validation_code_hash: H256::zero(),
        code_upgrade_allowed: None,
    }
}

/// The validation data that is made available beside a proof of validity.
pub fn query_omitted_validation_data(relay_parent: H256) -> (data: OmittedValidationData)
    ensures
        data.global_validation.is_default(),
        data.local_validation.is_default(),
{
    let global_validation = query_global_validation_data(relay_parent);
    let local_validation = query_local_validation_data(relay_parent);
    OmittedValidationData { global_validation, local_validation }
}

/// Whether `i` is the position of the first validator whose key is among `keys`.
pub open spec fn first_held(validators: Seq<ValidatorId>, keys: Seq<ValidatorId>, i: int) -> bool {
    &&& 0 <= i < validators.len()
    &&& keys.contains(validators[i])
    &&& forall|j: int| 0 <= j < i ==> !keys.contains(#[trigger] validators[j])
}

/// The index under which the holder of `keys` is in the validator set.
pub open spec fn our_validator_index(
    validators: Seq<ValidatorId>,
    keys: Seq<ValidatorId>,
) -> Option<ValidatorIndex> {
    if exists|i: int| first_held(validators, keys, i) {
        Some((choose|i: int| first_held(validators, keys, i)) as ValidatorIndex)
    } else {
        None
    }
}

/// The index under which this node is in the validator set: that of the first
/// validator whose key is among `keys`, the keys that this node can sign with.
pub fn obtain_our_validator_index(
    validators: &Vec<ValidatorId>,
    keys: &Vec<ValidatorId>,
) -> (index: Option<ValidatorIndex>)
    ensures
        index == our_validator_index(validators@, keys@),
{
    let mut i: usize = 0;
    while i < validators.len()
        invariant
            i <= validators.len(),
            forall|j: int| 0 <= j < i ==> !keys@.contains(#[trigger] validators@[j]),
        decreases validators.len() - i,
    {
        let mut k: usize = 0;
        while k < keys.len()
            invariant
                i < validators.len(),
                k <= keys.len(),
                forall|j: int| 0 <= j < i ==> !keys@.contains(#[trigger] validators@[j]),
                forall|j: int| 0 <= j < k ==> keys@[j] != validators@[i as int],
            decreases keys.len() - k,
        {
            if keys[k].same(&validators[i]) {
                assert(keys@[k as int] == validators@[i as int]);
                assert(first_held(validators@, keys@, i as int));
                let ghost first = choose|i: int| first_held(validators@, keys@, i);
                assert(first == i) by {
                    assert(first_held(validators@, keys@, first));
                    if first < i {
                        assert(!keys@.contains(validators@[first]));
                    }
                    if i < first {
                        assert(!keys@.contains(validators@[i as int]));
                    }
                }
                return Some(i as u32);
            }
            k = k + 1;
        }
        i = i + 1;
    }
    None
}

} // verus!
