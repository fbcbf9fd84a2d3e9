//! Gossip messages: erasure chunks on their way between nodes.

use vstd::prelude::*;

use crate::primitives::{H256, ValidatorIndex, copy_bytes, lemma_hash_bytes};

verus! {

/// A part of a candidate's erasure coded data.
#[derive(Clone, Debug, PartialEq, Eq, Hash)]
pub struct ErasureChunk {
    /// The bytes of the chunk.
    pub chunk: Vec<u8>,
    /// The index of the chunk.
    pub index: ValidatorIndex,
    /// The nodes of the trie branch that proves the chunk.
    pub proof: Vec<Vec<u8>>,
}

/// An erasure chunk that is distributed to other peers.
#[derive(Clone, Debug, PartialEq, Eq, Hash)]
pub struct AvailabilityGossipMessage {
    /// The hash of the candidate that the chunk belongs to.
    pub candidate_hash: H256,
    /// The chunk.
    pub erasure_chunk: ErasureChunk,
}

/// The contents of an erasure chunk.
#[verifier::ext_equal]
pub struct ChunkModel {
    pub chunk: Seq<u8>,
    pub index: ValidatorIndex,
    pub proof: Seq<Seq<u8>>,
}

/// The contents of a gossip message.
#[verifier::ext_equal]
pub struct MessageModel {
    pub candidate_hash: H256,
    pub erasure_chunk: ChunkModel,
}

/// What identifies a message: its candidate and the index of its chunk.
pub type MessageId = (H256, ValidatorIndex);

impl MessageModel {
    /// What identifies the message.
    pub open spec fn id(self) -> MessageId {
        (self.candidate_hash, self.erasure_chunk.index)
    }

    /// Whether every length in the message fits the wire format.
    pub open spec fn encodable(self) -> bool {
        self.erasure_chunk.encodable()
    }
}

impl ChunkModel {
    /// Whether every length in the chunk fits the wire format.
    pub open spec fn encodable(self) -> bool {
        branch_encodable(self.proof, self.chunk)
    }
}

/// Whether the lengths of a chunk and of its branch fit the wire format.
pub open spec fn branch_encodable(proof: Seq<Seq<u8>>, chunk: Seq<u8>) -> bool {
    &&& chunk.len() <= u32::MAX
    &&& proof.len() <= u32::MAX
    &&& forall|i: int| 0 <= i < proof.len() ==> (#[trigger] proof[i]).len() <= u32::MAX
}

/// The contents of a list of byte strings.
pub open spec fn byte_strings(strings: Seq<Vec<u8>>) -> Seq<Seq<u8>> {
    strings.map_values(|s: Vec<u8>| s@)
}

impl View for ErasureChunk {
    type V = ChunkModel;

    open spec fn view(&self) -> ChunkModel {
        ChunkModel {
            chunk: self.chunk@,
            index: self.index,
            proof: byte_strings(self.proof@),
        }
    }
}

impl View for AvailabilityGossipMessage {
    type V = MessageModel;

    open spec fn view(&self) -> MessageModel {
        MessageModel { candidate_hash: self.candidate_hash, erasure_chunk: self.erasure_chunk@ }
    }
}

/// A copy of a list of byte strings.
pub(crate) fn copy_strings(strings: &Vec<Vec<u8>>) -> (copy: Vec<Vec<u8>>)
    ensures
        byte_strings(copy@) == byte_strings(strings@),
{
    let mut copy: Vec<Vec<u8>> = Vec::new();
    let mut i: usize = 0;
    while i < strings.len()
        invariant
            i <= strings.len(),
            copy.len() == i,
            forall|j: int| 0 <= j < i ==> copy[j]@ == strings[j]@,
        decreases strings.len() - i,
    {
        copy.push(copy_bytes(&strings[i]));
        i = i + 1;
    }
    assert(byte_strings(copy@) =~= byte_strings(strings@));
    copy
}

impl ErasureChunk {
    /// A copy of the chunk.
    pub fn duplicate(&self) -> (copy: ErasureChunk)
        ensures
            copy@ == self@,
    {
        ErasureChunk {
            chunk: copy_bytes(&self.chunk),
            index: self.index,
            proof: copy_strings(&self.proof),
        }
    }
}

/// The SCALE encoding of a candidate hash, a chunk's bytes, its index and its
/// branch, one after the other.
pub uninterp spec fn scale_encoding(
    candidate_hash: Seq<u8>,
    chunk: Seq<u8>,
    index: u32,
    proof: Seq<Seq<u8>>,
) -> Seq<u8>;

/// What SCALE decoding reads from the front of `bytes` as a candidate hash, a
/// chunk's bytes, its index and its branch; nothing where they do not decode.
pub uninterp spec fn scale_decoding(bytes: Seq<u8>) -> Option<
    (Seq<u8>, Seq<u8>, u32, Seq<Seq<u8>>),
>;

/// The BLAKE2b hash of `data` with 256 bits.
pub uninterp spec fn blake_two_256(data: Seq<u8>) -> Seq<u8>;

/// Calls `parity_scale_codec::Encode::encode` on the four values as a tuple.
///
/// Trusted: the result is a function of the four values, and
/// `parity_scale_codec::Decode::decode` reads the four values back from it.
/// The encoder panics on a sequence with more than `u32::MAX` items, so such
/// sequences are left out.
#[verifier::external_body]
fn scale_encode(
    candidate_hash: &[u8; 32],
    chunk: &Vec<u8>,
    index: u32,
    proof: &Vec<Vec<u8>>,
) -> (bytes: Vec<u8>)
    requires
        branch_encodable(byte_strings(proof@), chunk@),
    ensures
        bytes@ == scale_encoding(candidate_hash@, chunk@, index, byte_strings(proof@)),
        scale_decoding(bytes@) == Some((candidate_hash@, chunk@, index, byte_strings(proof@))),
{
    parity_scale_codec::Encode::encode(&(candidate_hash, chunk, index, proof))
}

/// Calls `parity_scale_codec::Decode::decode` for the four values as a tuple.
///
/// Trusted: the result is a function of the bytes, and no sequence in it has
/// more than `u32::MAX` items, because the decoder reads each length as a
/// `u32`.
#[verifier::external_body]
fn scale_decode(bytes: &Vec<u8>) -> (decoded: Option<([u8; 32], Vec<u8>, u32, Vec<Vec<u8>>)>)
    ensures
        match decoded {
            Some((candidate_hash, chunk, index, proof)) => {
                &&& scale_decoding(bytes@) == Some(
                    (candidate_hash@, chunk@, index, byte_strings(proof@)),
                )
                &&& branch_encodable(byte_strings(proof@), chunk@)
            },
            None => scale_decoding(bytes@) is None,
        },
{
    parity_scale_codec::Decode::decode(&mut bytes.as_slice()).ok()
}

/// Calls `sp_runtime::traits::BlakeTwo256`'s `hash`.
///
/// Trusted: the result is a function of the data.
#[verifier::external_body]
fn blake_two_256_hash(data: &Vec<u8>) -> (hash: [u8; 32])
    ensures
        hash@ == blake_two_256(data@),
{
    <sp_runtime::traits::BlakeTwo256 as sp_runtime::traits::Hash>::hash(data.as_slice()).0
}

/// Whether `bytes` is `message` on the wire: its encoding, which decodes to it.
pub open spec fn carries(bytes: Seq<u8>, message: MessageModel) -> bool {
    &&& bytes == scale_encoding(
        message.candidate_hash.0@,
        message.erasure_chunk.chunk,
        message.erasure_chunk.index,
        message.erasure_chunk.proof,
    )
    &&& decoded_as(bytes, Some(message))
}

/// The contents of a message, if there is one.
pub open spec fn optional_model(message: Option<AvailabilityGossipMessage>) -> Option<MessageModel> {
    match message {
        Some(m) => Some(m@),
        None => None,
    }
}

/// Whether `message` is what `bytes` decode to.
pub open spec fn decoded_as(bytes: Seq<u8>, message: Option<MessageModel>) -> bool {
    match message {
        Some(m) => scale_decoding(bytes) == Some(
            (
                m.candidate_hash.0@,
                m.erasure_chunk.chunk,
                m.erasure_chunk.index,
                m.erasure_chunk.proof,
            ),
        ),
        None => scale_decoding(bytes) is None,
    }
}

/// Bytes decode to one message only.
pub proof fn law_decoding_is_unique(bytes: Seq<u8>, a: Option<MessageModel>, b: Option<MessageModel>)
    requires
        decoded_as(bytes, a),
        decoded_as(bytes, b),
    ensures
        a == b,
{
    if a is Some && b is Some {
        lemma_hash_bytes(a->0.candidate_hash, b->0.candidate_hash);
    }
}

/// Whether `hash` is the hash of a chunk's bytes.
pub open spec fn is_chunk_hash(hash: H256, chunk: Seq<u8>) -> bool {
    hash.0@ == blake_two_256(chunk)
}

impl AvailabilityGossipMessage {
    /// What identifies the message.
    pub fn id(&self) -> (id: MessageId)
        ensures
            id == self@.id(),
    {
        (self.candidate_hash, self.erasure_chunk.index)
    }

    /// A copy of the message.
    pub fn duplicate(&self) -> (copy: AvailabilityGossipMessage)
        ensures
            copy@ == self@,
    {
        AvailabilityGossipMessage {
            candidate_hash: self.candidate_hash,
            erasure_chunk: self.erasure_chunk.duplicate(),
        }
    }

    /// The message as it goes over the wire.
    pub fn encode(&self) -> (bytes: Vec<u8>)
        requires
            self@.encodable(),
        ensures
            carries(bytes@, self@),
    {
        scale_encode(
            &self.candidate_hash.0,
            &self.erasure_chunk.chunk,
            self.erasure_chunk.index,
            &self.erasure_chunk.proof,
        )
    }

    /// The message that `bytes` hold, if they hold one.
    pub fn decode(bytes: &Vec<u8>) -> (message: Option<AvailabilityGossipMessage>)
        ensures
            decoded_as(bytes@, optional_model(message)),
            message matches Some(m) ==> m@.encodable(),
    {
        match scale_decode(bytes) {
            Some((candidate_hash, chunk, index, proof)) => Some(
                AvailabilityGossipMessage {
                    candidate_hash: H256(candidate_hash),
                    erasure_chunk: ErasureChunk { chunk, index, proof },
                },
            ),
            None => None,
        }
    }

    /// The hash of the bytes of the message's chunk.
    pub fn chunk_hash(&self) -> (hash: H256)
        ensures
            is_chunk_hash(hash, self@.erasure_chunk.chunk),
    {
        H256(blake_two_256_hash(&self.erasure_chunk.chunk))
    }
}

} // verus!
