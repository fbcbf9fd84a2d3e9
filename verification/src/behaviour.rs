//! What the functions of the library do, said of inputs and results alone: of
//! the values that go in and come out, and of nothing in between.

use vstd::prelude::*;

use crate::collections::{Key, VecMap};
use crate::laws::law_difference;
use crate::message::{
    AvailabilityGossipMessage, MessageId, blake_two_256, byte_strings, scale_decoding, scale_encoding,
};
use crate::primitives::{
    CommittedCandidateReceipt, CoreState, GlobalValidationData, H256, LocalValidationData,
    OmittedValidationData, ParaId, PeerId, RelayView, ValidatorId, ValidatorIndex, candidate_hash,
    candidate_hash_of, first_held, lemma_hash_bytes, obtain_our_validator_index, occupied,
    occupied_para_ids, our_validator_index, peer_keys,
    query_global_validation_data, query_local_validation_data, query_omitted_validation_data,
};
use crate::state::{
    PerRelayParent, ProtocolState, lemma_push_contains, live_at, message_models, unioned,
};

verus! {

/// Whether an index is that of the first validator whose key is among the keys,
/// and there is none just where none of the keys is that of a validator.
pub open spec fn is_first_held(
    validators: Seq<ValidatorId>,
    keys: Seq<ValidatorId>,
    index: Option<ValidatorIndex>,
) -> bool {
    &&& index is None <==> forall|j: int|
        0 <= j < validators.len() ==> !keys.contains(#[trigger] validators[j])
    &&& index matches Some(i) ==> exists|p: int|
        0 <= p < validators.len() && i == p as u32 && keys.contains(#[trigger] validators[p])
            && forall|j: int| 0 <= j < p ==> !keys.contains(#[trigger] validators[j])
}

/// Our index is that of the first validator whose key we hold, and there is
/// none just where we hold the key of no validator.
pub proof fn law_our_index_is_the_first_held(
    validators: Vec<ValidatorId>,
    keys: Vec<ValidatorId>,
    index: Option<ValidatorIndex>,
)
    requires
        call_ensures(obtain_our_validator_index, (&validators, &keys), index),
    ensures
        index is None <==> forall|j: int|
            0 <= j < validators.len() ==> !keys@.contains(#[trigger] validators[j]),
        index matches Some(i) ==> exists|p: int|
            0 <= p < validators.len() && i == p as u32 && keys@.contains(#[trigger] validators[p])
                && forall|j: int| 0 <= j < p ==> !keys@.contains(#[trigger] validators[j]),
{
    lemma_our_index(validators@, keys@);
    assert forall|j: int| 0 <= j < validators.len() implies validators@[j]
        == #[trigger] validators[j] by {}
    if let Some(i) = index {
        let p = choose|p: int|
            0 <= p < validators.len() && i == p as u32 && keys@.contains(#[trigger] validators@[p])
                && forall|j: int| 0 <= j < p ==> !keys@.contains(#[trigger] validators@[j]);
        assert(keys@.contains(validators[p]));
    }
}

pub(crate) proof fn lemma_our_index(validators: Seq<ValidatorId>, keys: Seq<ValidatorId>)
    ensures
        is_first_held(validators, keys, our_validator_index(validators, keys)),
{
    if exists|j: int| 0 <= j < validators.len() && keys.contains(#[trigger] validators[j]) {
        let j = choose|j: int| 0 <= j < validators.len() && keys.contains(#[trigger] validators[j]);
        lemma_first_held(validators, keys, j);
        let p = choose|p: int| first_held(validators, keys, p);
        assert(first_held(validators, keys, p));
        assert(keys.contains(validators[p]));
    } else {
        assert(!exists|i: int| first_held(validators, keys, i));
    }
}

proof fn lemma_first_held(validators: Seq<ValidatorId>, keys: Seq<ValidatorId>, j: int)
    requires
        0 <= j < validators.len(),
        keys.contains(validators[j]),
    ensures
        exists|i: int| first_held(validators, keys, i),
    decreases j,
{
    if exists|k: int| 0 <= k < j && keys.contains(#[trigger] validators[k]) {
        let k = choose|k: int| 0 <= k < j && keys.contains(#[trigger] validators[k]);
        lemma_first_held(validators, keys, k);
    } else {
        assert(first_held(validators, keys, j));
    }
}

/// The parachains on occupied cores are all asked for, in order and as often as
/// they occur: a core after others adds its parachain if it is occupied, and
/// nothing else.
pub proof fn law_occupied_cores_are_all_taken(
    cores: Vec<CoreState>,
    last: CoreState,
    more: Vec<CoreState>,
    paras: Vec<ParaId>,
    more_paras: Vec<ParaId>,
)
    requires
        call_ensures(occupied_para_ids, (&cores,), paras),
        call_ensures(occupied_para_ids, (&more,), more_paras),
        more@ == cores@.push(last),
    ensures
        cores.len() == 0 ==> paras.len() == 0,
        last matches CoreState::Occupied(para) ==> more_paras@ == paras@.push(para),
        !(last is Occupied) ==> more_paras@ == paras@,
{
    assert(more@.drop_last() =~= cores@);
}

/// The parachains that are asked for are those on occupied cores, and no
/// others.
pub proof fn law_occupied_cores(cores: Seq<CoreState>, para: ParaId)
    ensures
        occupied(cores).contains(para) <==> cores.contains(CoreState::Occupied(para)),
    decreases cores.len(),
{
    if cores.len() > 0 {
        law_occupied_cores(cores.drop_last(), para);
        assert(cores =~= cores.drop_last().push(cores.last()));
        lemma_push_contains(cores.drop_last(), cores.last());
        if let CoreState::Occupied(p) = cores.last() {
            lemma_push_contains(occupied(cores.drop_last()), p);
        }
    }
}

/// The difference of two views holds the heads of the first that the second has
/// not, in order and as often as they occur.
pub proof fn law_views_differ_by_their_heads(
    a: RelayView,
    last: H256,
    more: RelayView,
    b: RelayView,
    heads: Vec<H256>,
    more_heads: Vec<H256>,
)
    requires
        call_ensures(RelayView::difference, (&a, &b), heads),
        call_ensures(RelayView::difference, (&more, &b), more_heads),
        more.0@ == a.0@.push(last),
    ensures
        a.0.len() == 0 ==> heads.len() == 0,
        b.0@.contains(last) ==> more_heads@ == heads@,
        !b.0@.contains(last) ==> more_heads@ == heads@.push(last),
        forall|h: H256| #[trigger]
            heads@.contains(h) <==> a.0@.contains(h) && !b.0@.contains(h),
{
    reveal(Seq::filter);
    assert(more.0@.drop_last() =~= a.0@);
    assert forall|h: H256| #[trigger] heads@.contains(h) <==> a.0@.contains(h) && !b.0@.contains(
        h,
    ) by {
        law_difference(a.0@, b.0@, h);
    }
}

/// A view contains just the heads of its list.
pub proof fn law_views_contain_their_heads(view: RelayView, head: H256, found: bool)
    requires
        call_ensures(RelayView::contains, (&view, &head), found),
    ensures
        found <==> exists|j: int| 0 <= j < view.0.len() && #[trigger] view.0[j] == head,
{
}

/// A candidate is known by the hash of its validation data.
pub proof fn law_candidates_are_known_by_their_data(receipt: CommittedCandidateReceipt, hash: H256)
    requires
        call_ensures(candidate_hash_of, (&receipt,), hash),
    ensures
        hash == receipt.descriptor.validation_data_hash,
{
}

/// All validation data that is made available has its default value.
pub proof fn law_validation_data_is_default(
    relay_parent: H256,
    global: GlobalValidationData,
    local: LocalValidationData,
    omitted: OmittedValidationData,
)
    requires
        call_ensures(query_global_validation_data, (relay_parent,), global),
        call_ensures(query_local_validation_data, (relay_parent,), local),
        call_ensures(query_omitted_validation_data, (relay_parent,), omitted),
    ensures
        global.max_code_size == 0 && global.max_head_data_size == 0 && global.block_number == 0,
        local.parent_head.0.len() == 0 && local.balance == 0 && local.code_upgrade_allowed is None,
        forall|i: int| 0 <= i < 32 ==> #[trigger] local.validation_code_hash.0@[i] == 0,
        omitted.global_validation == global,
        omitted.local_validation.parent_head.0@ == local.parent_head.0@,
        omitted.local_validation.balance == local.balance,
        omitted.local_validation.validation_code_hash == local.validation_code_hash,
        omitted.local_validation.code_upgrade_allowed == local.code_upgrade_allowed,
{
    let a = omitted.local_validation.validation_code_hash;
    let b = local.validation_code_hash;
    assert(a.0@ =~= b.0@);
    lemma_hash_bytes(a, b);
}

/// Keys are told apart by all that they hold: hashes, validators and peers by
/// each of their bytes, candidates by each field, messages by candidate and
/// index.
pub proof fn law_keys_are_told_apart(
    hashes: (H256, H256),
    validators: (ValidatorId, ValidatorId),
    peers: (PeerId, PeerId),
    receipts: (CommittedCandidateReceipt, CommittedCandidateReceipt),
    ids: (MessageId, MessageId),
    same: (bool, bool, bool, bool, bool),
)
    requires
        call_ensures(<H256 as Key>::same, (&hashes.0, &hashes.1), same.0),
        call_ensures(<ValidatorId as Key>::same, (&validators.0, &validators.1), same.1),
        call_ensures(<PeerId as Key>::same, (&peers.0, &peers.1), same.2),
        call_ensures(<CommittedCandidateReceipt as Key>::same, (&receipts.0, &receipts.1), same.3),
        call_ensures(<MessageId as Key>::same, (&ids.0, &ids.1), same.4),
    ensures
        same.0 <==> hashes.0.0@ == hashes.1.0@,
        same.1 <==> validators.0.0@ == validators.1.0@,
        same.2 <==> peers.0.bytes@ == peers.1.bytes@,
        same.3 <==> receipts.0 == receipts.1,
        same.4 <==> ids.0 == ids.1,
{
    if hashes.0.0@ == hashes.1.0@ {
        lemma_hash_bytes(hashes.0, hashes.1);
    }
    if validators.0.0@ == validators.1.0@ {
        let a = validators.0.0;
        let b = validators.1.0;
        assert forall|i: int| 0 <= i < 32 implies a[i] == b[i] by {
            assert(a@[i] == b@[i]);
        }
        assert(a =~= b);
    }
}

/// A message stands for all that is in it: its candidate, the bytes and the
/// index of its chunk, and each node of the branch.
pub proof fn law_messages_hold_everything(m: AvailabilityGossipMessage)
    ensures
        m@.candidate_hash == m.candidate_hash,
        m@.erasure_chunk == m.erasure_chunk@,
        m.erasure_chunk@.chunk == m.erasure_chunk.chunk@,
        m.erasure_chunk@.index == m.erasure_chunk.index,
        m.erasure_chunk@.proof.len() == m.erasure_chunk.proof.len(),
        forall|i: int|
            0 <= i < m.erasure_chunk.proof.len() ==> #[trigger] m.erasure_chunk@.proof[i]
                == m.erasure_chunk.proof[i]@,
        m@.id() == (m.candidate_hash, m.erasure_chunk.index),
{
}

/// The state stands for all that is in it: every peer with its view by the bytes
/// of its identity, our view, the caches, and every relay parent with its notes,
/// its validators, our index and its vault.
pub proof fn law_states_hold_everything(state: ProtocolState, known: PerRelayParent)
    ensures
        state@.peer_views == state.peer_views@,
        state@.view == state.view.0@,
        state@.cache == state.cache@,
        state@.reverse == state.reverse@,
        state@.per_relay_parent == state.per_relay_parent@,
        known@.received_messages == known.received_messages@,
        known@.sent_messages == known.sent_messages@,
        known@.validators == known.validators@,
        known@.validator_index == known.validator_index,
        known@.message_vault == known.message_vault@,
{
}

/// Whether every length of a message fits the wire format, field by field.
pub open spec fn fits(m: AvailabilityGossipMessage) -> bool {
    &&& m.erasure_chunk.chunk.len() <= u32::MAX
    &&& m.erasure_chunk.proof.len() <= u32::MAX
    &&& forall|i: int|
        0 <= i < m.erasure_chunk.proof.len() ==> (#[trigger] m.erasure_chunk.proof[i]).len()
            <= u32::MAX
}

/// Every message whose lengths fit the wire format can be encoded; its bytes are
/// the encoding of its four values, and decode to them.
pub proof fn law_messages_go_over_the_wire(m: AvailabilityGossipMessage, bytes: Vec<u8>)
    requires
        fits(m),
    ensures
        call_requires(AvailabilityGossipMessage::encode, (&m,)),
        call_ensures(AvailabilityGossipMessage::encode, (&m,), bytes) ==> bytes@
            == scale_encoding(
            m.candidate_hash.0@,
            m.erasure_chunk.chunk@,
            m.erasure_chunk.index,
            byte_strings(m.erasure_chunk.proof@),
        ) && scale_decoding(bytes@) == Some(
            (
                m.candidate_hash.0@,
                m.erasure_chunk.chunk@,
                m.erasure_chunk.index,
                byte_strings(m.erasure_chunk.proof@),
            ),
        ),
{
    assert forall|i: int| 0 <= i < m@.erasure_chunk.proof.len() implies (
    #[trigger] m@.erasure_chunk.proof[i]).len() <= u32::MAX by {
        assert(m.erasure_chunk.proof[i].len() <= u32::MAX);
    }
}

/// Bytes that hold a message decode to it, with all of its four values; other
/// bytes decode to nothing.
pub proof fn law_messages_come_from_the_wire(
    bytes: Vec<u8>,
    message: Option<AvailabilityGossipMessage>,
)
    requires
        call_ensures(AvailabilityGossipMessage::decode, (&bytes,), message),
    ensures
        message is None <==> scale_decoding(bytes@) is None,
        message matches Some(m) ==> fits(m) && scale_decoding(bytes@) == Some(
            (
                m.candidate_hash.0@,
                m.erasure_chunk.chunk@,
                m.erasure_chunk.index,
                byte_strings(m.erasure_chunk.proof@),
            ),
        ),
{
    if let Some(m) = message {
        assert forall|i: int| 0 <= i < m.erasure_chunk.proof.len() implies (
        #[trigger] m.erasure_chunk.proof[i]).len() <= u32::MAX by {
            assert(m@.erasure_chunk.proof[i].len() <= u32::MAX);
        }
    }
}

/// A list of byte strings stands for all of them.
pub proof fn law_byte_strings(strings: Seq<Vec<u8>>)
    ensures
        byte_strings(strings).len() == strings.len(),
        forall|i: int|
            0 <= i < strings.len() ==> #[trigger] byte_strings(strings)[i] == strings[i]@,
{
}

/// The hash of a message's chunk is the hash of all bytes of the chunk.
pub proof fn law_chunks_are_hashed(m: AvailabilityGossipMessage, hash: H256)
    requires
        call_ensures(AvailabilityGossipMessage::chunk_hash, (&m,), hash),
    ensures
        hash.0@ == blake_two_256(m.erasure_chunk.chunk@),
{
}

/// The interested peers are all peers that have the relay parent in their view,
/// and no others, each of them once.
pub proof fn law_interested_peers(state: ProtocolState, relay_parent: H256, peers: Vec<PeerId>)
    requires
        call_ensures(ProtocolState::interested_peers, (&state, &relay_parent), peers),
    ensures
        forall|p: Seq<u8>|
            (exists|i: int| 0 <= i < peers.len() && (#[trigger] peers[i]).bytes@ == p) <==> (
            #[trigger] state.peer_views@.contains_key(p)) && state.peer_views@[p].contains(
                relay_parent,
            ),
        forall|i: int, j: int|
            0 <= i < j < peers.len() ==> (#[trigger] peers[i]).bytes@ != (
            #[trigger] peers[j]).bytes@,
{
    let keys = peer_keys(peers@);
    assert forall|p: Seq<u8>|
        (exists|i: int| 0 <= i < peers.len() && (#[trigger] peers[i]).bytes@ == p) <==> (
        #[trigger] state.peer_views@.contains_key(p)) && state.peer_views@[p].contains(
            relay_parent,
        ) by {
        assert(keys.contains(p) <==> state@.interested(relay_parent).contains(p));
        if keys.contains(p) {
            let i = choose|i: int| 0 <= i < keys.len() && keys[i] == p;
            assert(peers[i].bytes@ == p);
        }
        if exists|i: int| 0 <= i < peers.len() && (#[trigger] peers[i]).bytes@ == p {
            let i = choose|i: int| 0 <= i < peers.len() && (#[trigger] peers[i]).bytes@ == p;
            assert(keys[i] == p);
        }
    }
    assert forall|i: int, j: int| 0 <= i < j < peers.len() implies (#[trigger] peers[i]).bytes@ != (
    #[trigger] peers[j]).bytes@ by {
        assert(keys[i] != keys[j]);
    }
}

/// Whether a receipt is live at the relay parent at position `j` of a list.
pub open spec fn live_in(
    state: ProtocolState,
    relay_parents: Vec<H256>,
    j: int,
    r: CommittedCandidateReceipt,
) -> bool {
    &&& 0 <= j < relay_parents.len()
    &&& state.cache@.contains_key(relay_parents[j])
    &&& state.cache@[relay_parents[j]].contains(r)
}

/// The union of live candidates holds, for the hash of each live candidate of
/// each of the relay parents, such a candidate, and of two of them one of the
/// later relay parent; it holds nothing else.
pub proof fn law_live_candidates_are_all_unioned(
    state: ProtocolState,
    relay_parents: Vec<H256>,
    candidates: VecMap<H256, CommittedCandidateReceipt>,
)
    requires
        call_ensures(
            ProtocolState::cached_relay_parents_to_live_candidates_unioned,
            (&state, &relay_parents),
            candidates,
        ),
    ensures
        forall|j: int, r: CommittedCandidateReceipt| #[trigger]
            live_in(state, relay_parents, j, r) ==> candidates@.contains_key(
                r.descriptor.validation_data_hash,
            ),
        forall|h: H256| #[trigger]
            candidates@.contains_key(h) ==> candidates@[h].descriptor.validation_data_hash == h
                && exists|j: int| #[trigger]
                live_in(state, relay_parents, j, candidates@[h]) && forall|
                    k: int,
                    r: CommittedCandidateReceipt,
                |
                    j < k && #[trigger] live_in(state, relay_parents, k, r)
                        ==> r.descriptor.validation_data_hash != h,
{
    let cache = state@.cache;
    assert forall|j: int, r: CommittedCandidateReceipt| #[trigger]
        live_in(state, relay_parents, j, r) <==> live_at(
            cache,
            relay_parents@,
            j,
            r,
        ) by {}
    assert forall|h: H256| #[trigger] candidates@.contains_key(h) implies candidates@[h].descriptor.validation_data_hash
        == h && exists|j: int| #[trigger]
        live_in(state, relay_parents, j, candidates@[h]) && forall|
            k: int,
            r: CommittedCandidateReceipt,
        |
            j < k && #[trigger] live_in(state, relay_parents, k, r)
                ==> r.descriptor.validation_data_hash != h by {
        let c = candidates@[h];
        assert(unioned(cache, relay_parents@, c));
        let j = choose|j: int|
            #![trigger live_at(cache, relay_parents@, j, c)]
            live_at(cache, relay_parents@, j, c) && forall|
                k: int,
                r: CommittedCandidateReceipt,
            |
                j < k && #[trigger] live_at(cache, relay_parents@, k, r)
                    ==> candidate_hash(r) != candidate_hash(c);
        assert(live_in(state, relay_parents, j, c));
        assert forall|k: int, r: CommittedCandidateReceipt|
            j < k && #[trigger] live_in(state, relay_parents, k, r) implies r.descriptor.validation_data_hash
            != h by {
            assert(live_at(cache, relay_parents@, k, r));
        }
    }
}

/// The cached relay parents are all keys of the cache, each of them once.
pub proof fn law_cached_relay_parents(state: ProtocolState, relay_parents: Vec<H256>)
    requires
        call_ensures(ProtocolState::cached_relay_parents, (&state,), relay_parents),
    ensures
        forall|h: H256| #[trigger]
            relay_parents@.contains(h) <==> state.cache@.contains_key(h),
        relay_parents@.no_duplicates(),
{
}

/// Whether the vault holds a message of the candidate for the index of one of
/// the validators, and it is not noted as sent to the peer.
pub open spec fn unsent_in_vault(
    known: PerRelayParent,
    peer: PeerId,
    candidate: H256,
    index: u32,
) -> bool {
    &&& index < known.validators.len() as u32
    &&& known.message_vault@.contains_key((candidate, index))
    &&& !(known.sent_messages@.contains_key(peer.bytes@)
        && known.sent_messages@[peer.bytes@].contains((candidate, index)))
}

/// What is owed to a peer of a candidate: of every validator's index, the
/// message that the vault holds for the candidate and the index, unless it is
/// noted as sent to the peer; just these, each of them once and as it is.
pub proof fn law_owed_messages(
    known: PerRelayParent,
    peer: PeerId,
    candidate: H256,
    messages: Vec<AvailabilityGossipMessage>,
)
    requires
        call_ensures(PerRelayParent::owed_messages, (&known, &peer, candidate), messages),
    ensures
        forall|index: u32| #[trigger]
            unsent_in_vault(known, peer, candidate, index) ==> exists|i: int|
                0 <= i < messages.len() && (#[trigger] messages[i]).erasure_chunk.index == index,
        forall|i: int|
            0 <= i < messages.len() ==> {
                let m = #[trigger] messages[i];
                &&& unsent_in_vault(known, peer, candidate, m.erasure_chunk.index)
                &&& m.candidate_hash == candidate
                &&& m@ == known.message_vault@[(candidate, m.erasure_chunk.index)]
            },
        forall|i: int, j: int|
            0 <= i < j < messages.len() ==> (#[trigger] messages[i]).erasure_chunk.index != (
            #[trigger] messages[j]).erasure_chunk.index,
{
    let models = message_models(messages@);
    assert forall|i: int| 0 <= i < messages.len() implies {
        let m = #[trigger] messages[i];
        &&& unsent_in_vault(known, peer, candidate, m.erasure_chunk.index)
        &&& m.candidate_hash == candidate
        &&& m@ == known.message_vault@[(candidate, m.erasure_chunk.index)]
    } by {
        assert(models[i] == messages[i]@);
        assert(known@.owed(peer@, candidate, models[i].erasure_chunk.index));
    }
    assert forall|index: u32| #[trigger]
        unsent_in_vault(known, peer, candidate, index) implies exists|i: int|
        0 <= i < messages.len() && (#[trigger] messages[i]).erasure_chunk.index == index by {
        assert(known@.owed(peer@, candidate, index));
        let i = choose|i: int|
            0 <= i < models.len() && (#[trigger] models[i]).id() == (candidate, index);
        assert(messages[i].erasure_chunk.index == index);
    }
    assert forall|i: int, j: int| 0 <= i < j < messages.len() implies (
    #[trigger] messages[i]).erasure_chunk.index != (#[trigger] messages[j]).erasure_chunk.index by {
        assert(models[i].id() != models[j].id());
    }
}

} // verus!
