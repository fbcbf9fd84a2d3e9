//! The handling of messages from peers: a message is checked, the peer is
//! reported on, and a valid message is gossiped on to other interested peers.

use vstd::prelude::*;

use crate::collections::Key;
use crate::message::{
    AvailabilityGossipMessage, MessageModel, byte_strings, carries, copy_strings, is_chunk_hash,
};
use crate::primitives::{CommittedCandidateReceipt, H256, PeerId, candidate_hash, peer_keys};
use crate::protocol::{Action, PROTOCOL_ID, Task, idle, reporting, reports};
use crate::reputation::ReputationChange;
use crate::state::{
    ProtocolState, StateModel, lemma_push_contains, lemma_take_distinct, lemma_take_next,
    lists, live_at, unioned,
};

verus! {

/// Whether one of the relay parents of our view has a live candidate with the
/// hash.
pub open spec fn is_live(state: StateModel, hash: H256) -> bool {
    exists|j: int, r: CommittedCandidateReceipt| #[trigger]
        live_at(state.cache, state.view, j, r) && candidate_hash(r) == hash
}

/// The branch of a message's chunk is worked out below the erasure root of the
/// live candidate.
pub open spec fn asks_branch(
    state: StateModel,
    origin: Seq<u8>,
    message: MessageModel,
    task: Task,
    action: Action,
) -> bool {
    &&& task matches Task::CheckingBranch { origin: o, message: m, relay_parent } && o@ == origin
        && m@ == message && relay_parent == state.reverse[message.candidate_hash]
    &&& action matches Action::BranchHash(root, nodes, index) && byte_strings(nodes@)
        == message.erasure_chunk.proof && index == message.erasure_chunk.index && exists|
        r: CommittedCandidateReceipt,
    |
        candidate_hash(r) == message.candidate_hash && #[trigger] unioned(
            state.cache,
            state.view,
            r,
        ) && root == r.commitments.erasure_root
}

/// A message from a peer is checked against our view and the live candidates.
pub open spec fn checks_message(
    pre: StateModel,
    origin: Seq<u8>,
    message: MessageModel,
    post: StateModel,
    task: Task,
    action: Action,
) -> bool {
    let hash = message.candidate_hash;
    &&& post == pre
    &&& if !pre.reverse.contains_key(hash) || !pre.view.contains(pre.reverse[hash]) {
        reporting(origin, ReputationChange::CostNotInView, task, action)
    } else if !is_live(pre, hash) {
        reporting(origin, ReputationChange::CostNotALiveCandidate, task, action)
    } else {
        asks_branch(pre, origin, message, task, action)
    }
}

/// A message is judged by the hash that its branch proves and the hash of its
/// chunk. A valid message that is new from this peer is accepted; where nothing
/// is tracked of its relay parent, it is dropped.
pub open spec fn judges_message(
    pre: StateModel,
    origin: Seq<u8>,
    message: MessageModel,
    relay_parent: H256,
    anticipated: Option<H256>,
    chunk_hash: H256,
    post: StateModel,
    task: Task,
    action: Action,
) -> bool {
    if anticipated != Some(chunk_hash) {
        &&& post == pre
        &&& reporting(origin, ReputationChange::CostMerkleProofInvalid, task, action)
    } else if !pre.per_relay_parent.contains_key(relay_parent) {
        &&& post == pre
        &&& idle(task, action)
    } else {
        let known = pre.per_relay_parent[relay_parent];
        if known.was_received(origin, message.id()) {
            &&& post == pre
            &&& reporting(origin, ReputationChange::CostPeerDuplicateMessage, task, action)
        } else {
            &&& post == pre.with_relay_parent(relay_parent, known.accepted(origin, message))
            &&& task matches Task::Rewarding { origin: o, message: m, relay_parent: p } && o@
                == origin && m@ == message && p == relay_parent
            &&& reports(
                origin,
                if known.message_vault.contains_key(message.id()) {
                    ReputationChange::BenefitValidMessage
                } else {
                    ReputationChange::BenefitValidMessageFirst
                },
                action,
            )
        }
    }
}

/// A valid message is gossiped on to the other peers that have its relay parent
/// in their view and were not sent it before.
pub open spec fn gossips(
    pre: StateModel,
    origin: Seq<u8>,
    message: MessageModel,
    relay_parent: H256,
    post: StateModel,
    task: Task,
    action: Action,
) -> bool {
    &&& task is Closing
    &&& action matches Action::SendMessage(peers, protocol, bytes) && lists(
        peer_keys(peers@),
        pre.audience(relay_parent, message.id()).remove(origin),
    ) && protocol == PROTOCOL_ID && carries(bytes@, message) && post == pre.with_relay_parent(
        relay_parent,
        pre.per_relay_parent[relay_parent].after_send(peer_keys(peers@), message),
    )
}

/// The report on a peer that is the last thing to do.
pub fn modify_reputation(peer: PeerId, change: ReputationChange) -> (next: (Task, Action))
    ensures
        reporting(peer@, change, next.0, next.1),
{
    (Task::Closing, Action::ReportPeer(peer, change))
}

/// Handles a message from a peer.
pub fn process_incoming_peer_message(
    state: &ProtocolState,
    origin: PeerId,
    message: AvailabilityGossipMessage,
) -> (next: (Task, Action))
    requires
        message@.encodable(),
    ensures
        checks_message(state@, origin@, message@, state@, next.0, next.1),
        next.0.well_formed(state@),
{
    let relay_parent = match state.reverse.get(&message.candidate_hash) {
        Some(relay_parent) => *relay_parent,
        None => {
            return modify_reputation(origin, ReputationChange::CostNotInView);
        },
    };
    if !state.view.contains(&relay_parent) {
        return modify_reputation(origin, ReputationChange::CostNotInView);
    }
    let live = state.cached_relay_parents_to_live_candidates_unioned(&state.view.0);
    match live.get(&message.candidate_hash) {
        Some(receipt) => {
            assert(unioned(state@.cache, state@.view, *receipt));
            let root = receipt.commitments.erasure_root;
            let nodes = copy_strings(&message.erasure_chunk.proof);
            let index: usize = message.erasure_chunk.index as usize;
            (
                Task::CheckingBranch { origin, message, relay_parent },
                Action::BranchHash(root, nodes, index),
            )
        },
        None => {
            assert(!is_live(state@, message@.candidate_hash));
            modify_reputation(origin, ReputationChange::CostNotALiveCandidate)
        },
    }
}

/// Judges a message by the hash that its branch proves and the hash of its
/// chunk.
pub fn judge_message(
    state: &mut ProtocolState,
    origin: PeerId,
    message: AvailabilityGossipMessage,
    relay_parent: H256,
    anticipated: Option<H256>,
    chunk_hash: H256,
) -> (next: (Task, Action))
    requires
        old(state)@.well_formed(),
        old(state)@.view.contains(relay_parent),
        message@.encodable(),
    ensures
        judges_message(
            old(state)@,
            origin@,
            message@,
            relay_parent,
            anticipated,
            chunk_hash,
            final(state)@,
            next.0,
            next.1,
        ),
        final(state)@.well_formed(),
        next.0.well_formed(final(state)@),
{
    let proven = match anticipated {
        Some(hash) => hash.same(&chunk_hash),
        None => false,
    };
    if !proven {
        return modify_reputation(origin, ReputationChange::CostMerkleProofInvalid);
    }
    match state.per_relay_parent.remove(&relay_parent) {
        Some(known) => {
            assert(old(state)@.per_relay_parent.contains_key(relay_parent));
            let mut known = known;
            if known.was_received(&origin, message.id()) {
                state.per_relay_parent.insert(relay_parent, known);
                assert(state@.per_relay_parent =~= old(state)@.per_relay_parent);
                return modify_reputation(origin, ReputationChange::CostPeerDuplicateMessage);
            }
            let change = if known.accept(&origin, message.duplicate()) {
                ReputationChange::BenefitValidMessage
            } else {
                ReputationChange::BenefitValidMessageFirst
            };
            state.per_relay_parent.insert(relay_parent, known);
            assert(state@.per_relay_parent =~= old(state)@.per_relay_parent.insert(
                relay_parent,
                known@,
            ));
            let peer = origin.duplicate();
            (
                Task::Rewarding { origin, message, relay_parent },
                Action::ReportPeer(peer, change),
            )
        },
        None => {
            assert(state@.per_relay_parent =~= old(state)@.per_relay_parent);
            (Task::Receiving, Action::Receive)
        },
    }
}

/// Goes on with the hash that the branch of a message proves.
pub fn receive_branch_hash(
    state: &mut ProtocolState,
    origin: PeerId,
    message: AvailabilityGossipMessage,
    relay_parent: H256,
    anticipated: Option<H256>,
) -> (next: (Task, Action))
    requires
        old(state)@.well_formed(),
        old(state)@.view.contains(relay_parent),
        message@.encodable(),
    ensures
        exists|chunk_hash: H256|
            is_chunk_hash(chunk_hash, message@.erasure_chunk.chunk) && #[trigger] judges_message(
                old(state)@,
                origin@,
                message@,
                relay_parent,
                anticipated,
                chunk_hash,
                final(state)@,
                next.0,
                next.1,
            ),
        final(state)@.well_formed(),
        next.0.well_formed(final(state)@),
{
    let chunk_hash = message.chunk_hash();
    judge_message(state, origin, message, relay_parent, anticipated, chunk_hash)
}

/// A list of peers without one of them.
fn without(peers: &Vec<PeerId>, peer: &PeerId) -> (others: Vec<PeerId>)
    requires
        peer_keys(peers@).no_duplicates(),
    ensures
        peer_keys(others@).no_duplicates(),
        forall|p: Seq<u8>| #[trigger]
            peer_keys(others@).contains(p) <==> peer_keys(peers@).contains(p) && p != peer@,
{
    let ghost keys = peer_keys(peers@);
    let mut others: Vec<PeerId> = Vec::new();
    let mut i: usize = 0;
    while i < peers.len()
        invariant
            i <= peers.len(),
            keys == peer_keys(peers@),
            keys.no_duplicates(),
            peer_keys(others@).no_duplicates(),
            forall|p: Seq<u8>| #[trigger]
                peer_keys(others@).contains(p) <==> keys.take(i as int).contains(p) && p != peer@,
        decreases peers.len() - i,
    {
        let ghost before = peer_keys(others@);
        let ghost key = keys[i as int];
        let other = !peers[i].same(peer);
        if other {
            others.push(peers[i].duplicate());
            assert(peer_keys(others@) =~= before.push(key));
        }
        proof {
            lemma_take_next(keys, i as int);
            lemma_take_distinct(keys, i as int);
            if other {
                lemma_push_contains(before, key);
                assert(!before.contains(key));
                assert(before.push(key).no_duplicates());
            }
        }
        i = i + 1;
    }
    assert(keys.take(keys.len() as int) =~= keys);
    others
}

/// Gossips a valid message on, once its peer was reported on.
pub fn gossip(
    state: &mut ProtocolState,
    origin: PeerId,
    message: AvailabilityGossipMessage,
    relay_parent: H256,
) -> (next: (Task, Action))
    requires
        old(state)@.well_formed(),
        message@.encodable(),
        old(state)@.per_relay_parent.contains_key(relay_parent),
    ensures
        gossips(
            old(state)@,
            origin@,
            message@,
            relay_parent,
            final(state)@,
            next.0,
            next.1,
        ),
        final(state)@.well_formed(),
{
    let interested = state.interested_peers(&relay_parent);
    let others = without(&interested, &origin);
    match state.per_relay_parent.remove(&relay_parent) {
        Some(known) => {
            let mut known = known;
            let targets = known.unsent(&others, message.id());
            assert(lists(
                peer_keys(targets@),
                old(state)@.audience(relay_parent, message@.id()).remove(origin@),
            ));
            let bytes = known.track(&targets, message);
            state.per_relay_parent.insert(relay_parent, known);
            assert(state@.per_relay_parent =~= old(state)@.per_relay_parent.insert(
                relay_parent,
                known@,
            ));
            (Task::Closing, Action::SendMessage(targets, PROTOCOL_ID, bytes))
        },
        None => (Task::Receiving, Action::Receive),
    }
}

} // verus!
