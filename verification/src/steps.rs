//! What single steps of the subsystem do, said of the fields of the state, the
//! replies and the actions alone.

use vstd::prelude::*;

use crate::incoming::judges_message;
use crate::laws::{law_difference, lemma_queries_cores_keeps};
use crate::message::{
    AvailabilityGossipMessage, MessageId, MessageModel, blake_two_256, branch_encodable, byte_strings,
    decoded_as, is_chunk_hash, scale_decoding, scale_encoding,
};
use crate::our_view::{chunk_models, distributes, our_chunks};
use crate::primitives::{
    CommittedCandidateReceipt, H256, PeerId, RelayView, candidate_hash, heads_difference,
    lemma_hash_bytes, peer_keys,
};
use crate::protocol::{
    Action, AvailabilityDistributionMessage, Exit, FromOverseer, NetworkBridgeEvent, OverseerSignal,
    Reply, Task, TodoModel,
};
use crate::reputation::ReputationChange;
use crate::state::{
    RelayParentModel, StateModel, forgets, is_union, live_at, live_under, live_under_any, names,
    unioned,
};
use crate::subsystem::{AvailabilityDistributionSubsystem, receives_message, transition};

verus! {

/// Whether a message is noted for a peer.
pub open spec fn noted(notes: Map<Seq<u8>, Set<MessageId>>, peer: Seq<u8>, id: MessageId) -> bool {
    notes.contains_key(peer) && notes[peer].contains(id)
}

/// Whether the next message of the overseer is waited for.
pub open spec fn rests(task: Task, action: Action) -> bool {
    task is Receiving && action is Receive
}

/// Whether the action is a report on a peer, and nothing follows it.
pub open spec fn closes_with_report(
    peer: PeerId,
    change: ReputationChange,
    task: Task,
    action: Action,
) -> bool {
    &&& task is Closing
    &&& action matches Action::ReportPeer(p, c) && p.bytes@ == peer.bytes@ && c == change
}

/// The reply that brings an event of the network bridge.
pub open spec fn brings(reply: Reply, event: NetworkBridgeEvent) -> bool {
    reply == Reply::Received(
        FromOverseer::Communication(AvailabilityDistributionMessage::NetworkBridgeUpdate(event)),
    )
}

/// Whether `peers` are the peers that have the relay parent in their view and
/// are not noted as sent the message, apart from one, each of them once.
pub open spec fn to_whom_it_concerns(
    state: StateModel,
    relay_parent: H256,
    id: MessageId,
    except: Option<Seq<u8>>,
    peers: Seq<PeerId>,
) -> bool {
    &&& forall|p: Seq<u8>|
        (exists|i: int| 0 <= i < peers.len() && (#[trigger] peers[i]).bytes@ == p) <==> (
        #[trigger] wants(state, relay_parent, id, p)) && except != Some(p)
    &&& forall|i: int, j: int|
        0 <= i < j < peers.len() ==> (#[trigger] peers[i]).bytes@ != (#[trigger] peers[j]).bytes@
}

/// Whether a peer has the relay parent in its view and is not noted as sent the
/// message.
pub open spec fn wants(state: StateModel, relay_parent: H256, id: MessageId, p: Seq<u8>) -> bool {
    &&& state.peer_views.contains_key(p)
    &&& state.peer_views[p].contains(relay_parent)
    &&& !noted(state.per_relay_parent[relay_parent].sent_messages, p, id)
}

/// A new subsystem knows of nothing, and first registers under the protocol
/// `avad`.
pub proof fn law_the_subsystem_starts(subsystem: AvailabilityDistributionSubsystem, action: Action)
    requires
        call_ensures(AvailabilityDistributionSubsystem::new, (), subsystem),
        call_ensures(AvailabilityDistributionSubsystem::start, (&subsystem,), action),
    ensures
        subsystem.task is Registering,
        subsystem.state@.peer_views == Map::<Seq<u8>, Seq<H256>>::empty(),
        subsystem.state@.view == Seq::<H256>::empty(),
        subsystem.state@.cache == Map::<H256, Set<CommittedCandidateReceipt>>::empty(),
        subsystem.state@.reverse == Map::<H256, H256>::empty(),
        subsystem.state@.per_relay_parent == Map::<H256, RelayParentModel>::empty(),
        action matches Action::RegisterEventProducer(protocol) && protocol[0] == 0x61
            && protocol[1] == 0x76 && protocol[2] == 0x61 && protocol[3] == 0x64,
{
}

/// Each task takes every reply to what it waits for, and those that say that it
/// could not be done; only chunks that do not fit the wire format are refused.
pub proof fn law_replies_are_taken(task: Task, reply: Reply)
    ensures
        task.accepts(reply) <==> match task {
            Task::Registering | Task::Closing => reply is Sent || reply is Failed,
            Task::Distributing { .. } | Task::CatchingUp { .. } | Task::Rewarding { .. } => reply
                is Sent || reply is Failed,
            Task::Receiving => reply is Received || reply is Failed,
            Task::Activating { .. } => reply is Validators || reply is Failed,
            Task::QueryingCores { .. } => reply is AvailabilityCores || reply is Failed,
            Task::QueryingPending { .. } => reply is CandidatePendingAvailability || reply
                is Failed,
            Task::QueryingPoV { .. } => reply is PoV || reply is Failed,
            Task::QueryingHeadData { .. } => reply is HeadData || reply is Failed,
            Task::Storing { .. } => reply is Stored || reply is Failed,
            Task::CheckingBranch { .. } => reply is BranchHash,
            Task::Encoding { .. } => match reply {
                Reply::Chunks(None) => true,
                Reply::Chunks(Some(branches)) => forall|j: int|
                    0 <= j < branches.len() ==> {
                        &&& (#[trigger] branches[j]).1.len() <= u32::MAX
                        &&& branches[j].0.len() <= u32::MAX
                        &&& forall|k: int|
                            0 <= k < branches[j].0.len() ==> (#[trigger] branches[j].0[k]).len()
                                <= u32::MAX
                    },
                _ => false,
            },
            Task::Stopped => false,
        },
{
    if let (Task::Encoding { work }, Reply::Chunks(Some(branches))) = (task, reply) {
        assert forall|j: int| 0 <= j < branches.len() implies (branch_encodable(
            byte_strings((#[trigger] branches[j]).0@),
            branches[j].1@,
        ) <==> {
            &&& branches[j].1.len() <= u32::MAX
            &&& branches[j].0.len() <= u32::MAX
            &&& forall|k: int|
                0 <= k < branches[j].0.len() ==> (#[trigger] branches[j].0[k]).len() <= u32::MAX
        }) by {
            let nodes = branches[j].0;
            assert forall|k: int| 0 <= k < nodes.len() implies #[trigger] byte_strings(nodes@)[k]
                == nodes[k]@ by {}
            if forall|k: int| 0 <= k < nodes.len() ==> (#[trigger] nodes[k]).len() <= u32::MAX {
                assert forall|k: int| 0 <= k < nodes.len() implies (#[trigger] byte_strings(
                    nodes@,
                )[k]).len() <= u32::MAX by {
                    assert(nodes[k].len() <= u32::MAX);
                }
            }
            if forall|k: int|
                0 <= k < nodes.len() ==> (#[trigger] byte_strings(nodes@)[k]).len() <= u32::MAX {
                assert forall|k: int| 0 <= k < nodes.len() implies (#[trigger] nodes[k]).len()
                    <= u32::MAX by {
                    assert(byte_strings(nodes@)[k].len() <= u32::MAX);
                }
            }
        }
    }
}

/// Once it is registered, the subsystem takes messages; where it cannot
/// register, receive, or ask for validators, it ends as failed.
pub proof fn law_a_lost_overseer_ends_the_subsystem(
    pre: StateModel,
    waiting: Task,
    reply: Reply,
    post: StateModel,
    task: Task,
    action: Action,
)
    requires
        waiting.accepts(reply),
        waiting is Registering || ((waiting is Receiving || waiting is Activating) && reply
            is Failed),
        transition(pre, waiting, reply, post, task, action),
    ensures
        post == pre,
        reply is Sent ==> rests(task, action),
        reply is Failed ==> task is Stopped && (action matches Action::Stop(exit) && exit
            == Exit::Failed),
{
}

/// The subsystem ends when the overseer asks for it, and does nothing on
/// finalized blocks, on requests for chunks, or where no head is activated.
pub proof fn law_signals(
    pre: StateModel,
    message: FromOverseer,
    post: StateModel,
    task: Task,
    action: Action,
)
    requires
        transition(pre, Task::Receiving, Reply::Received(message), post, task, action),
        !(message matches FromOverseer::Communication(update) && update is NetworkBridgeUpdate),
        message matches FromOverseer::Signal(signal) ==> (signal matches OverseerSignal::ActiveLeaves(
            leaves,
        ) ==> leaves.activated.len() == 0),
    ensures
        post == pre,
        message matches FromOverseer::Signal(signal) && signal is Conclude ==> task is Stopped && (
        action matches Action::Stop(exit) && exit == Exit::Concluded),
        !(message matches FromOverseer::Signal(signal) && signal is Conclude) ==> rests(
            task,
            action,
        ),
{
}

/// A peer that connects is there with no heads in its view, unless it was there;
/// a peer that disconnects is gone. Nothing else changes, and nothing is to be
/// done.
pub proof fn law_peers_come_and_go(
    pre: StateModel,
    event: NetworkBridgeEvent,
    reply: Reply,
    post: StateModel,
    task: Task,
    action: Action,
)
    requires
        brings(reply, event),
        event is PeerConnected || event is PeerDisconnected,
        transition(pre, Task::Receiving, reply, post, task, action),
    ensures
        rests(task, action),
        post.view == pre.view,
        post.cache == pre.cache,
        post.reverse == pre.reverse,
        post.per_relay_parent == pre.per_relay_parent,
        event matches NetworkBridgeEvent::PeerConnected(peer, _) ==> post.peer_views == (
        if pre.peer_views.contains_key(peer.bytes@) {
            pre.peer_views
        } else {
            pre.peer_views.insert(peer.bytes@, Seq::empty())
        }),
        event matches NetworkBridgeEvent::PeerDisconnected(peer) ==> post.peer_views
            == pre.peer_views.remove(peer.bytes@),
{
}

/// The root of a live candidate of our view with the hash, where no head after
/// its own in our view has another such candidate.
pub open spec fn is_root(state: StateModel, hash: H256, root: H256) -> bool {
    exists|j: int, r: CommittedCandidateReceipt| #[trigger]
        lives_at(state, j, r) && r.descriptor.validation_data_hash == hash
            && r.commitments.erasure_root == root && forall|k: int, r2: CommittedCandidateReceipt|
            j < k && #[trigger] lives_at(state, k, r2) ==> r2.descriptor.validation_data_hash
                != hash
}

/// Whether the candidate is live at the head at position `j` of our view.
pub open spec fn lives_at(state: StateModel, j: int, r: CommittedCandidateReceipt) -> bool {
    &&& 0 <= j < state.view.len()
    &&& state.cache.contains_key(state.view[j])
    &&& state.cache[state.view[j]].contains(r)
}

/// What a peer sends is handled by what is in it.
///
/// Bytes that do not decode cost the peer. A message costs the peer, too, just
/// where its candidate hash leads to no head or to one that is not in our view,
/// or where no head of our view has a live candidate with the hash. Every other
/// message is checked: the hash is worked out that its branch proves for its
/// index below the erasure root of the live candidate. The state stays as it is.
pub proof fn law_messages_are_checked(
    pre: StateModel,
    remote: PeerId,
    bytes: Vec<u8>,
    reply: Reply,
    post: StateModel,
    task: Task,
    action: Action,
)
    requires
        brings(reply, NetworkBridgeEvent::PeerMessage(remote, bytes)),
        transition(pre, Task::Receiving, reply, post, task, action),
    ensures
        post == pre,
        match scale_decoding(bytes@) {
            None => closes_with_report(
                remote,
                ReputationChange::CostMessageNotDecodable,
                task,
                action,
            ),
            Some((hash_bytes, chunk, index, proof)) => exists|hash: H256| #[trigger]
                hash.0@ == hash_bytes && {
                    if !pre.reverse.contains_key(hash) || !pre.view.contains(pre.reverse[hash]) {
                        closes_with_report(remote, ReputationChange::CostNotInView, task, action)
                    } else if !exists|j: int, r: CommittedCandidateReceipt| #[trigger]
                        lives_at(pre, j, r) && r.descriptor.validation_data_hash == hash {
                        closes_with_report(
                            remote,
                            ReputationChange::CostNotALiveCandidate,
                            task,
                            action,
                        )
                    } else {
                        &&& action matches Action::BranchHash(root, nodes, i) && is_root(
                            pre,
                            hash,
                            root,
                        ) && nodes.len() == proof.len() && (forall|k: int|
                            0 <= k < nodes.len() ==> (#[trigger] nodes[k])@ == proof[k]) && i
                            == index
                        &&& task matches Task::CheckingBranch { origin, message, relay_parent }
                            && origin.bytes@ == remote.bytes@ && message.candidate_hash == hash
                            && message.erasure_chunk.chunk@ == chunk
                            && message.erasure_chunk.index == index && byte_strings(
                            message.erasure_chunk.proof@,
                        ) == proof && relay_parent == pre.reverse[hash]
                    }
                },
        },
{
    let decoded = choose|decoded: Option<MessageModel>|
        decoded_as(bytes@, decoded) && #[trigger] receives_message(
            pre,
            remote@,
            decoded,
            post,
            task,
            action,
        );
    if let Some(message) = decoded {
        let hash = message.candidate_hash;
        assert forall|j: int, r: CommittedCandidateReceipt| #[trigger]
            lives_at(pre, j, r) <==> live_at(pre.cache, pre.view, j, r) by {}
        if exists|j: int, r: CommittedCandidateReceipt| #[trigger]
            live_at(pre.cache, pre.view, j, r) && r.descriptor.validation_data_hash == hash {
            let (j, r) = choose|j: int, r: CommittedCandidateReceipt| #[trigger]
                live_at(pre.cache, pre.view, j, r) && r.descriptor.validation_data_hash == hash;
            assert(lives_at(pre, j, r));
        }
        if let Action::BranchHash(root, nodes, i) = action {
            let r = choose|r: CommittedCandidateReceipt|
                candidate_hash(r) == hash && #[trigger] unioned(
                    pre.cache,
                    pre.view,
                    r,
                ) && root == r.commitments.erasure_root;
            let j = choose|j: int|
                #![trigger live_at(pre.cache, pre.view, j, r)]
                live_at(pre.cache, pre.view, j, r) && forall|
                    k: int,
                    r2: CommittedCandidateReceipt,
                |
                    j < k && #[trigger] live_at(pre.cache, pre.view, k, r2)
                        ==> candidate_hash(r2)
                        != candidate_hash(r);
            assert(lives_at(pre, j, r));
            assert forall|k: int, r2: CommittedCandidateReceipt|
                j < k && #[trigger] lives_at(pre, k, r2) implies r2.descriptor.validation_data_hash
                != hash by {
                assert(live_at(pre.cache, pre.view, k, r2));
            }
            assert(is_root(pre, hash, root));
            assert forall|k: int| 0 <= k < nodes.len() implies (#[trigger] nodes[k])@
                == message.erasure_chunk.proof[k] by {
                assert(byte_strings(nodes@)[k] == nodes[k]@);
            }
        }
        assert(hash.0@ == message.candidate_hash.0@);
    }
}

/// What a checked message comes to.
///
/// It costs the peer just where its branch proves nothing, or another hash than
/// that of the chunk's bytes. It is dropped where no work was started on its
/// relay parent. It costs the peer where the peer has sent a message of its
/// identity before. Every other one is accepted: it is noted as received from
/// the peer and put into the vault, and the peer is rewarded, the more if the
/// vault had no message of its identity.
pub proof fn law_checked_messages_are_judged(
    pre: StateModel,
    origin: PeerId,
    message: AvailabilityGossipMessage,
    relay_parent: H256,
    proven: Option<H256>,
    post: StateModel,
    task: Task,
    action: Action,
)
    requires
        transition(
            pre,
            Task::CheckingBranch { origin, message, relay_parent },
            Reply::BranchHash(proven),
            post,
            task,
            action,
        ),
    ensures
        ({
            let id = (message.candidate_hash, message.erasure_chunk.index);
            let known = pre.per_relay_parent[relay_parent];
            let valid = proven matches Some(hash) && hash.0@ == blake_two_256(
                message.erasure_chunk.chunk@,
            );
            if !valid {
                &&& post == pre
                &&& closes_with_report(
                    origin,
                    ReputationChange::CostMerkleProofInvalid,
                    task,
                    action,
                )
            } else if !pre.per_relay_parent.contains_key(relay_parent) {
                &&& post == pre
                &&& rests(task, action)
            } else if noted(known.received_messages, origin.bytes@, id) {
                &&& post == pre
                &&& closes_with_report(
                    origin,
                    ReputationChange::CostPeerDuplicateMessage,
                    task,
                    action,
                )
            } else {
                let after = post.per_relay_parent[relay_parent];
                &&& action matches Action::ReportPeer(p, c) && p.bytes@ == origin.bytes@ && c == (
                if known.message_vault.contains_key(id) {
                    ReputationChange::BenefitValidMessage
                } else {
                    ReputationChange::BenefitValidMessageFirst
                })
                &&& task matches Task::Rewarding { origin: o, message: m, relay_parent: h }
                    && o.bytes@ == origin.bytes@ && m@ == message@ && h == relay_parent
                &&& forall|p: Seq<u8>, i: MessageId| #[trigger]
                    noted(after.received_messages, p, i) <==> noted(known.received_messages, p, i)
                        || (p == origin.bytes@ && i == id)
                &&& after.message_vault == known.message_vault.insert(id, message@)
                &&& after.sent_messages == known.sent_messages
                &&& after.validators == known.validators
                &&& after.validator_index == known.validator_index
                &&& post.per_relay_parent == pre.per_relay_parent.insert(relay_parent, after)
                &&& post.peer_views == pre.peer_views
                &&& post.view == pre.view
                &&& post.cache == pre.cache
                &&& post.reverse == pre.reverse
            }
        }),
{
    let chunk_hash = choose|chunk_hash: H256|
        is_chunk_hash(chunk_hash, message@.erasure_chunk.chunk) && #[trigger] judges_message(
            pre,
            origin@,
            message@,
            relay_parent,
            proven,
            chunk_hash,
            post,
            task,
            action,
        );
    if let Some(hash) = proven {
        if hash.0@ == blake_two_256(message.erasure_chunk.chunk@) {
            lemma_hash_bytes(hash, chunk_hash);
        }
    }
}

/// Whether a message was sent to the peers: it is in the vault and noted as sent
/// to each of them, and nothing else changes.
pub open spec fn only_sent(
    pre: StateModel,
    relay_parent: H256,
    message: MessageModel,
    peers: Seq<PeerId>,
    post: StateModel,
) -> bool {
    let known = pre.per_relay_parent[relay_parent];
    let after = post.per_relay_parent[relay_parent];
    let id = (message.candidate_hash, message.erasure_chunk.index);
    &&& forall|p: Seq<u8>, i: MessageId| #[trigger]
        noted(after.sent_messages, p, i) <==> noted(known.sent_messages, p, i) || (i == id
            && exists|k: int| 0 <= k < peers.len() && (#[trigger] peers[k]).bytes@ == p)
    &&& after.message_vault == known.message_vault.insert(id, message)
    &&& after.received_messages == known.received_messages
    &&& after.validators == known.validators
    &&& after.validator_index == known.validator_index
    &&& post.per_relay_parent == pre.per_relay_parent.insert(relay_parent, after)
    &&& post.peer_views == pre.peer_views
    &&& post.view == pre.view
    &&& post.cache == pre.cache
    &&& post.reverse == pre.reverse
}

pub(crate) proof fn lemma_keys_contain(peers: Seq<PeerId>, p: Seq<u8>)
    ensures
        peer_keys(peers).contains(p) <==> exists|k: int|
            0 <= k < peers.len() && (#[trigger] peers[k]).bytes@ == p,
{
    let keys = peer_keys(peers);
    if keys.contains(p) {
        let k = choose|k: int| 0 <= k < keys.len() && keys[k] == p;
        assert(peers[k].bytes@ == p);
    }
    if exists|k: int| 0 <= k < peers.len() && (#[trigger] peers[k]).bytes@ == p {
        let k = choose|k: int| 0 <= k < peers.len() && (#[trigger] peers[k]).bytes@ == p;
        assert(keys[k] == p);
    }
}

pub(crate) proof fn lemma_only_sent(
    pre: StateModel,
    relay_parent: H256,
    message: MessageModel,
    peers: Seq<PeerId>,
    post: StateModel,
)
    requires
        post == pre.with_relay_parent(
            relay_parent,
            pre.per_relay_parent[relay_parent].after_send(peer_keys(peers), message),
        ),
    ensures
        only_sent(pre, relay_parent, message, peers, post),
{
    let known = pre.per_relay_parent[relay_parent];
    let after = post.per_relay_parent[relay_parent];
    let id = (message.candidate_hash, message.erasure_chunk.index);
    assert forall|p: Seq<u8>, i: MessageId| #[trigger]
        noted(after.sent_messages, p, i) <==> noted(known.sent_messages, p, i) || (i == id
            && exists|k: int| 0 <= k < peers.len() && (#[trigger] peers[k]).bytes@ == p) by {
        lemma_keys_contain(peers, p);
    }
}

pub(crate) proof fn lemma_concerns(
    state: StateModel,
    relay_parent: H256,
    id: MessageId,
    except: Option<Seq<u8>>,
    peers: Seq<PeerId>,
)
    requires
        peer_keys(peers).no_duplicates(),
        forall|p: Seq<u8>| #[trigger]
            peer_keys(peers).contains(p) <==> state.audience(relay_parent, id).contains(p)
                && except != Some(p),
    ensures
        to_whom_it_concerns(state, relay_parent, id, except, peers),
{
    assert forall|p: Seq<u8>|
        (exists|i: int| 0 <= i < peers.len() && (#[trigger] peers[i]).bytes@ == p) <==> (
        #[trigger] wants(state, relay_parent, id, p)) && except != Some(p) by {
        lemma_keys_contain(peers, p);
        assert(peer_keys(peers).contains(p) <==> state.audience(relay_parent, id).contains(p)
            && except != Some(p));
    }
    assert forall|i: int, j: int| 0 <= i < j < peers.len() implies (#[trigger] peers[i]).bytes@ != (
    #[trigger] peers[j]).bytes@ by {
        assert(peer_keys(peers)[i] != peer_keys(peers)[j]);
    }
}

/// An accepted message is gossiped on as it is: to all other peers that have its
/// relay parent in their view and were not sent it, and to no one else. It is
/// noted as sent to them, and nothing else changes.
pub proof fn law_accepted_messages_are_gossiped(
    pre: StateModel,
    origin: PeerId,
    message: AvailabilityGossipMessage,
    relay_parent: H256,
    post: StateModel,
    task: Task,
    action: Action,
)
    requires
        transition(
            pre,
            Task::Rewarding { origin, message, relay_parent },
            Reply::Sent,
            post,
            task,
            action,
        ),
    ensures
        task is Closing,
        action matches Action::SendMessage(peers, protocol, bytes) && bytes@ == scale_encoding(
            message.candidate_hash.0@,
            message.erasure_chunk.chunk@,
            message.erasure_chunk.index,
            byte_strings(message.erasure_chunk.proof@),
        ) && protocol@ == seq![0x61u8, 0x76, 0x61, 0x64] && to_whom_it_concerns(
            pre,
            relay_parent,
            (message.candidate_hash, message.erasure_chunk.index),
            Some(origin.bytes@),
            peers@,
        ) && only_sent(pre, relay_parent, message@, peers@, post),
{
    if let Action::SendMessage(peers, protocol, bytes) = action {
        lemma_only_sent(pre, relay_parent, message@, peers@, post);
        lemma_concerns(
            pre,
            relay_parent,
            (message.candidate_hash, message.erasure_chunk.index),
            Some(origin.bytes@),
            peers@,
        );
        assert(protocol@ =~= seq![0x61u8, 0x76, 0x61, 0x64]);
    }
}

/// A change of our view replaces our view by the new one, and no peer's. The
/// live candidates are asked for at the first head that is new, and those that
/// are new are all to be asked for, in order; where none is, the heads that are
/// not in the new view are forgotten at once.
pub proof fn law_our_view_is_taken_over(
    pre: StateModel,
    view: RelayView,
    reply: Reply,
    post: StateModel,
    task: Task,
    action: Action,
)
    requires
        brings(reply, NetworkBridgeEvent::OurViewChange(view)),
        transition(pre, Task::Receiving, reply, post, task, action),
    ensures
        post.view == view.0@,
        post.peer_views == pre.peer_views,
        post.per_relay_parent == pre.per_relay_parent,
        (exists|h: H256| view.0@.contains(h) && !#[trigger] pre.view.contains(h)) ==> post.cache
            == pre.cache && post.reverse == pre.reverse && (task matches Task::QueryingCores {
            change,
            at,
        } && at == 0 && change.old_view.0@ == pre.view && change.added@ == heads_difference(
            view.0@,
            pre.view,
        ) && (forall|h: H256| #[trigger]
            change.added@.contains(h) <==> view.0@.contains(h) && !pre.view.contains(h)) && (
        action matches Action::QueryAvailabilityCores(head) && head == change.added[0])),
        !(exists|h: H256| view.0@.contains(h) && !#[trigger] pre.view.contains(h)) ==> rests(
            task,
            action,
        ) && only_forgets((StateModel { view: view.0@, ..pre }), pre.view, post),
{
    let added = heads_difference(view.0@, pre.view);
    let mid = StateModel { view: view.0@, ..pre };
    lemma_queries_cores_keeps(mid, pre.view, added, 0, post, task, action);
    assert forall|h: H256| #[trigger] added.contains(h) <==> view.0@.contains(h)
        && !pre.view.contains(h) by {
        law_difference(view.0@, pre.view, h);
    }
    if exists|h: H256| view.0@.contains(h) && !#[trigger] pre.view.contains(h) {
        let h = choose|h: H256| view.0@.contains(h) && !#[trigger] pre.view.contains(h);
        assert(added.contains(h));
    } else {
        assert(added.len() == 0) by {
            if added.len() > 0 {
                assert(added.contains(added[0]));
            }
        }
        let todo = choose|todo: TodoModel|
            todo.well_formed() && is_union(todo.receipts, pre.cache, added)
                && #[trigger] distributes(
                mid,
                pre.view,
                added,
                todo,
                0,
                post,
                task,
                action,
            );
        assert(todo.order.len() == 0) by {
            if todo.order.len() > 0 {
                let h = todo.order[0];
                assert(todo.order.contains(h));
                assert(unioned(pre.cache, added, todo.receipts[h]));
            }
        }
        lemma_only_forgets(mid, pre.view, post);
    }
}

/// Where the proof of validity of a candidate is there, the head of its
/// parachain is asked for at its relay parent; then its data is coded for all
/// validators of the relay parent, the proof of validity with default
/// validation data. The state stays as it is.
pub proof fn law_data_is_gathered(
    pre: StateModel,
    waiting: Task,
    reply: Reply,
    post: StateModel,
    task: Task,
    action: Action,
)
    requires
        waiting is QueryingPoV && (reply matches Reply::PoV(pov) && pov is Some) || waiting
            is QueryingHeadData && reply is HeadData,
        transition(pre, waiting, reply, post, task, action),
    ensures
        post == pre,
        waiting matches Task::QueryingPoV { work } ==> {
            let receipt = work.todo@[work.todo.order()[work.at as int]];
            &&& action matches Action::QueryHeadData(head, para) && head
                == receipt.descriptor.relay_parent && para == receipt.descriptor.para_id
            &&& task matches Task::QueryingHeadData { work: w, pov } && w == work && (
            reply matches Reply::PoV(Some(p)) && p == pov)
        },
        waiting matches Task::QueryingHeadData { work, pov } ==> {
            let receipt = work.todo@[work.todo.order()[work.at as int]];
            &&& action matches Action::ObtainChunks(n, data) && n
                == pre.per_relay_parent[receipt.descriptor.relay_parent].validators.len()
                && data.pov == pov && ({
                let global = data.omitted_validation.global_validation;
                let local = data.omitted_validation.local_validation;
                &&& global.max_code_size == 0 && global.max_head_data_size == 0
                    && global.block_number == 0
                &&& local.parent_head.0.len() == 0 && local.balance == 0
                    && local.code_upgrade_allowed is None
                &&& forall|i: int| 0 <= i < 32 ==> #[trigger] local.validation_code_hash.0@[i] == 0
            })
            &&& task matches Task::Encoding { work: w } && w == work
        },
{
}

/// Our own chunk is stored as the coding gave it: under our index and the hash
/// of the candidate, with the bytes and all nodes of the branch at our index.
/// The chunks that are to be sent are all of them, the one at each position
/// under that index and as the coding gave it.
pub proof fn law_our_chunk_is_stored(
    pre: StateModel,
    waiting: Task,
    branches: Vec<(Vec<Vec<u8>>, Vec<u8>)>,
    post: StateModel,
    task: Task,
    action: Action,
)
    requires
        transition(pre, waiting, Reply::Chunks(Some(branches)), post, task, action),
        waiting matches Task::Encoding { work } && work.validator_index < branches.len(),
    ensures
        post == pre,
        waiting matches Task::Encoding { work } && ({
            let i = work.validator_index;
            &&& action matches Action::StoreChunk(hash, index, chunk) && hash
                == work.todo.order()[work.at as int] && index == i && chunk.index == i
                && chunk.chunk@ == branches[i as int].1@ && same_nodes(
                chunk.proof,
                branches[i as int].0,
            )
            &&& task matches Task::Storing { work: w, chunks } && w == work && chunks.len()
                == branches.len() && forall|j: int|
                0 <= j < chunks.len() ==> (#[trigger] chunks[j]).index == j as u32
                    && chunks[j].chunk@ == branches[j].1@ && same_nodes(
                    chunks[j].proof,
                    branches[j].0,
                )
        }),
{
    if let Task::Storing { work: w, chunks } = task {
        let models = chunk_models(chunks@);
        assert(models.len() == branches.len());
        assert forall|j: int| 0 <= j < chunks.len() implies (#[trigger] chunks[j]).index == j as u32
            && chunks[j].chunk@ == branches[j].1@ && same_nodes(
            chunks[j].proof,
            branches[j].0,
        ) by {
            assert(models[j] == chunks[j]@);
            assert(models[j] == our_chunks(branches@)[j]);
            lemma_same_nodes(chunks[j].proof, branches[j].0);
        }
    }
    if let (Task::Encoding { work }, Action::StoreChunk(hash, index, chunk)) = (waiting, action) {
        lemma_same_nodes(chunk.proof, branches[work.validator_index as int].0);
    }
}

/// Whether two branches have the same nodes: as many, and each with the same
/// bytes.
pub open spec fn same_nodes(a: Vec<Vec<u8>>, b: Vec<Vec<u8>>) -> bool {
    &&& a.len() == b.len()
    &&& forall|k: int| 0 <= k < a.len() ==> (#[trigger] a[k])@ == b[k]@
}

proof fn lemma_same_nodes(a: Vec<Vec<u8>>, b: Vec<Vec<u8>>)
    requires
        byte_strings(a@) == byte_strings(b@),
    ensures
        same_nodes(a, b),
{
    assert(byte_strings(a@).len() == a@.len() && byte_strings(b@).len() == b@.len());
    assert forall|k: int| 0 <= k < a.len() implies (#[trigger] a[k])@ == b[k]@ by {
        assert(byte_strings(a@)[k] == a@[k]@);
        assert(byte_strings(b@)[k] == b@[k]@);
    }
}

/// Where the data cannot be coded, or there is no chunk for our index, nothing
/// is stored or sent, and just the cached heads that the view before has and our
/// view has not are forgotten.
pub proof fn law_without_chunks_the_change_ends(
    pre: StateModel,
    waiting: Task,
    chunks: Option<Vec<(Vec<Vec<u8>>, Vec<u8>)>>,
    post: StateModel,
    task: Task,
    action: Action,
)
    requires
        transition(pre, waiting, Reply::Chunks(chunks), post, task, action),
        waiting matches Task::Encoding { work } && (chunks matches Some(b) ==> work.validator_index
            >= b.len()),
    ensures
        rests(task, action),
        waiting matches Task::Encoding { work } && only_forgets(
            pre,
            work.change.old_view.0@,
            post,
        ),
{
    if let Task::Encoding { work } = waiting {
        lemma_only_forgets(pre, work.change.old_view.0@, post);
    }
}

/// Whether just the cached heads of a view before that our view has not are
/// forgotten.
pub open spec fn only_forgets(pre: StateModel, old_view: Seq<H256>, post: StateModel) -> bool {
    drops(pre, Set::new(|h: H256| old_view.contains(h) && !pre.view.contains(h)), post)
}

/// Whether just the given relay parents are gone from the cache. A candidate
/// hash that a live candidate of one of them had leads to a relay parent that is
/// still cached with such a candidate, if there is one: to the same as before,
/// where that is one of them. Other hashes lead where they led.
pub open spec fn drops(pre: StateModel, gone: Set<H256>, post: StateModel) -> bool {
    &&& post.peer_views == pre.peer_views
    &&& post.view == pre.view
    &&& post.per_relay_parent == pre.per_relay_parent
    &&& forall|h: H256| #[trigger]
        post.cache.contains_key(h) <==> pre.cache.contains_key(h) && !gone.contains(h)
    &&& forall|h: H256| #[trigger]
        post.cache.contains_key(h) ==> post.cache[h] == pre.cache[h]
    &&& forall|hash: H256|
        (exists|p: H256| #[trigger] holds_candidate(pre, p, hash) && gone.contains(p)) ==> {
            &&& #[trigger] post.reverse.contains_key(hash) <==> exists|p: H256| #[trigger]
                holds_candidate(post, p, hash)
            &&& post.reverse.contains_key(hash) ==> holds_candidate(post, post.reverse[hash], hash)
            &&& pre.reverse.contains_key(hash) && holds_candidate(post, pre.reverse[hash], hash)
                ==> post.reverse[hash] == pre.reverse[hash]
        }
    &&& forall|hash: H256|
        !(exists|p: H256| #[trigger] holds_candidate(pre, p, hash) && gone.contains(p)) ==> {
            &&& #[trigger] post.reverse.contains_key(hash) <==> pre.reverse.contains_key(hash)
            &&& post.reverse.contains_key(hash) ==> post.reverse[hash] == pre.reverse[hash]
        }
}

/// Whether a relay parent is cached with a live candidate that has the hash.
pub open spec fn holds_candidate(state: StateModel, p: H256, hash: H256) -> bool {
    state.cache.contains_key(p) && exists|r: CommittedCandidateReceipt| #[trigger]
        state.cache[p].contains(r) && r.descriptor.validation_data_hash == hash
}

/// Forgetting relay parents drops just these.
pub proof fn law_forgetting_drops_relay_parents(
    pre: StateModel,
    relay_parents: Seq<H256>,
    post: StateModel,
)
    requires
        forgets(pre, relay_parents, post),
    ensures
        drops(pre, Set::new(|h: H256| relay_parents.contains(h)), post),
{
    let gone = Set::new(|h: H256| relay_parents.contains(h));
    assert forall|p: H256, hash: H256| #[trigger]
        holds_candidate(pre, p, hash) <==> live_under(pre.cache, p, hash) by {}
    assert forall|p: H256, hash: H256| #[trigger]
        holds_candidate(post, p, hash) <==> live_under(post.cache, p, hash) by {}
    assert forall|hash: H256| #[trigger]
        live_under_any(pre.cache, relay_parents, hash) <==> exists|p: H256| #[trigger]
        holds_candidate(pre, p, hash) && gone.contains(p) by {
        if live_under_any(pre.cache, relay_parents, hash) {
            let p = choose|p: H256|
                relay_parents.contains(p) && #[trigger] live_under(pre.cache, p, hash);
            assert(holds_candidate(pre, p, hash));
        }
        if exists|p: H256| #[trigger] holds_candidate(pre, p, hash) && gone.contains(p) {
            let p = choose|p: H256| #[trigger]
                holds_candidate(pre, p, hash) && gone.contains(p);
            assert(relay_parents.contains(p) && live_under(pre.cache, p, hash));
        }
    }
    assert forall|hash: H256|
        (exists|p: H256| #[trigger]
            holds_candidate(pre, p, hash) && gone.contains(p)) implies {
        &&& #[trigger] post.reverse.contains_key(hash) <==> exists|p: H256| #[trigger]
            holds_candidate(post, p, hash)
        &&& post.reverse.contains_key(hash) ==> holds_candidate(post, post.reverse[hash], hash)
        &&& pre.reverse.contains_key(hash) && holds_candidate(post, pre.reverse[hash], hash)
            ==> post.reverse[hash] == pre.reverse[hash]
    } by {
        assert(live_under_any(pre.cache, relay_parents, hash));
        if exists|p: H256| #[trigger] live_under(post.cache, p, hash) {
            let p = choose|p: H256| #[trigger] live_under(post.cache, p, hash);
            assert(holds_candidate(post, p, hash));
        }
        if exists|p: H256| #[trigger] holds_candidate(post, p, hash) {
            let p = choose|p: H256| #[trigger] holds_candidate(post, p, hash);
            assert(live_under(post.cache, p, hash));
        }
        if post.reverse.contains_key(hash) {
            assert(live_under(post.cache, post.reverse[hash], hash));
            assert(holds_candidate(post, post.reverse[hash], hash));
        }
        if pre.reverse.contains_key(hash) && holds_candidate(post, pre.reverse[hash], hash) {
            assert(live_under(post.cache, pre.reverse[hash], hash));
        }
    }
    assert forall|hash: H256|
        !(exists|p: H256| #[trigger] holds_candidate(pre, p, hash) && gone.contains(p)) implies {
        &&& #[trigger] post.reverse.contains_key(hash) <==> pre.reverse.contains_key(hash)
        &&& post.reverse.contains_key(hash) ==> post.reverse[hash] == pre.reverse[hash]
    } by {
        assert(!live_under_any(pre.cache, relay_parents, hash));
    }
}

pub(crate) proof fn lemma_only_forgets(pre: StateModel, old_view: Seq<H256>, post: StateModel)
    requires
        forgets(pre, heads_difference(old_view, pre.view), post),
    ensures
        only_forgets(pre, old_view, post),
{
    let removed = heads_difference(old_view, pre.view);
    law_forgetting_drops_relay_parents(pre, removed, post);
    assert forall|h: H256| #[trigger] removed.contains(h) <==> old_view.contains(h)
        && !pre.view.contains(h) by {
        law_difference(old_view, pre.view, h);
    }
    assert(Set::new(|h: H256| removed.contains(h)) =~= Set::new(
        |h: H256| old_view.contains(h) && !pre.view.contains(h),
    ));
}

/// Whether the live candidates of a relay parent are recorded: the cache holds
/// just them for it, each of their hashes leads to it, other hashes lead where
/// they led, and nothing else changes.
pub open spec fn only_records(
    pre: StateModel,
    relay_parent: H256,
    live: Set<CommittedCandidateReceipt>,
    post: StateModel,
) -> bool {
    &&& post.peer_views == pre.peer_views
    &&& post.view == pre.view
    &&& post.per_relay_parent == pre.per_relay_parent
    &&& post.cache == pre.cache.insert(relay_parent, live)
    &&& forall|r: CommittedCandidateReceipt| #[trigger]
        live.contains(r) ==> post.reverse.contains_key(r.descriptor.validation_data_hash)
            && post.reverse[r.descriptor.validation_data_hash] == relay_parent
    &&& forall|hash: H256|
        !(exists|r: CommittedCandidateReceipt| #[trigger]
            live.contains(r) && r.descriptor.validation_data_hash == hash) ==> (
        #[trigger] post.reverse.contains_key(hash) <==> pre.reverse.contains_key(hash)) && (
        post.reverse.contains_key(hash) ==> post.reverse[hash] == pre.reverse[hash])
}

/// Recording live candidates leads their hashes to the relay parent, and no
/// others.
pub proof fn law_recording_leads_to_the_relay_parent(
    state: StateModel,
    relay_parent: H256,
    live: Set<CommittedCandidateReceipt>,
)
    ensures
        only_records(state, relay_parent, live, state.recorded(relay_parent, live)),
{
    let post = state.recorded(relay_parent, live);
    assert forall|r: CommittedCandidateReceipt| #[trigger]
        live.contains(r) implies post.reverse.contains_key(r.descriptor.validation_data_hash)
        && post.reverse[r.descriptor.validation_data_hash] == relay_parent by {
        assert(names(live, r.descriptor.validation_data_hash));
    }
    assert forall|hash: H256|
        !(exists|r: CommittedCandidateReceipt| #[trigger]
            live.contains(r) && r.descriptor.validation_data_hash == hash) implies (
    #[trigger] post.reverse.contains_key(hash) <==> state.reverse.contains_key(hash)) && (
    post.reverse.contains_key(hash) ==> post.reverse[hash] == state.reverse[hash]) by {
        assert(!names(live, hash));
    }
}

/// A message that could not be sent, or an answer that did not come, ends the
/// update that wanted it and leaves everything as it is.
pub proof fn law_failures_leave_everything(
    pre: StateModel,
    waiting: Task,
    post: StateModel,
    task: Task,
    action: Action,
)
    requires
        waiting is QueryingCores || waiting is QueryingPending || waiting is QueryingPoV || waiting
            is QueryingHeadData || waiting is Distributing || waiting is CatchingUp || waiting
            is Rewarding || waiting is Closing,
        transition(pre, waiting, Reply::Failed, post, task, action),
    ensures
        post == pre,
        rests(task, action),
{
}

/// After the last message of an update nothing changes, and the next message of
/// the overseer is taken.
pub proof fn law_updates_end(
    pre: StateModel,
    reply: Reply,
    post: StateModel,
    task: Task,
    action: Action,
)
    requires
        transition(pre, Task::Closing, reply, post, task, action),
    ensures
        post == pre,
        rests(task, action),
{
}

/// A change of a peer's view, and every message that is sent to it after that,
/// leads to the next message for it, or the update ends.
pub proof fn law_catching_up_sends_or_ends(
    pre: StateModel,
    waiting: Task,
    reply: Reply,
    post: StateModel,
    task: Task,
    action: Action,
)
    requires
        waiting is CatchingUp && reply is Sent || waiting is Receiving && exists|
            peer: PeerId,
            view: RelayView,
        | #[trigger]
            brings(reply, NetworkBridgeEvent::PeerViewChange(peer, view)),
        transition(pre, waiting, reply, post, task, action),
    ensures
        rests(task, action) || (task is CatchingUp && action is SendMessage),
{
}

} // verus!
