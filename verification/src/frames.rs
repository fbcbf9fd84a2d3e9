//! What changes only on a certain occasion, said of the fields of the state,
//! the replies and the actions alone.

use vstd::prelude::*;

use crate::laws::{
    law_messages_are_sent_once, lemma_queries_cores_keeps, lemma_queries_pending_keeps, sent_anew,
};
use crate::message::{MessageId, MessageModel, blake_two_256, scale_encoding};
use crate::our_view::with_candidate;
use crate::peer_view::catches_up;
use crate::primitives::{H256, RelayView, heads_difference, occupied, peer_keys};
use crate::protocol::{
    Action, AvailabilityDistributionMessage, FromOverseer, NetworkBridgeEvent, Reply, Task, TodoModel,
};
use crate::state::{StateModel, is_union};
use crate::steps::{brings, lemma_keys_contain, noted};
use crate::subsystem::transition;

verus! {

/// Whether the bytes of the action are those of a message.
pub open spec fn sends(action: Action, message: MessageModel) -> bool {
    action matches Action::SendMessage(peers, protocol, bytes) && bytes@ == scale_encoding(
        message.candidate_hash.0@,
        message.erasure_chunk.chunk,
        message.erasure_chunk.index,
        message.erasure_chunk.proof,
    )
}

/// Whether the action sends something to a peer.
pub open spec fn goes_to(action: Action, peer: Seq<u8>) -> bool {
    action matches Action::SendMessage(peers, protocol, bytes) && exists|k: int|
        0 <= k < peers.len() && (#[trigger] peers[k]).bytes@ == peer
}

/// Whether a checked message of a relay parent is found valid: its branch proves
/// the hash of all bytes of its chunk.
pub open spec fn finds_valid(waiting: Task, reply: Reply, relay_parent: H256) -> bool {
    match (waiting, reply) {
        (Task::CheckingBranch { origin, message, relay_parent: h }, Reply::BranchHash(proven)) => {
            &&& h == relay_parent
            &&& proven matches Some(hash) && hash.0@ == blake_two_256(
                message.erasure_chunk.chunk@,
            )
        },
        _ => false,
    }
}

/// Whether work is started on heads, or the validators of one are there.
pub open spec fn starts_work(waiting: Task, reply: Reply) -> bool {
    ||| waiting is Activating
    ||| reply matches Reply::Received(message) && message matches FromOverseer::Signal(signal)
        && signal is ActiveLeaves
}

/// Whether what is tracked of relay parents is touched in no other way than by a
/// message that is sent, a message that is found valid, or the start of work.
proof fn lemma_tracked_moves(
    pre: StateModel,
    waiting: Task,
    reply: Reply,
    post: StateModel,
    task: Task,
    action: Action,
)
    requires
        transition(pre, waiting, reply, post, task, action),
        waiting.accepts(reply),
        !(action is SendMessage),
        !(waiting is CheckingBranch),
        !starts_work(waiting, reply),
    ensures
        post.per_relay_parent == pre.per_relay_parent,
{
    match (waiting, reply) {
        (
            Task::Receiving,
            Reply::Received(
                FromOverseer::Communication(
                    AvailabilityDistributionMessage::NetworkBridgeUpdate(event),
                ),
            ),
        ) => {
            if let NetworkBridgeEvent::OurViewChange(view) = event {
                lemma_queries_cores_keeps(
                    (StateModel { view: view@, ..pre }),
                    pre.view,
                    heads_difference(view@, pre.view),
                    0,
                    post,
                    task,
                    action,
                );
            }
            if let NetworkBridgeEvent::PeerViewChange(peer, view) = event {
                let todo = choose|todo: TodoModel|
                    todo.well_formed() && is_union(
                        todo.receipts,
                        pre.cache,
                        heads_difference(view@, pre.view_of(peer@)),
                    ) && #[trigger] catches_up(
                        pre.with_peer_view(peer@, view@),
                        peer@,
                        todo,
                        0,
                        post,
                        task,
                        action,
                    );
            }
        },
        (Task::QueryingCores { change, at }, Reply::AvailabilityCores(cores)) => {
            lemma_queries_pending_keeps(
                pre,
                change.old_view@,
                change.added@,
                at as int,
                occupied(cores@),
                0,
                Set::empty(),
                post,
                task,
                action,
            );
        },
        (
            Task::QueryingPending { change, at, paras, next, live },
            Reply::CandidatePendingAvailability(candidate),
        ) => {
            lemma_queries_pending_keeps(
                pre,
                change.old_view@,
                change.added@,
                at as int,
                paras@,
                next + 1,
                with_candidate(live@, candidate),
                post,
                task,
                action,
            );
        },
        _ => {},
    }
}

/// A message is noted as sent to a peer only where it is sent to it.
pub proof fn law_noted_as_sent_is_sent(
    pre: StateModel,
    waiting: Task,
    reply: Reply,
    post: StateModel,
    task: Task,
    action: Action,
    relay_parent: H256,
    peer: Seq<u8>,
    id: MessageId,
)
    requires
        pre.well_formed(),
        waiting.well_formed(pre),
        waiting.accepts(reply),
        transition(pre, waiting, reply, post, task, action),
        post.per_relay_parent.contains_key(relay_parent),
        noted(post.per_relay_parent[relay_parent].sent_messages, peer, id),
        !(pre.per_relay_parent.contains_key(relay_parent) && noted(
            pre.per_relay_parent[relay_parent].sent_messages,
            peer,
            id,
        )),
    ensures
        goes_to(action, peer),
        exists|message: MessageModel| #[trigger]
            sends(action, message) && message.candidate_hash == id.0
                && message.erasure_chunk.index == id.1,
{
    law_messages_are_sent_once(pre, waiting, reply, post, task, action);
    if let Action::SendMessage(peers, protocol, bytes) = action {
        let (h, message) = choose|h: H256, message: MessageModel| #[trigger]
            sent_anew(pre, post, peer_keys(peers@), bytes@, h, message);
        lemma_keys_contain(peers@, peer);
        assert(sends(action, message));
    } else if !(waiting is CheckingBranch) && !starts_work(waiting, reply) {
        lemma_tracked_moves(pre, waiting, reply, post, task, action);
    }
}

/// A message is noted as received only where it was checked and found valid, and
/// for the peer that it came from.
pub proof fn law_noted_as_received_is_valid(
    pre: StateModel,
    waiting: Task,
    reply: Reply,
    post: StateModel,
    task: Task,
    action: Action,
    relay_parent: H256,
    peer: Seq<u8>,
    id: MessageId,
)
    requires
        pre.well_formed(),
        waiting.well_formed(pre),
        waiting.accepts(reply),
        transition(pre, waiting, reply, post, task, action),
        post.per_relay_parent.contains_key(relay_parent),
        noted(post.per_relay_parent[relay_parent].received_messages, peer, id),
        !(pre.per_relay_parent.contains_key(relay_parent) && noted(
            pre.per_relay_parent[relay_parent].received_messages,
            peer,
            id,
        )),
    ensures
        finds_valid(waiting, reply, relay_parent),
        waiting matches Task::CheckingBranch { origin, message, relay_parent: h } && origin.bytes@
            == peer && message.candidate_hash == id.0 && message.erasure_chunk.index == id.1,
{
    law_messages_are_sent_once(pre, waiting, reply, post, task, action);
    if let Action::SendMessage(peers, protocol, bytes) = action {
        let (h, message) = choose|h: H256, message: MessageModel| #[trigger]
            sent_anew(pre, post, peer_keys(peers@), bytes@, h, message);
    } else if !(waiting is CheckingBranch) && !starts_work(waiting, reply) {
        lemma_tracked_moves(pre, waiting, reply, post, task, action);
    }
}

/// A message gets into a vault, or takes the place of another, only where it is
/// sent, or was checked and found valid.
pub proof fn law_vaults_hold_what_is_sent_or_valid(
    pre: StateModel,
    waiting: Task,
    reply: Reply,
    post: StateModel,
    task: Task,
    action: Action,
    relay_parent: H256,
    id: MessageId,
)
    requires
        pre.well_formed(),
        waiting.well_formed(pre),
        waiting.accepts(reply),
        transition(pre, waiting, reply, post, task, action),
        post.per_relay_parent.contains_key(relay_parent),
        post.per_relay_parent[relay_parent].message_vault.contains_key(id),
        !(pre.per_relay_parent.contains_key(relay_parent)
            && pre.per_relay_parent[relay_parent].message_vault.contains_key(id)
            && pre.per_relay_parent[relay_parent].message_vault[id]
            == post.per_relay_parent[relay_parent].message_vault[id]),
    ensures
        ({
            let message = post.per_relay_parent[relay_parent].message_vault[id];
            &&& message.candidate_hash == id.0
            &&& message.erasure_chunk.index == id.1
            &&& sends(action, message) || (finds_valid(waiting, reply, relay_parent) && (
            waiting matches Task::CheckingBranch { origin, message: m, relay_parent: h } && m@
                == message))
        }),
{
    law_messages_are_sent_once(pre, waiting, reply, post, task, action);
    if let Action::SendMessage(peers, protocol, bytes) = action {
        let (h, message) = choose|h: H256, message: MessageModel| #[trigger]
            sent_anew(pre, post, peer_keys(peers@), bytes@, h, message);
        assert(sends(action, message));
    } else if !(waiting is CheckingBranch) && !starts_work(waiting, reply) {
        lemma_tracked_moves(pre, waiting, reply, post, task, action);
    }
}

/// Nothing is lost of what is tracked: a relay parent stays tracked, and what
/// was noted as sent to a peer, as received from a peer, or put into the vault
/// stays so.
pub proof fn law_nothing_is_lost(
    pre: StateModel,
    waiting: Task,
    reply: Reply,
    post: StateModel,
    task: Task,
    action: Action,
    relay_parent: H256,
    peer: Seq<u8>,
    id: MessageId,
)
    requires
        pre.well_formed(),
        waiting.well_formed(pre),
        waiting.accepts(reply),
        transition(pre, waiting, reply, post, task, action),
        pre.per_relay_parent.contains_key(relay_parent),
    ensures
        post.per_relay_parent.contains_key(relay_parent),
        noted(pre.per_relay_parent[relay_parent].sent_messages, peer, id) ==> noted(
            post.per_relay_parent[relay_parent].sent_messages,
            peer,
            id,
        ),
        noted(pre.per_relay_parent[relay_parent].received_messages, peer, id) ==> noted(
            post.per_relay_parent[relay_parent].received_messages,
            peer,
            id,
        ),
        pre.per_relay_parent[relay_parent].message_vault.contains_key(id)
            ==> post.per_relay_parent[relay_parent].message_vault.contains_key(id),
{
    law_messages_are_sent_once(pre, waiting, reply, post, task, action);
    let known = pre.per_relay_parent[relay_parent];
    if noted(known.sent_messages, peer, id) {
        assert(known.was_sent(peer, id));
    }
    if noted(known.received_messages, peer, id) {
        assert(known.was_received(peer, id));
    }
}

/// A message is sent to a peer only if it is not noted as sent to it, and then
/// it is noted.
pub proof fn law_no_peer_is_sent_a_message_twice(
    pre: StateModel,
    waiting: Task,
    reply: Reply,
    post: StateModel,
    task: Task,
    action: Action,
)
    requires
        pre.well_formed(),
        waiting.well_formed(pre),
        waiting.accepts(reply),
        transition(pre, waiting, reply, post, task, action),
        action is SendMessage,
    ensures
        exists|relay_parent: H256, message: MessageModel| #[trigger]
            is_new_to_all(pre, relay_parent, message, action, post),
{
    law_messages_are_sent_once(pre, waiting, reply, post, task, action);
    if let Action::SendMessage(peers, protocol, bytes) = action {
        let (h, message) = choose|h: H256, message: MessageModel| #[trigger]
            sent_anew(pre, post, peer_keys(peers@), bytes@, h, message);
        assert forall|p: Seq<u8>| #[trigger] goes_to(action, p) implies !noted(
            pre.per_relay_parent[h].sent_messages,
            p,
            (message.candidate_hash, message.erasure_chunk.index),
        ) && noted(
            post.per_relay_parent[h].sent_messages,
            p,
            (message.candidate_hash, message.erasure_chunk.index),
        ) by {
            lemma_keys_contain(peers@, p);
            assert(peer_keys(peers@).contains(p));
        }
        assert(is_new_to_all(pre, h, message, action, post));
    }
}

/// Whether the action sends a message of a relay parent that is tracked, and
/// none of the peers it goes to is noted as sent it before, and each is after.
pub open spec fn is_new_to_all(
    pre: StateModel,
    relay_parent: H256,
    message: MessageModel,
    action: Action,
    post: StateModel,
) -> bool {
    let id = (message.candidate_hash, message.erasure_chunk.index);
    &&& pre.per_relay_parent.contains_key(relay_parent)
    &&& sends(action, message)
    &&& forall|p: Seq<u8>| #[trigger]
        goes_to(action, p) ==> !noted(pre.per_relay_parent[relay_parent].sent_messages, p, id)
            && noted(post.per_relay_parent[relay_parent].sent_messages, p, id)
}

/// A relay parent gets tracked, and its validators or our index change, only
/// where work is started.
pub proof fn law_validators_change_where_work_starts(
    pre: StateModel,
    waiting: Task,
    reply: Reply,
    post: StateModel,
    task: Task,
    action: Action,
    relay_parent: H256,
)
    requires
        pre.well_formed(),
        waiting.well_formed(pre),
        waiting.accepts(reply),
        transition(pre, waiting, reply, post, task, action),
        post.per_relay_parent.contains_key(relay_parent),
        !(pre.per_relay_parent.contains_key(relay_parent)
            && pre.per_relay_parent[relay_parent].validators
            == post.per_relay_parent[relay_parent].validators
            && pre.per_relay_parent[relay_parent].validator_index
            == post.per_relay_parent[relay_parent].validator_index),
    ensures
        starts_work(waiting, reply),
{
    law_messages_are_sent_once(pre, waiting, reply, post, task, action);
    if let Action::SendMessage(peers, protocol, bytes) = action {
        let (h, message) = choose|h: H256, message: MessageModel| #[trigger]
            sent_anew(pre, post, peer_keys(peers@), bytes@, h, message);
    } else if !(waiting is CheckingBranch) && !starts_work(waiting, reply) {
        lemma_tracked_moves(pre, waiting, reply, post, task, action);
    }
}

/// Our view changes only where the network bridge tells of it, and no peer's
/// view but that of the peer that the network bridge tells of.
pub proof fn law_views_change_when_told(
    pre: StateModel,
    waiting: Task,
    reply: Reply,
    post: StateModel,
    task: Task,
    action: Action,
)
    requires
        waiting.accepts(reply),
        transition(pre, waiting, reply, post, task, action),
    ensures
        match reply {
            Reply::Received(
                FromOverseer::Communication(
                    AvailabilityDistributionMessage::NetworkBridgeUpdate(event),
                ),
            ) => match event {
                NetworkBridgeEvent::OurViewChange(view) => post.view == view.0@ && post.peer_views
                    == pre.peer_views,
                NetworkBridgeEvent::PeerViewChange(peer, view) => post.view == pre.view
                    && post.peer_views == pre.peer_views.insert(peer.bytes@, view.0@),
                NetworkBridgeEvent::PeerConnected(peer, _) => post.view == pre.view && forall|
                    p: Seq<u8>,
                |
                    p != peer.bytes@ ==> (#[trigger] post.peer_views.contains_key(p)
                        <==> pre.peer_views.contains_key(p)) && (post.peer_views.contains_key(p)
                        ==> post.peer_views[p] == pre.peer_views[p]),
                NetworkBridgeEvent::PeerDisconnected(peer) => post.view == pre.view
                    && post.peer_views == pre.peer_views.remove(peer.bytes@),
                NetworkBridgeEvent::PeerMessage(_, _) => post.view == pre.view && post.peer_views
                    == pre.peer_views,
            },
            _ => post.view == pre.view && post.peer_views == pre.peer_views,
        },
{
    match (waiting, reply) {
        (
            Task::Receiving,
            Reply::Received(
                FromOverseer::Communication(
                    AvailabilityDistributionMessage::NetworkBridgeUpdate(event),
                ),
            ),
        ) => {
            if let NetworkBridgeEvent::OurViewChange(view) = event {
                lemma_queries_cores_keeps(
                    (StateModel { view: view@, ..pre }),
                    pre.view,
                    heads_difference(view@, pre.view),
                    0,
                    post,
                    task,
                    action,
                );
            }
        },
        (Task::QueryingCores { change, at }, Reply::AvailabilityCores(cores)) => {
            lemma_queries_pending_keeps(
                pre,
                change.old_view@,
                change.added@,
                at as int,
                occupied(cores@),
                0,
                Set::empty(),
                post,
                task,
                action,
            );
        },
        (
            Task::QueryingPending { change, at, paras, next, live },
            Reply::CandidatePendingAvailability(candidate),
        ) => {
            lemma_queries_pending_keeps(
                pre,
                change.old_view@,
                change.added@,
                at as int,
                paras@,
                next + 1,
                with_candidate(live@, candidate),
                post,
                task,
                action,
            );
        },
        _ => {},
    }
}

/// The caches change only while our view changes.
pub proof fn law_caches_change_with_our_view(
    pre: StateModel,
    waiting: Task,
    reply: Reply,
    post: StateModel,
    task: Task,
    action: Action,
)
    requires
        waiting.accepts(reply),
        transition(pre, waiting, reply, post, task, action),
        waiting is Registering || waiting is Activating || waiting is QueryingHeadData || waiting
            is CatchingUp || waiting is CheckingBranch || waiting is Rewarding || waiting
            is Closing || (waiting is Receiving && !exists|view: RelayView|
            #[trigger] brings(reply, NetworkBridgeEvent::OurViewChange(view))),
    ensures
        post.cache == pre.cache,
        post.reverse == pre.reverse,
{
    if waiting is Receiving {
        if let Reply::Received(
            FromOverseer::Communication(
                AvailabilityDistributionMessage::NetworkBridgeUpdate(
                    NetworkBridgeEvent::OurViewChange(view),
                ),
            ),
        ) = reply {
            assert(brings(reply, NetworkBridgeEvent::OurViewChange(view)));
        }
    }
}

} // verus!
