//! The handling of changes of a peer's view: the messages that are known for
//! the heads that the peer now has in its view are sent to it.

use vstd::prelude::*;

use crate::collections::{Key, VecMap};
use crate::message::{AvailabilityGossipMessage, MessageModel, carries};
use crate::primitives::{CommittedCandidateReceipt, H256, PeerId, RelayView, heads_difference, peer_keys};
use crate::protocol::{Action, PROTOCOL_ID, Task, TodoModel, idle, sendable, todo_of};
use crate::state::{ProtocolState, StateModel, is_union, message_models};

verus! {

/// Whether messages of a candidate are owed to a peer.
pub open spec fn owes(state: StateModel, origin: Seq<u8>, todo: TodoModel, j: int) -> bool {
    &&& state.per_relay_parent.contains_key(todo.relay_parent(j))
    &&& exists|index: u32| #[trigger]
        state.per_relay_parent[todo.relay_parent(j)].owed(origin, todo.order[j], index)
}

/// The first candidate from `at` on of which messages are owed to a peer.
pub open spec fn next_owed(state: StateModel, origin: Seq<u8>, todo: TodoModel, at: int) -> int
    decreases todo.order.len() - at,
{
    if at >= todo.order.len() {
        todo.order.len() as int
    } else if owes(state, origin, todo, at) {
        at
    } else {
        next_owed(state, origin, todo, at + 1)
    }
}

/// The message at `k` is sent to the peer.
pub open spec fn sends_owed(
    pre: StateModel,
    origin: Seq<u8>,
    todo: TodoModel,
    at: int,
    messages: Seq<MessageModel>,
    k: int,
    post: StateModel,
    task: Task,
    action: Action,
) -> bool {
    let relay_parent = todo.relay_parent(at);
    &&& post == pre.with_relay_parent(
        relay_parent,
        pre.per_relay_parent[relay_parent].after_send(seq![origin], messages[k]),
    )
    &&& task matches Task::CatchingUp { origin: o, todo: t, at: a, messages: m, sent } && o@
        == origin && todo_of(t) == todo && a == at && message_models(m@) == messages && sent == k
    &&& action matches Action::SendMessage(peers, protocol, bytes) && peer_keys(peers@)
        == seq![origin] && protocol == PROTOCOL_ID && carries(bytes@, messages[k])
}

/// The candidates from `at` on are worked through: all messages of the next one
/// that are owed to the peer are sent to it, in some order.
pub open spec fn catches_up(
    pre: StateModel,
    origin: Seq<u8>,
    todo: TodoModel,
    at: int,
    post: StateModel,
    task: Task,
    action: Action,
) -> bool {
    let j = next_owed(pre, origin, todo, at);
    if j == todo.order.len() {
        post == pre && idle(task, action)
    } else {
        exists|messages: Seq<MessageModel>|
            pre.per_relay_parent[todo.relay_parent(j)].all_owed(origin, todo.order[j], messages)
                && #[trigger] sends_owed(
                pre,
                origin,
                todo,
                j,
                messages,
                0,
                post,
                task,
                action,
            )
    }
}

/// The view of a peer is replaced, and the peer is sent what is known of the
/// live candidates of the heads that the change adds.
pub open spec fn peer_view_changes(
    pre: StateModel,
    origin: Seq<u8>,
    view: Seq<H256>,
    post: StateModel,
    task: Task,
    action: Action,
) -> bool {
    exists|todo: TodoModel|
        todo.well_formed() && is_union(
            todo.receipts,
            pre.cache,
            heads_difference(view, pre.view_of(origin)),
        ) && #[trigger] catches_up(
            pre.with_peer_view(origin, view),
            origin,
            todo,
            0,
            post,
            task,
            action,
        )
}

/// Sends the message at `k` to the peer.
pub fn send_owed(
    state: &mut ProtocolState,
    origin: PeerId,
    todo: VecMap<H256, CommittedCandidateReceipt>,
    at: usize,
    messages: Vec<AvailabilityGossipMessage>,
    k: usize,
) -> (next: (Task, Action))
    requires
        old(state)@.well_formed(),
        at < todo.order().len(),
        old(state)@.per_relay_parent.contains_key(todo_of(todo).relay_parent(at as int)),
        k < messages.len(),
        sendable(
            old(state)@.per_relay_parent[todo_of(todo).relay_parent(at as int)],
            origin@,
            message_models(messages@),
            k as int,
        ),
    ensures
        sends_owed(
            old(state)@,
            origin@,
            todo_of(todo),
            at as int,
            message_models(messages@),
            k as int,
            final(state)@,
            next.0,
            next.1,
        ),
        final(state)@.well_formed(),
        next.0.well_formed(final(state)@),
{
    let relay_parent = todo.value_at(at).descriptor.relay_parent;
    match state.per_relay_parent.remove(&relay_parent) {
        Some(known) => {
            let mut known = known;
            let mut peers: Vec<PeerId> = Vec::new();
            peers.push(origin.duplicate());
            assert(peer_keys(peers@) =~= seq![origin@]);
            assert(message_models(messages@)[k as int] == messages[k as int]@);
            let bytes = known.track(&peers, messages[k].duplicate());
            state.per_relay_parent.insert(relay_parent, known);
            assert(state@.per_relay_parent =~= old(state)@.per_relay_parent.insert(
                relay_parent,
                known@,
            ));
            (
                Task::CatchingUp { origin, todo, at, messages, sent: k },
                Action::SendMessage(peers, PROTOCOL_ID, bytes),
            )
        },
        None => (Task::Receiving, Action::Receive),
    }
}

/// Sends the peer the messages of the candidates from `at` on.
pub fn catch_up(
    state: &mut ProtocolState,
    origin: PeerId,
    todo: VecMap<H256, CommittedCandidateReceipt>,
    at: usize,
) -> (next: (Task, Action))
    requires
        old(state)@.well_formed(),
        at <= todo.order().len(),
    ensures
        catches_up(
            old(state)@,
            origin@,
            todo_of(todo),
            at as int,
            final(state)@,
            next.0,
            next.1,
        ),
        final(state)@.well_formed(),
        next.0.well_formed(final(state)@),
{
    let n: usize = todo.len();
    let ghost model = todo_of(todo);
    let mut j: usize = at;
    while j < n
        invariant
            at <= j <= n,
            n == todo.order().len(),
            model == todo_of(todo),
            *state == *old(state),
            state@.well_formed(),
            next_owed(state@, origin@, model, at as int) == next_owed(
                state@,
                origin@,
                model,
                j as int,
            ),
        decreases n - j,
    {
        let relay_parent = todo.value_at(j).descriptor.relay_parent;
        let candidate = *todo.key_at(j);
        assert(relay_parent == model.relay_parent(j as int));
        if let Some(known) = state.per_relay_parent.get(&relay_parent) {
            let messages = known.owed_messages(&origin, candidate);
            let ghost models = message_models(messages@);
            assert(known@.all_owed(origin@, candidate, models));
            if messages.len() > 0 {
                assert(known@.owed(origin@, candidate, models[0].erasure_chunk.index));
                assert(owes(state@, origin@, model, j as int));
                assert forall|i: int| 0 <= i < messages.len() implies (
                #[trigger] models[i]).encodable() by {
                    assert(known@.message_vault.contains_key(models[i].id()));
                }
                return send_owed(state, origin, todo, j, messages, 0);
            }
            assert(!owes(state@, origin@, model, j as int));
        }
        j = j + 1;
    }
    (Task::Receiving, Action::Receive)
}

/// Handles a change of a peer's view.
pub fn handle_peer_view_change(state: &mut ProtocolState, origin: PeerId, view: RelayView) -> (next:
    (Task, Action))
    requires
        old(state)@.well_formed(),
    ensures
        peer_view_changes(old(state)@, origin@, view@, final(state)@, next.0, next.1),
        final(state)@.well_formed(),
        next.0.well_formed(final(state)@),
{
    let added = match state.peer_views.get(&origin) {
        Some(current) => view.difference(current),
        None => view.difference(&RelayView::empty()),
    };
    state.peer_views.insert(origin.duplicate(), view);
    assert(state@ == old(state)@.with_peer_view(origin@, view@));
    assert(state@.per_relay_parent == old(state)@.per_relay_parent);
    let todo = state.cached_relay_parents_to_live_candidates_unioned(&added);
    assert(todo_of(todo).well_formed());
    catch_up(state, origin, todo, 0)
}

/// What follows a message that was sent to the peer: the next message, or what
/// is owed of the next candidates.
pub open spec fn continues_catching_up(
    pre: StateModel,
    origin: Seq<u8>,
    todo: TodoModel,
    at: int,
    messages: Seq<MessageModel>,
    sent: int,
    post: StateModel,
    task: Task,
    action: Action,
) -> bool {
    if sent + 1 < messages.len() {
        sends_owed(pre, origin, todo, at, messages, sent + 1, post, task, action)
    } else {
        catches_up(pre, origin, todo, at + 1, post, task, action)
    }
}

/// Goes on once a message was sent to the peer.
pub fn continue_catching_up(
    state: &mut ProtocolState,
    origin: PeerId,
    todo: VecMap<H256, CommittedCandidateReceipt>,
    at: usize,
    messages: Vec<AvailabilityGossipMessage>,
    sent: usize,
) -> (next: (Task, Action))
    requires
        old(state)@.well_formed(),
        at < todo.order().len(),
        old(state)@.per_relay_parent.contains_key(todo_of(todo).relay_parent(at as int)),
        sent < messages.len(),
        sendable(
            old(state)@.per_relay_parent[todo_of(todo).relay_parent(at as int)],
            origin@,
            message_models(messages@),
            sent + 1,
        ),
    ensures
        continues_catching_up(
            old(state)@,
            origin@,
            todo_of(todo),
            at as int,
            message_models(messages@),
            sent as int,
            final(state)@,
            next.0,
            next.1,
        ),
        final(state)@.well_formed(),
        next.0.well_formed(final(state)@),
{
    if sent + 1 < messages.len() {
        send_owed(state, origin, todo, at, messages, sent + 1)
    } else {
        let n: usize = todo.len();
        assert(at < n);
        catch_up(state, origin, todo, at + 1)
    }
}

} // verus!
