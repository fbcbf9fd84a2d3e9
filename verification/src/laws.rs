//! What holds of the protocol as a whole.

use vstd::prelude::*;

use crate::incoming::{checks_message, is_live, judges_message};
use crate::message::{
    ChunkModel, MessageId, MessageModel, carries, decoded_as, is_chunk_hash, law_decoding_is_unique,
};
use crate::our_view::{
    chunk_message, chunk_models, distributes, finishes, next_candidate, our_chunk, our_chunks,
    our_view_changes, queries_cores, queries_pending, sends_chunk, with_candidate,
};
use crate::peer_view::{catches_up, next_owed, owes, peer_view_changes, sends_owed};
use crate::primitives::{
    CommittedCandidateReceipt, H256, ParaId, PeerId, candidate_hash, heads_difference, occupied,
    peer_keys,
};
use crate::protocol::{
    Action, AvailabilityDistributionMessage, Distribution, Exit, FromOverseer, NetworkBridgeEvent,
    PROTOCOL_ID, Reply, Task, TodoModel, ViewChange, idle, reporting, reports, todo_of,
};
use crate::reputation::ReputationChange;
use crate::state::{
    RelayParentModel, StateModel, forgets, is_union, led_as_before, lemma_forgets_nothing,
    lemma_push_contains, lemma_take_distinct, lemma_take_next, live_at, live_under, live_under_any,
    lists, message_models, names, unioned,
};
use crate::subsystem::{network_updates, receives_message, transition};

verus! {

/// Whether nothing that was noted of messages is lost.
pub open spec fn keeps_notes(pre: RelayParentModel, post: RelayParentModel) -> bool {
    &&& forall|p: Seq<u8>, id: MessageId| #[trigger]
        pre.was_sent(p, id) ==> post.was_sent(p, id)
    &&& forall|p: Seq<u8>, id: MessageId| #[trigger]
        pre.was_received(p, id) ==> post.was_received(p, id)
    &&& forall|id: MessageId| #[trigger]
        pre.message_vault.contains_key(id) ==> post.message_vault.contains_key(id)
}

/// Whether nothing that was noted of messages is lost at any relay parent.
pub open spec fn keeps_all_notes(pre: StateModel, post: StateModel) -> bool {
    forall|h: H256| #[trigger]
        pre.per_relay_parent.contains_key(h) ==> post.per_relay_parent.contains_key(h)
            && keeps_notes(pre.per_relay_parent[h], post.per_relay_parent[h])
}

proof fn lemma_after_send_keeps(known: RelayParentModel, peers: Seq<Seq<u8>>, message: MessageModel)
    ensures
        keeps_notes(known, known.after_send(peers, message)),
        forall|p: Seq<u8>| #[trigger]
            peers.contains(p) ==> known.after_send(peers, message).was_sent(p, message.id()),
{
    let after = known.after_send(peers, message);
    assert forall|p: Seq<u8>, id: MessageId| #[trigger] known.was_sent(p, id) implies after.was_sent(
        p,
        id,
    ) by {
        assert(known.sent_messages.contains_key(p));
        assert(after.sent_messages.contains_key(p));
    }
    assert forall|p: Seq<u8>| #[trigger] peers.contains(p) implies after.was_sent(
        p,
        message.id(),
    ) by {
        assert(after.sent_messages.contains_key(p));
    }
}

proof fn lemma_accepted_keeps(known: RelayParentModel, origin: Seq<u8>, message: MessageModel)
    ensures
        keeps_notes(known, known.accepted(origin, message)),
        known.accepted(origin, message).was_received(origin, message.id()),
        known.accepted(origin, message).message_vault.contains_key(message.id()),
{
}

proof fn lemma_distributes_keeps(
    pre: StateModel,
    old_view: Seq<H256>,
    added: Seq<H256>,
    todo: TodoModel,
    at: int,
    post: StateModel,
    task: Task,
    action: Action,
)
    requires
        distributes(pre, old_view, added, todo, at, post, task, action),
    ensures
        post.per_relay_parent == pre.per_relay_parent,
        post.peer_views == pre.peer_views,
        post.view == pre.view,
        !(action is SendMessage),
{
}

pub(crate) proof fn lemma_queries_cores_keeps(
    pre: StateModel,
    old_view: Seq<H256>,
    added: Seq<H256>,
    at: int,
    post: StateModel,
    task: Task,
    action: Action,
)
    requires
        queries_cores(pre, old_view, added, at, post, task, action),
    ensures
        post.per_relay_parent == pre.per_relay_parent,
        post.peer_views == pre.peer_views,
        post.view == pre.view,
        !(action is SendMessage),
{
    if at >= added.len() {
        let todo = choose|todo: TodoModel|
            todo.well_formed() && is_union(todo.receipts, pre.cache, added)
                && #[trigger] distributes(pre, old_view, added, todo, 0, post, task, action);
        lemma_distributes_keeps(pre, old_view, added, todo, 0, post, task, action);
    }
}

pub(crate) proof fn lemma_queries_pending_keeps(
    pre: StateModel,
    old_view: Seq<H256>,
    added: Seq<H256>,
    at: int,
    paras: Seq<ParaId>,
    next: int,
    live: Set<CommittedCandidateReceipt>,
    post: StateModel,
    task: Task,
    action: Action,
)
    requires
        queries_pending(pre, old_view, added, at, paras, next, live, post, task, action),
    ensures
        post.per_relay_parent == pre.per_relay_parent,
        post.peer_views == pre.peer_views,
        post.view == pre.view,
        !(action is SendMessage),
{
    if next >= paras.len() {
        lemma_queries_cores_keeps(
            pre.recorded(added[at], live),
            old_view,
            added,
            at + 1,
            post,
            task,
            action,
        );
    }
}

/// Whether bytes carry a message of a relay parent to peers to which it was
/// not sent before, and it is noted as sent to them.
pub open spec fn sent_anew(
    pre: StateModel,
    post: StateModel,
    peers: Seq<Seq<u8>>,
    bytes: Seq<u8>,
    relay_parent: H256,
    message: MessageModel,
) -> bool {
    &&& carries(bytes, message)
    &&& pre.per_relay_parent.contains_key(relay_parent)
    &&& post.per_relay_parent == pre.per_relay_parent.insert(
        relay_parent,
        pre.per_relay_parent[relay_parent].after_send(peers, message),
    )
    &&& peers.no_duplicates()
    &&& forall|p: Seq<u8>| #[trigger]
        peers.contains(p) ==> !pre.per_relay_parent[relay_parent].was_sent(p, message.id())
            && post.per_relay_parent[relay_parent].was_sent(p, message.id())
}

/// What every step does with messages: nothing that was noted is lost, and
/// what is sent is new to its receivers.
pub open spec fn orderly(pre: StateModel, post: StateModel, action: Action) -> bool {
    &&& keeps_all_notes(pre, post)
    &&& action matches Action::SendMessage(peers, protocol, bytes) ==> protocol == PROTOCOL_ID
        && exists|relay_parent: H256, message: MessageModel| #[trigger]
        sent_anew(pre, post, peer_keys(peers@), bytes@, relay_parent, message)
}

proof fn lemma_send_is_orderly(
    pre: StateModel,
    relay_parent: H256,
    message: MessageModel,
    peers: Seq<PeerId>,
    bytes: Seq<u8>,
    post: StateModel,
)
    requires
        pre.per_relay_parent.contains_key(relay_parent),
        post == pre.with_relay_parent(
            relay_parent,
            pre.per_relay_parent[relay_parent].after_send(peer_keys(peers), message),
        ),
        carries(bytes, message),
        peer_keys(peers).no_duplicates(),
        forall|p: Seq<u8>| #[trigger]
            peer_keys(peers).contains(p) ==> !pre.per_relay_parent[relay_parent].was_sent(
                p,
                message.id(),
            ),
    ensures
        keeps_all_notes(pre, post),
        sent_anew(pre, post, peer_keys(peers), bytes, relay_parent, message),
{
    lemma_after_send_keeps(pre.per_relay_parent[relay_parent], peer_keys(peers), message);
}

proof fn lemma_sends_owed_is_orderly(
    pre: StateModel,
    origin: Seq<u8>,
    todo: TodoModel,
    at: int,
    messages: Seq<MessageModel>,
    k: int,
    post: StateModel,
    task: Task,
    action: Action,
)
    requires
        sends_owed(pre, origin, todo, at, messages, k, post, task, action),
        pre.per_relay_parent.contains_key(todo.relay_parent(at)),
        !pre.per_relay_parent[todo.relay_parent(at)].was_sent(origin, messages[k].id()),
    ensures
        orderly(pre, post, action),
{
    if let Action::SendMessage(peers, protocol, bytes) = action {
        assert(peer_keys(peers@) == seq![origin]);
        lemma_send_is_orderly(
            pre,
            todo.relay_parent(at),
            messages[k],
            peers@,
            bytes@,
            post,
        );
    }
}

pub(crate) proof fn lemma_next_owed(state: StateModel, origin: Seq<u8>, todo: TodoModel, at: int)
    requires
        at >= 0,
    ensures
        next_owed(state, origin, todo, at) == todo.order.len() || (at <= next_owed(
            state,
            origin,
            todo,
            at,
        ) < todo.order.len() && owes(state, origin, todo, next_owed(state, origin, todo, at))),
    decreases todo.order.len() - at,
{
    if at < todo.order.len() && !owes(state, origin, todo, at) {
        lemma_next_owed(state, origin, todo, at + 1);
    }
}

proof fn lemma_catches_up_is_orderly(
    pre: StateModel,
    origin: Seq<u8>,
    todo: TodoModel,
    at: int,
    post: StateModel,
    task: Task,
    action: Action,
)
    requires
        at >= 0,
        catches_up(pre, origin, todo, at, post, task, action),
    ensures
        orderly(pre, post, action),
{
    let j = next_owed(pre, origin, todo, at);
    lemma_next_owed(pre, origin, todo, at);
    if j < todo.order.len() {
        let known = pre.per_relay_parent[todo.relay_parent(j)];
        let messages = choose|messages: Seq<MessageModel>|
            known.all_owed(origin, todo.order[j], messages) && #[trigger] sends_owed(
                pre,
                origin,
                todo,
                j,
                messages,
                0,
                post,
                task,
                action,
            );
        let index = choose|index: u32| #[trigger] known.owed(origin, todo.order[j], index);
        let i = choose|i: int|
            0 <= i < messages.len() && (#[trigger] messages[i]).id() == (todo.order[j], index);
        assert(messages.len() > 0);
        assert(known.owed(origin, todo.order[j], messages[0].erasure_chunk.index));
        lemma_sends_owed_is_orderly(pre, origin, todo, j, messages, 0, post, task, action);
    }
}

proof fn lemma_sends_chunk_is_orderly(
    pre: StateModel,
    work: Distribution,
    chunks: Seq<ChunkModel>,
    k: int,
    post: StateModel,
    task: Task,
    action: Action,
)
    requires
        sends_chunk(pre, work, chunks, k, post, task, action),
        work.well_formed(pre),
    ensures
        orderly(pre, post, action),
{
    if k < chunks.len() {
        let relay_parent = work.relay_parent();
        let message = chunk_message(work, chunks, k);
        if let Action::SendMessage(peers, protocol, bytes) = action {
            lemma_send_is_orderly(pre, relay_parent, message, peers@, bytes@, post);
        }
    } else {
        lemma_distributes_keeps(
            pre,
            work.change.old_view@,
            work.change.added@,
            todo_of(work.todo),
            work.at + 1,
            post,
            task,
            action,
        );
    }
}

proof fn lemma_network_is_orderly(
    pre: StateModel,
    event: NetworkBridgeEvent,
    post: StateModel,
    task: Task,
    action: Action,
)
    requires
        network_updates(pre, event, post, task, action),
    ensures
        orderly(pre, post, action),
{
    match event {
        NetworkBridgeEvent::PeerViewChange(peer, view) => {
            let mid = pre.with_peer_view(peer@, view@);
            let todo = choose|todo: TodoModel|
                todo.well_formed() && is_union(
                    todo.receipts,
                    pre.cache,
                    heads_difference(view@, pre.view_of(peer@)),
                ) && #[trigger] catches_up(mid, peer@, todo, 0, post, task, action);
            lemma_catches_up_is_orderly(mid, peer@, todo, 0, post, task, action);
            if let Action::SendMessage(peers, protocol, bytes) = action {
                let (relay_parent, message) = choose|relay_parent: H256, message: MessageModel|
                    #[trigger] sent_anew(
                        mid,
                        post,
                        peer_keys(peers@),
                        bytes@,
                        relay_parent,
                        message,
                    );
                assert(sent_anew(pre, post, peer_keys(peers@), bytes@, relay_parent, message));
            }
        },
        NetworkBridgeEvent::OurViewChange(view) => {
            lemma_queries_cores_keeps(
                (StateModel { view: view@, ..pre }),
                pre.view,
                heads_difference(view@, pre.view),
                0,
                post,
                task,
                action,
            );
        },
        _ => {},
    }
}

/// A message is sent to a peer at most once, and nothing is forgotten of what
/// was sent, received or known.
///
/// In every step, a message that is sent goes to peers to which it was not sent
/// before and is then noted as sent to them; and no step takes back a note of a
/// message that was sent to a peer, received from a peer, or put into the
/// vault.
pub proof fn law_messages_are_sent_once(
    pre: StateModel,
    waiting: Task,
    reply: Reply,
    post: StateModel,
    task: Task,
    action: Action,
)
    requires
        pre.well_formed(),
        waiting.well_formed(pre),
        waiting.accepts(reply),
        transition(pre, waiting, reply, post, task, action),
    ensures
        keeps_all_notes(pre, post),
        action matches Action::SendMessage(peers, protocol, bytes) ==> protocol == PROTOCOL_ID
            && exists|relay_parent: H256, message: MessageModel| #[trigger]
            sent_anew(pre, post, peer_keys(peers@), bytes@, relay_parent, message),
{
    match (waiting, reply) {
        (Task::Receiving, Reply::Received(message)) => {
            if let FromOverseer::Communication(
                AvailabilityDistributionMessage::NetworkBridgeUpdate(event),
            ) = message {
                lemma_network_is_orderly(pre, event, post, task, action);
            }
        },
        (Task::QueryingCores { change, at }, Reply::AvailabilityCores(cores)) => {
            lemma_queries_pending_keeps(
                pre,
                change.old_view@,
                change.added@,
                at as int,
                occupied(cores@),
                0,
                Set::empty(),
                post,
                task,
                action,
            );
        },
        (
            Task::QueryingPending { change, at, paras, next, live },
            Reply::CandidatePendingAvailability(candidate),
        ) => {
            lemma_queries_pending_keeps(
                pre,
                change.old_view@,
                change.added@,
                at as int,
                paras@,
                next + 1,
                with_candidate(live@, candidate),
                post,
                task,
                action,
            );
        },
        (Task::QueryingPoV { work }, Reply::PoV(None)) => {
            lemma_distributes_keeps(
                pre,
                work.change.old_view@,
                work.change.added@,
                todo_of(work.todo),
                work.at + 1,
                post,
                task,
                action,
            );
        },
        (Task::Storing { work, chunks }, _) => {
            lemma_sends_chunk_is_orderly(
                pre,
                work,
                chunk_models(chunks@),
                0,
                post,
                task,
                action,
            );
        },
        (Task::Distributing { work, peers, chunks, sent }, Reply::Sent) => {
            lemma_sends_chunk_is_orderly(
                pre,
                work,
                chunk_models(chunks@),
                sent + 1,
                post,
                task,
                action,
            );
        },
        (Task::CatchingUp { origin, todo, at, messages, sent }, Reply::Sent) => {
            let models = message_models(messages@);
            if sent + 1 < models.len() {
                lemma_sends_owed_is_orderly(
                    pre,
                    origin@,
                    todo_of(todo),
                    at as int,
                    models,
                    sent + 1,
                    post,
                    task,
                    action,
                );
            } else {
                lemma_catches_up_is_orderly(
                    pre,
                    origin@,
                    todo_of(todo),
                    at + 1,
                    post,
                    task,
                    action,
                );
            }
        },
        (
            Task::CheckingBranch { origin, message, relay_parent },
            Reply::BranchHash(anticipated),
        ) => {
            lemma_accepted_keeps(pre.per_relay_parent[relay_parent], origin@, message@);
        },
        (Task::Rewarding { origin, message, relay_parent }, Reply::Sent) => {
            if let Action::SendMessage(peers, protocol, bytes) = action {
                lemma_send_is_orderly(pre, relay_parent, message@, peers@, bytes@, post);
            }
        },
        _ => {},
    }
}

/// Whether the cached relay parents are `old_view` and the heads of `added`.
pub open spec fn caches(state: StateModel, old_view: Seq<H256>, added: Seq<H256>) -> bool {
    forall|h: H256| #[trigger]
        state.cache.contains_key(h) <==> old_view.contains(h) || added.contains(h)
}

/// The change of our view that is under way, if there is one, and the added
/// heads that were looked up so far.
pub open spec fn under_way(task: Task) -> Option<(ViewChange, Seq<H256>)> {
    match task {
        Task::QueryingCores { change, at } => Some((change, change.added@.take(at as int))),
        Task::QueryingPending { change, at, paras, next, live } => Some(
            (change, change.added@.take(at as int)),
        ),
        Task::QueryingPoV { work } => Some((work.change, work.change.added@)),
        Task::QueryingHeadData { work, pov } => Some((work.change, work.change.added@)),
        Task::Encoding { work } => Some((work.change, work.change.added@)),
        Task::Storing { work, chunks } => Some((work.change, work.change.added@)),
        Task::Distributing { work, peers, chunks, sent } => Some(
            (work.change, work.change.added@),
        ),
        _ => None,
    }
}

/// Whether the cached relay parents go with our view: they are the heads of
/// our view, or, while our view changes, the heads of the view before and the
/// added heads that were looked up so far.
pub open spec fn in_step(state: StateModel, task: Task) -> bool {
    match under_way(task) {
        Some((change, looked_up)) => changing(state, change) && caches(
            state,
            change.old_view@,
            looked_up,
        ),
        None => task is Stopped || forall|h: H256| #[trigger]
            state.cache.contains_key(h) <==> state.view.contains(h),
    }
}

/// Whether the added heads are those that our view has and the view before has
/// not.
pub open spec fn changing(state: StateModel, change: ViewChange) -> bool {
    change.added@ == heads_difference(state.view, change.old_view@)
}

/// Whether a change of our view is not complete: the view before has heads that
/// are still to be forgotten, or not all added heads were looked up.
pub open spec fn incomplete(state: StateModel, change: ViewChange, looked_up: Seq<H256>) -> bool {
    ||| heads_difference(change.old_view@, state.view).len() > 0
    ||| heads_difference(change.added@, looked_up).len() > 0
}

/// Whether a change of our view is given up before it is complete: something
/// that it needs cannot be had.
pub open spec fn abandons(state: StateModel, waiting: Task, reply: Reply) -> bool {
    &&& reply is Failed
    &&& !(waiting is Storing)
    &&& under_way(waiting) matches Some((change, looked_up)) && incomplete(
        state,
        change,
        looked_up,
    )
}

/// The difference of two views holds what the first has and the second has
/// not.
pub proof fn law_difference(a: Seq<H256>, b: Seq<H256>, h: H256)
    ensures
        heads_difference(a, b).contains(h) <==> a.contains(h) && !b.contains(h),
    decreases a.len(),
{
    reveal(Seq::filter);
    let keep = |x: H256| !b.contains(x);
    if a.len() > 0 {
        law_difference(a.drop_last(), b, h);
        let short = a.drop_last().filter(keep);
        assert(a =~= a.drop_last().push(a.last()));
        lemma_push_contains(a.drop_last(), a.last());
        lemma_push_contains(short, a.last());
    }
}

/// The end of a change leaves the heads of our view in the cache, and no
/// others.
proof fn lemma_finishes_in_step(
    pre: StateModel,
    old_view: Seq<H256>,
    added: Seq<H256>,
    post: StateModel,
    task: Task,
    action: Action,
)
    requires
        finishes(pre, old_view, post, task, action),
        added == heads_difference(pre.view, old_view),
        caches(pre, old_view, added),
    ensures
        in_step(post, task),
{
    assert forall|h: H256| #[trigger] post.cache.contains_key(h) <==> post.view.contains(h) by {
        law_difference(old_view, pre.view, h);
        law_difference(pre.view, old_view, h);
    }
}

proof fn lemma_distributes_in_step(
    pre: StateModel,
    old_view: Seq<H256>,
    added: Seq<H256>,
    todo: TodoModel,
    at: int,
    post: StateModel,
    task: Task,
    action: Action,
)
    requires
        distributes(pre, old_view, added, todo, at, post, task, action),
        added == heads_difference(pre.view, old_view),
        caches(pre, old_view, added),
    ensures
        in_step(post, task),
{
    if next_candidate(pre, todo, at) == todo.order.len() {
        lemma_finishes_in_step(pre, old_view, added, post, task, action);
    }
}

proof fn lemma_queries_cores_in_step(
    pre: StateModel,
    old_view: Seq<H256>,
    added: Seq<H256>,
    at: int,
    post: StateModel,
    task: Task,
    action: Action,
)
    requires
        0 <= at <= added.len(),
        queries_cores(pre, old_view, added, at, post, task, action),
        added == heads_difference(pre.view, old_view),
        caches(pre, old_view, added.take(at)),
    ensures
        in_step(post, task),
{
    if at >= added.len() {
        assert(added.take(at) =~= added);
        let todo = choose|todo: TodoModel|
            todo.well_formed() && is_union(todo.receipts, pre.cache, added)
                && #[trigger] distributes(pre, old_view, added, todo, 0, post, task, action);
        lemma_distributes_in_step(pre, old_view, added, todo, 0, post, task, action);
    }
}

proof fn lemma_queries_pending_in_step(
    pre: StateModel,
    old_view: Seq<H256>,
    added: Seq<H256>,
    at: int,
    paras: Seq<ParaId>,
    next: int,
    live: Set<CommittedCandidateReceipt>,
    post: StateModel,
    task: Task,
    action: Action,
)
    requires
        0 <= at < added.len(),
        queries_pending(pre, old_view, added, at, paras, next, live, post, task, action),
        added == heads_difference(pre.view, old_view),
        caches(pre, old_view, added.take(at)),
    ensures
        in_step(post, task),
{
    if next >= paras.len() {
        let mid = pre.recorded(added[at], live);
        lemma_take_next(added, at);
        lemma_queries_cores_in_step(mid, old_view, added, at + 1, post, task, action);
    }
}

/// A complete change leaves the heads of our view in the cache, and no others.
proof fn lemma_complete_in_step(state: StateModel, change: ViewChange, looked_up: Seq<H256>)
    requires
        changing(state, change),
        caches(state, change.old_view@, looked_up),
        forall|h: H256| #[trigger] looked_up.contains(h) ==> change.added@.contains(h),
        !incomplete(state, change, looked_up),
    ensures
        in_step(state, Task::Receiving),
{
    let old_view = change.old_view@;
    let added = change.added@;
    assert forall|h: H256| #[trigger] state.cache.contains_key(h) <==> state.view.contains(h) by {
        law_difference(state.view, old_view, h);
        law_difference(old_view, state.view, h);
        law_difference(added, looked_up, h);
        assert(!heads_difference(old_view, state.view).contains(h));
        assert(!heads_difference(added, looked_up).contains(h));
    }
}

proof fn lemma_taken_is_contained(s: Seq<H256>, n: int)
    requires
        0 <= n <= s.len(),
    ensures
        forall|h: H256| #[trigger] s.take(n).contains(h) ==> s.contains(h),
{
    assert forall|h: H256| #[trigger] s.take(n).contains(h) implies s.contains(h) by {
        let j = choose|j: int| 0 <= j < n && s.take(n)[j] == h;
        assert(s[j] == h);
    }
}

/// At the start the cached relay parents are in step with our view, and the
/// lookup is sound and complete.
pub proof fn law_start_is_in_step()
    ensures
        in_step(StateModel::initial(), Task::Registering),
        reverse_sound(StateModel::initial()),
        reverse_complete(StateModel::initial()),
{
}

/// The cached relay parents are those of our view.
///
/// In every step, apart from those that give a change of our view up before it
/// is complete, the cached relay parents stay in step with our view: when no
/// change is under way, they are the heads of our view and no others.
pub proof fn law_cache_follows_view(
    pre: StateModel,
    waiting: Task,
    reply: Reply,
    post: StateModel,
    task: Task,
    action: Action,
)
    requires
        waiting.well_formed(pre),
        waiting.accepts(reply),
        transition(pre, waiting, reply, post, task, action),
        !abandons(pre, waiting, reply),
        in_step(pre, waiting),
    ensures
        in_step(post, task),
{
    match (waiting, reply) {
        (
            Task::Receiving,
            Reply::Received(
                FromOverseer::Communication(
                    AvailabilityDistributionMessage::NetworkBridgeUpdate(
                        NetworkBridgeEvent::OurViewChange(view),
                    ),
                ),
            ),
        ) => {
            let added = heads_difference(view@, pre.view);
            assert(added.take(0) =~= Seq::<H256>::empty());
            lemma_queries_cores_in_step(
                (StateModel { view: view@, ..pre }),
                pre.view,
                added,
                0,
                post,
                task,
                action,
            );
        },
        (Task::QueryingCores { change, at }, Reply::AvailabilityCores(cores)) => {
            lemma_queries_pending_in_step(
                pre,
                change.old_view@,
                change.added@,
                at as int,
                occupied(cores@),
                0,
                Set::empty(),
                post,
                task,
                action,
            );
        },
        (
            Task::QueryingPending { change, at, paras, next, live },
            Reply::CandidatePendingAvailability(candidate),
        ) => {
            lemma_queries_pending_in_step(
                pre,
                change.old_view@,
                change.added@,
                at as int,
                paras@,
                next + 1,
                with_candidate(live@, candidate),
                post,
                task,
                action,
            );
        },
        (Task::QueryingPoV { work }, Reply::PoV(None)) => {
            lemma_distributes_in_step(
                pre,
                work.change.old_view@,
                work.change.added@,
                todo_of(work.todo),
                work.at + 1,
                post,
                task,
                action,
            );
        },
        (Task::Distributing { work, peers, chunks, sent }, Reply::Sent) => {
            if sent + 1 >= chunk_models(chunks@).len() {
                lemma_distributes_in_step(
                    pre,
                    work.change.old_view@,
                    work.change.added@,
                    todo_of(work.todo),
                    work.at + 1,
                    post,
                    task,
                    action,
                );
            }
        },
        (Task::Storing { work, chunks }, _) => {
            if chunk_models(chunks@).len() == 0 {
                lemma_distributes_in_step(
                    pre,
                    work.change.old_view@,
                    work.change.added@,
                    todo_of(work.todo),
                    work.at + 1,
                    post,
                    task,
                    action,
                );
            }
        },
        (Task::Encoding { work }, Reply::Chunks(branches)) => {
            if !(task is Storing) {
                lemma_finishes_in_step(
                    pre,
                    work.change.old_view@,
                    work.change.added@,
                    post,
                    task,
                    action,
                );
            }
        },
        (_, Reply::Failed) => {
            if let Some((change, looked_up)) = under_way(waiting) {
                if let Task::QueryingCores { change, at } = waiting {
                    lemma_taken_is_contained(change.added@, at as int);
                }
                if let Task::QueryingPending { change, at, paras, next, live } = waiting {
                    lemma_taken_is_contained(change.added@, at as int);
                }
                lemma_complete_in_step(pre, change, looked_up);
            }
        },
        _ => {},
    }
}

/// Where the cached relay parents are the heads of our view and no head stands
/// in it twice, there are as many cached relay parents as heads.
pub proof fn law_cache_is_as_large_as_view(state: StateModel)
    requires
        in_step(state, Task::Receiving),
        state.view.no_duplicates(),
    ensures
        state.cache.len() == state.view.len(),
{
    assert(state.cache.dom() =~= state.view.to_set());
    state.view.unique_seq_to_set();
}

/// Whether each candidate hash that can be looked up leads to a cached relay
/// parent that has a live candidate with this hash.
pub open spec fn reverse_sound(state: StateModel) -> bool {
    forall|h: H256| #[trigger]
        state.reverse.contains_key(h) ==> live_under(state.cache, state.reverse[h], h)
}

/// Whether each live candidate of a cached relay parent can be looked up by its
/// hash.
pub open spec fn reverse_complete(state: StateModel) -> bool {
    forall|p: H256, h: H256| #[trigger]
        live_under(state.cache, p, h) ==> state.reverse.contains_key(h)
}

/// Recording the live candidates of a relay parent that is not cached keeps
/// the lookup sound, and leads from each of these candidates to the relay
/// parent.
pub proof fn law_recorded_candidates_are_found(
    state: StateModel,
    relay_parent: H256,
    live: Set<CommittedCandidateReceipt>,
)
    requires
        reverse_sound(state),
        !state.cache.contains_key(relay_parent),
    ensures
        reverse_sound(state.recorded(relay_parent, live)),
        forall|r: CommittedCandidateReceipt| #[trigger]
            live.contains(r) ==> state.recorded(relay_parent, live).reverse.contains_key(
                candidate_hash(r),
            ) && state.recorded(relay_parent, live).reverse[candidate_hash(r)] == relay_parent,
{
    let post = state.recorded(relay_parent, live);
    assert forall|r: CommittedCandidateReceipt| #[trigger]
        live.contains(r) implies post.reverse.contains_key(candidate_hash(r))
        && post.reverse[candidate_hash(r)] == relay_parent by {
        assert(names(live, candidate_hash(r)));
    }
}

/// Forgetting relay parents keeps the lookup sound, and no candidate is led to
/// them any more.
pub proof fn law_forgotten_candidates_are_not_found(
    pre: StateModel,
    removed: Seq<H256>,
    post: StateModel,
)
    requires
        reverse_sound(pre),
        forgets(pre, removed, post),
    ensures
        reverse_sound(post),
        forall|h: H256| #[trigger]
            post.reverse.contains_key(h) ==> !removed.contains(post.reverse[h]),
{
    assert forall|h: H256| #[trigger] post.reverse.contains_key(h) implies live_under(
        post.cache,
        post.reverse[h],
        h,
    ) by {
        if !live_under_any(pre.cache, removed, h) {
            assert(led_as_before(pre.reverse, post.reverse, h));
            assert(live_under(pre.cache, pre.reverse[h], h));
            assert(!removed.contains(pre.reverse[h]));
        }
    }
}

/// Forgetting relay parents forgets no candidate that is live under another
/// one: it is found as before.
pub proof fn law_other_live_candidates_stay_found(
    pre: StateModel,
    removed: Seq<H256>,
    post: StateModel,
)
    requires
        reverse_complete(pre),
        forgets(pre, removed, post),
    ensures
        reverse_complete(post),
{
    assert forall|p: H256, h: H256| #[trigger]
        live_under(post.cache, p, h) implies post.reverse.contains_key(h) by {
        assert(live_under(pre.cache, p, h));
        if !live_under_any(pre.cache, removed, h) {
            assert(led_as_before(pre.reverse, post.reverse, h));
        }
    }
}

/// Whether both states cache and look up the same.
pub open spec fn same_caches(a: StateModel, b: StateModel) -> bool {
    a.cache == b.cache && a.reverse == b.reverse
}

/// Whether the caches of `mid` are those of `pre`, with the live candidates of
/// the head that is looked up recorded or not.
pub open spec fn records_lookup(pre: StateModel, waiting: Task, mid: StateModel) -> bool {
    ||| same_caches(pre, mid)
    ||| {
        &&& looked_up_head(waiting) is Some
        &&& exists|live: Set<CommittedCandidateReceipt>|
            same_caches(#[trigger] pre.recorded(looked_up_head(waiting)->0, live), mid)
    }
}

/// The head whose live candidates are looked up, if any are.
pub open spec fn looked_up_head(waiting: Task) -> Option<H256> {
    match waiting {
        Task::QueryingCores { change, at } => Some(change.added[at as int]),
        Task::QueryingPending { change, at, paras, next, live } => Some(change.added[at as int]),
        _ => None,
    }
}

/// Whether the caches stay as they are, or relay parents are forgotten.
pub open spec fn trims(pre: StateModel, post: StateModel) -> bool {
    same_caches(pre, post) || exists|removed: Seq<H256>| #[trigger] forgets(pre, removed, post)
}

pub(crate) proof fn lemma_queries_cores_trims(
    pre: StateModel,
    old_view: Seq<H256>,
    added: Seq<H256>,
    at: int,
    post: StateModel,
    task: Task,
    action: Action,
)
    requires
        queries_cores(pre, old_view, added, at, post, task, action),
    ensures
        trims(pre, post),
{
    if at >= added.len() {
        let todo = choose|todo: TodoModel|
            todo.well_formed() && is_union(todo.receipts, pre.cache, added)
                && #[trigger] distributes(pre, old_view, added, todo, 0, post, task, action);
        assert(trims(pre, post));
    }
}

proof fn lemma_queries_pending_moves(
    pre: StateModel,
    waiting: Task,
    old_view: Seq<H256>,
    added: Seq<H256>,
    at: int,
    paras: Seq<ParaId>,
    next: int,
    live: Set<CommittedCandidateReceipt>,
    post: StateModel,
    task: Task,
    action: Action,
) -> (mid: StateModel)
    requires
        queries_pending(pre, old_view, added, at, paras, next, live, post, task, action),
        looked_up_head(waiting) == Some(added[at]),
    ensures
        records_lookup(pre, waiting, mid),
        trims(mid, post),
{
    if next >= paras.len() {
        let mid = pre.recorded(added[at], live);
        lemma_queries_cores_trims(mid, old_view, added, at + 1, post, task, action);
        assert(same_caches(pre.recorded(looked_up_head(waiting)->0, live), mid));
        mid
    } else {
        pre
    }
}

/// What a step does to the caches: the live candidates of the head that is
/// looked up may be recorded, and relay parents may be forgotten after that.
proof fn lemma_caches_move(
    pre: StateModel,
    waiting: Task,
    reply: Reply,
    post: StateModel,
    task: Task,
    action: Action,
) -> (mid: StateModel)
    requires
        transition(pre, waiting, reply, post, task, action),
    ensures
        records_lookup(pre, waiting, mid),
        trims(mid, post),
{
    match (waiting, reply) {
        (
            Task::Receiving,
            Reply::Received(
                FromOverseer::Communication(
                    AvailabilityDistributionMessage::NetworkBridgeUpdate(
                        NetworkBridgeEvent::OurViewChange(view),
                    ),
                ),
            ),
        ) => {
            let mid = StateModel { view: view@, ..pre };
            lemma_queries_cores_trims(
                mid,
                pre.view,
                heads_difference(view@, pre.view),
                0,
                post,
                task,
                action,
            );
            mid
        },
        (Task::QueryingCores { change, at }, Reply::AvailabilityCores(cores)) => {
            lemma_queries_pending_moves(
                pre,
                waiting,
                change.old_view@,
                change.added@,
                at as int,
                occupied(cores@),
                0,
                Set::empty(),
                post,
                task,
                action,
            )
        },
        (
            Task::QueryingPending { change, at, paras, next, live },
            Reply::CandidatePendingAvailability(candidate),
        ) => {
            lemma_queries_pending_moves(
                pre,
                waiting,
                change.old_view@,
                change.added@,
                at as int,
                paras@,
                next + 1,
                with_candidate(live@, candidate),
                post,
                task,
                action,
            )
        },
        _ => pre,
    }
}

/// A difference repeats no head that the first view does not repeat.
proof fn lemma_difference_distinct(a: Seq<H256>, b: Seq<H256>)
    requires
        a.no_duplicates(),
    ensures
        heads_difference(a, b).no_duplicates(),
    decreases a.len(),
{
    reveal(Seq::filter);
    let keep = |x: H256| !b.contains(x);
    if a.len() > 0 {
        lemma_difference_distinct(a.drop_last(), b);
        law_difference(a.drop_last(), b, a.last());
        assert(!a.drop_last().contains(a.last()));
        let short = a.drop_last().filter(keep);
        assert(short.push(a.last()).no_duplicates());
    }
}

/// Whether the head whose live candidates are looked up, if any are, is not
/// cached yet.
pub open spec fn looks_up_anew(state: StateModel, waiting: Task) -> bool {
    looked_up_head(waiting) matches Some(head) ==> !state.cache.contains_key(head)
}

/// Where the cached relay parents are in step with our view and no head stands
/// in our view twice, live candidates are looked up at heads only that are not
/// cached yet.
pub proof fn law_lookups_are_new(state: StateModel, waiting: Task)
    requires
        waiting.well_formed(state),
        in_step(state, waiting),
        state.view.no_duplicates(),
    ensures
        looks_up_anew(state, waiting),
{
    match waiting {
        Task::QueryingCores { change, at } => {
            lemma_added_is_new(state, change, at as int);
        },
        Task::QueryingPending { change, at, paras, next, live } => {
            lemma_added_is_new(state, change, at as int);
        },
        _ => {},
    }
}

proof fn lemma_added_is_new(state: StateModel, change: ViewChange, at: int)
    requires
        0 <= at < change.added.len(),
        changing(state, change),
        caches(state, change.old_view@, change.added@.take(at)),
        state.view.no_duplicates(),
    ensures
        !state.cache.contains_key(change.added[at]),
{
    let added = change.added@;
    lemma_difference_distinct(state.view, change.old_view@);
    lemma_take_distinct(added, at);
    law_difference(state.view, change.old_view@, added[at]);
    assert(added.contains(added[at]));
}

/// Each candidate hash that can be looked up is that of a live candidate.
///
/// In every step, unless a head that is cached already is looked up again, a
/// candidate hash leads to a cached relay parent that has a live candidate with
/// this hash.
pub proof fn law_lookup_is_sound(
    pre: StateModel,
    waiting: Task,
    reply: Reply,
    post: StateModel,
    task: Task,
    action: Action,
)
    requires
        waiting.well_formed(pre),
        waiting.accepts(reply),
        transition(pre, waiting, reply, post, task, action),
        looks_up_anew(pre, waiting),
        reverse_sound(pre),
    ensures
        reverse_sound(post),
{
    let mid = lemma_caches_move(pre, waiting, reply, post, task, action);
    if !same_caches(pre, mid) {
        let head = looked_up_head(waiting)->0;
        let live = choose|live: Set<CommittedCandidateReceipt>|
            same_caches(#[trigger] pre.recorded(head, live), mid);
        law_recorded_candidates_are_found(pre, head, live);
    }
    if !same_caches(mid, post) {
        let removed = choose|removed: Seq<H256>| #[trigger] forgets(mid, removed, post);
        law_forgotten_candidates_are_not_found(mid, removed, post);
    }
}

/// Each live candidate of a cached relay parent can be looked up, after every
/// step.
pub proof fn law_lookup_is_complete(
    pre: StateModel,
    waiting: Task,
    reply: Reply,
    post: StateModel,
    task: Task,
    action: Action,
)
    requires
        transition(pre, waiting, reply, post, task, action),
        reverse_complete(pre),
    ensures
        reverse_complete(post),
{
    let mid = lemma_caches_move(pre, waiting, reply, post, task, action);
    if !same_caches(pre, mid) {
        let head = looked_up_head(waiting)->0;
        let live = choose|live: Set<CommittedCandidateReceipt>|
            same_caches(#[trigger] pre.recorded(head, live), mid);
        assert forall|p: H256, h: H256| #[trigger]
            live_under(mid.cache, p, h) implies mid.reverse.contains_key(h) by {
            if p != head {
                assert(live_under(pre.cache, p, h));
            }
        }
    }
    if !same_caches(mid, post) {
        let removed = choose|removed: Seq<H256>| #[trigger] forgets(mid, removed, post);
        law_other_live_candidates_stay_found(mid, removed, post);
    }
}

/// A candidate that cannot be looked up is in nobody's view: where the lookup
/// is sound and complete and the cached relay parents are those of our view,
/// just the live candidates of our view are found.
pub proof fn law_lookup_finds_what_is_live(state: StateModel, hash: H256)
    requires
        in_step(state, Task::Receiving),
        reverse_sound(state),
        reverse_complete(state),
    ensures
        state.reverse.contains_key(hash) <==> is_live(state, hash),
{
    if state.reverse.contains_key(hash) {
        let p = state.reverse[hash];
        assert(live_under(state.cache, p, hash));
        let r = choose|r: CommittedCandidateReceipt| #[trigger]
            state.cache[p].contains(r) && candidate_hash(r) == hash;
        let j = choose|j: int| 0 <= j < state.view.len() && state.view[j] == p;
        assert(live_at(state.cache, state.view, j, r));
    }
    if is_live(state, hash) {
        let (j, r) = choose|j: int, r: CommittedCandidateReceipt| #[trigger]
            live_at(state.cache, state.view, j, r) && candidate_hash(r) == hash;
        assert(live_under(state.cache, state.view[j], hash));
    }
}

/// A relay parent that is not cached adds nothing to a union of live
/// candidates, wherever it stands.
pub proof fn law_uncached_relay_parents_add_nothing(
    candidates: Map<H256, CommittedCandidateReceipt>,
    cache: Map<H256, Set<CommittedCandidateReceipt>>,
    relay_parents: Seq<H256>,
    i: int,
    other: H256,
)
    requires
        !cache.contains_key(other),
        0 <= i <= relay_parents.len(),
    ensures
        is_union(candidates, cache, relay_parents.insert(i, other)) <==> is_union(
            candidates,
            cache,
            relay_parents,
        ),
{
    let long = relay_parents.insert(i, other);
    let out = |j: int|
        if j < i {
            j
        } else {
            j + 1
        };
    let back = |j: int|
        if j < i {
            j
        } else {
            j - 1
        };
    assert forall|j: int, r: CommittedCandidateReceipt| #[trigger]
        live_at(cache, relay_parents, j, r) implies live_at(cache, long, out(j), r) && back(out(j))
        == j by {
        assert(long[out(j)] == relay_parents[j]);
    }
    assert forall|j: int, r: CommittedCandidateReceipt| #[trigger]
        live_at(cache, long, j, r) implies j != i && live_at(cache, relay_parents, back(j), r)
        && out(back(j)) == j by {
        assert(j != i);
        assert(relay_parents[back(j)] == long[j]);
    }
    assert forall|r: CommittedCandidateReceipt|
        #![trigger unioned(cache, long, r)]
        #![trigger unioned(cache, relay_parents, r)]
        unioned(cache, long, r) <==> unioned(cache, relay_parents, r) by {
        if unioned(cache, long, r) {
            let j = choose|j: int|
                #![trigger live_at(cache, long, j, r)]
                live_at(cache, long, j, r) && forall|k: int, r2: CommittedCandidateReceipt|
                    j < k && #[trigger] live_at(cache, long, k, r2) ==> candidate_hash(r2)
                        != candidate_hash(r);
            assert(live_at(cache, relay_parents, back(j), r));
            assert forall|k: int, r2: CommittedCandidateReceipt|
                back(j) < k && #[trigger] live_at(cache, relay_parents, k, r2) implies candidate_hash(
                r2) != candidate_hash(r) by {
                assert(live_at(cache, long, out(k), r2));
            }
        }
        if unioned(cache, relay_parents, r) {
            let j = choose|j: int|
                #![trigger live_at(cache, relay_parents, j, r)]
                live_at(cache, relay_parents, j, r) && forall|
                    k: int,
                    r2: CommittedCandidateReceipt,
                |
                    j < k && #[trigger] live_at(cache, relay_parents, k, r2) ==> candidate_hash(r2)
                        != candidate_hash(r);
            assert(live_at(cache, long, out(j), r));
            assert forall|k: int, r2: CommittedCandidateReceipt|
                out(j) < k && #[trigger] live_at(cache, long, k, r2) implies candidate_hash(r2)
                != candidate_hash(r) by {
                assert(live_at(cache, relay_parents, back(k), r2));
            }
        }
    }
    if is_union(candidates, cache, long) {
        assert forall|j: int, r: CommittedCandidateReceipt| #[trigger]
            live_at(cache, relay_parents, j, r) implies candidates.contains_key(
            candidate_hash(r),
        ) by {
            assert(live_at(cache, long, out(j), r));
        }
    }
    if is_union(candidates, cache, relay_parents) {
        assert forall|j: int, r: CommittedCandidateReceipt| #[trigger]
            live_at(cache, long, j, r) implies candidates.contains_key(candidate_hash(r)) by {
            assert(live_at(cache, relay_parents, back(j), r));
        }
    }
}

/// Where one view has no head that another has not, nothing is in their
/// difference.
proof fn lemma_no_difference(a: Seq<H256>, b: Seq<H256>)
    requires
        forall|h: H256| #[trigger] a.contains(h) ==> b.contains(h),
    ensures
        heads_difference(a, b) == Seq::<H256>::empty(),
{
    let difference = heads_difference(a, b);
    if difference.len() > 0 {
        law_difference(a, b, difference[0]);
        assert(difference.contains(difference[0]));
    }
    assert(difference =~= Seq::<H256>::empty());
}

/// A change to a view with the heads that we have already asks for nothing, and
/// changes nothing but the view itself.
pub proof fn law_unchanged_view_changes_nothing(
    pre: StateModel,
    view: Seq<H256>,
    post: StateModel,
    task: Task,
    action: Action,
)
    requires
        forall|h: H256| #[trigger] view.contains(h) <==> pre.view.contains(h),
        our_view_changes(pre, view, post, task, action),
    ensures
        post == (StateModel { view, ..pre }),
        idle(task, action),
{
    let mid = StateModel { view, ..pre };
    let added = heads_difference(view, pre.view);
    lemma_no_difference(view, pre.view);
    lemma_no_difference(pre.view, view);
    lemma_forgets_nothing(mid);
    let todo = choose|todo: TodoModel|
        todo.well_formed() && is_union(todo.receipts, pre.cache, added) && #[trigger] distributes(
            mid,
            pre.view,
            added,
            todo,
            0,
            post,
            task,
            action,
        );
    assert(todo.order.len() == 0) by {
        if todo.order.len() > 0 {
            let h = todo.order[0];
            assert(todo.order.contains(h));
            assert(unioned(pre.cache, added, todo.receipts[h]));
        }
    }
}

/// A peer that connects is known with no heads, unless it is known already;
/// what is tracked beside the peers stays as it is.
pub proof fn law_connected_peers_are_known(
    pre: StateModel,
    event: NetworkBridgeEvent,
    post: StateModel,
    task: Task,
    action: Action,
)
    requires
        event is PeerConnected,
        network_updates(pre, event, post, task, action),
    ensures
        post.peer_views.contains_key(event->PeerConnected_0@),
        forall|p: Seq<u8>| post.view_of(p) == pre.view_of(p),
        post == (StateModel { peer_views: post.peer_views, ..pre }),
{
}

/// A peer that disconnects is forgotten, and no other; it then wants nothing.
pub proof fn law_disconnected_peers_are_forgotten(
    pre: StateModel,
    event: NetworkBridgeEvent,
    post: StateModel,
    task: Task,
    action: Action,
)
    requires
        event is PeerDisconnected,
        network_updates(pre, event, post, task, action),
    ensures
        forall|p: Seq<u8>| #[trigger]
            post.peer_views.contains_key(p) <==> pre.peer_views.contains_key(p) && p
                != event->PeerDisconnected_0@,
        forall|relay_parent: H256|
            !(#[trigger] post.interested(relay_parent)).contains(event->PeerDisconnected_0@),
        forall|p: Seq<u8>|
            p != event->PeerDisconnected_0@ ==> #[trigger] post.view_of(p) == pre.view_of(p),
{
}

/// A change of a peer's view is taken over, and touches no other peer.
pub proof fn law_peer_views_are_taken_over(
    pre: StateModel,
    origin: Seq<u8>,
    view: Seq<H256>,
    post: StateModel,
    task: Task,
    action: Action,
)
    requires
        peer_view_changes(pre, origin, view, post, task, action),
    ensures
        post.peer_views == pre.peer_views.insert(origin, view),
        post.view == pre.view,
        post.cache == pre.cache,
        post.reverse == pre.reverse,
{
}

/// Whether everything that is owed to the peer of candidates before the one
/// that is worked on was sent, and what is still owed of that one waits to be
/// sent.
pub open spec fn catching_up(
    state: StateModel,
    origin: Seq<u8>,
    todo: TodoModel,
    at: int,
    messages: Seq<MessageModel>,
    sent: int,
) -> bool {
    &&& 0 <= at < todo.order.len()
    &&& 0 <= sent < messages.len()
    &&& state.per_relay_parent.contains_key(todo.relay_parent(at))
    &&& forall|j: int| 0 <= j < at ==> !#[trigger] owes(state, origin, todo, j)
    &&& forall|index: u32| #[trigger]
        state.per_relay_parent[todo.relay_parent(at)].owed(origin, todo.order[at], index)
            ==> exists|i: int|
            sent < i < messages.len() && (#[trigger] messages[i]).id() == (todo.order[at], index)
}

/// Whether the peer is being caught up on the candidates, or nothing of them
/// is owed to it.
pub open spec fn caught_up(
    state: StateModel,
    origin: Seq<u8>,
    todo: TodoModel,
    task: Task,
) -> bool {
    match task {
        Task::CatchingUp { origin: o, todo: t, at, messages, sent } => {
            &&& o@ == origin
            &&& todo_of(t) == todo
            &&& catching_up(
                state,
                origin,
                todo,
                at as int,
                message_models(messages@),
                sent as int,
            )
        },
        _ => forall|j: int| 0 <= j < todo.order.len() ==> !#[trigger] owes(state, origin, todo, j),
    }
}

/// Sending a message to a peer makes nothing else owed to it.
proof fn lemma_send_owes_no_more(
    pre: StateModel,
    origin: Seq<u8>,
    todo: TodoModel,
    relay_parent: H256,
    message: MessageModel,
    post: StateModel,
)
    requires
        pre.per_relay_parent.contains_key(relay_parent),
        post == pre.with_relay_parent(
            relay_parent,
            pre.per_relay_parent[relay_parent].after_send(seq![origin], message),
        ),
    ensures
        forall|candidate: H256, index: u32| #[trigger]
            post.per_relay_parent[relay_parent].owed(origin, candidate, index)
                ==> pre.per_relay_parent[relay_parent].owed(origin, candidate, index) && (
            candidate,
            index,
        ) != message.id(),
        forall|j: int| #[trigger] owes(post, origin, todo, j) ==> owes(pre, origin, todo, j),
{
    let before = pre.per_relay_parent[relay_parent];
    let after = post.per_relay_parent[relay_parent];
    lemma_after_send_keeps(before, seq![origin], message);
    assert(seq![origin].contains(origin)) by {
        assert(seq![origin][0] == origin);
    }
    assert forall|candidate: H256, index: u32| #[trigger]
        after.owed(origin, candidate, index) implies before.owed(origin, candidate, index) && (
        candidate,
        index,
    ) != message.id() by {
        assert(after.was_sent(origin, message.id()));
        if before.was_sent(origin, (candidate, index)) {
            assert(after.was_sent(origin, (candidate, index)));
        }
    }
    assert forall|j: int| #[trigger] owes(post, origin, todo, j) implies owes(
        pre,
        origin,
        todo,
        j,
    ) by {
        let index = choose|index: u32| #[trigger]
            post.per_relay_parent[todo.relay_parent(j)].owed(origin, todo.order[j], index);
        assert(pre.per_relay_parent[todo.relay_parent(j)].owed(origin, todo.order[j], index));
    }
}

proof fn lemma_skipped_owe_nothing(state: StateModel, origin: Seq<u8>, todo: TodoModel, at: int)
    ensures
        forall|j: int|
            at <= j < next_owed(state, origin, todo, at) ==> !#[trigger] owes(
                state,
                origin,
                todo,
                j,
            ),
    decreases todo.order.len() - at,
{
    if at < todo.order.len() && !owes(state, origin, todo, at) {
        lemma_skipped_owe_nothing(state, origin, todo, at + 1);
    }
}

pub(crate) proof fn lemma_catches_up(
    pre: StateModel,
    origin: Seq<u8>,
    todo: TodoModel,
    at: int,
    post: StateModel,
    task: Task,
    action: Action,
)
    requires
        0 <= at <= todo.order.len(),
        catches_up(pre, origin, todo, at, post, task, action),
        forall|j: int| 0 <= j < at ==> !#[trigger] owes(pre, origin, todo, j),
    ensures
        caught_up(post, origin, todo, task),
{
    let j = next_owed(pre, origin, todo, at);
    lemma_next_owed(pre, origin, todo, at);
    lemma_skipped_owe_nothing(pre, origin, todo, at);
    if j < todo.order.len() {
        let known = pre.per_relay_parent[todo.relay_parent(j)];
        let messages = choose|messages: Seq<MessageModel>|
            known.all_owed(origin, todo.order[j], messages) && #[trigger] sends_owed(
                pre,
                origin,
                todo,
                j,
                messages,
                0,
                post,
                task,
                action,
            );
        let index = choose|index: u32| #[trigger] known.owed(origin, todo.order[j], index);
        let i = choose|i: int|
            0 <= i < messages.len() && (#[trigger] messages[i]).id() == (todo.order[j], index);
        assert(messages.len() > 0);
        lemma_send_owes_no_more(pre, origin, todo, todo.relay_parent(j), messages[0], post);
        assert forall|index: u32| #[trigger]
            post.per_relay_parent[todo.relay_parent(j)].owed(
                origin,
                todo.order[j],
                index,
            ) implies exists|i: int|
            0 < i < messages.len() && (#[trigger] messages[i]).id() == (todo.order[j], index) by {
            assert(known.owed(origin, todo.order[j], index));
            let i = choose|i: int|
                0 <= i < messages.len() && (#[trigger] messages[i]).id() == (todo.order[j], index);
            assert(i != 0);
        }
        assert(catching_up(post, origin, todo, j, messages, 0));
    }
}

/// A peer whose view changes is being caught up on the live candidates of the
/// heads that the change adds, or nothing of them is owed to it.
pub proof fn law_catching_up_begins(
    pre: StateModel,
    origin: Seq<u8>,
    view: Seq<H256>,
    post: StateModel,
    task: Task,
    action: Action,
)
    requires
        peer_view_changes(pre, origin, view, post, task, action),
    ensures
        exists|todo: TodoModel|
            todo.well_formed() && is_union(
                todo.receipts,
                pre.cache,
                heads_difference(view, pre.view_of(origin)),
            ) && #[trigger] caught_up(post, origin, todo, task),
{
    let mid = pre.with_peer_view(origin, view);
    let todo = choose|todo: TodoModel|
        todo.well_formed() && is_union(
            todo.receipts,
            pre.cache,
            heads_difference(view, pre.view_of(origin)),
        ) && #[trigger] catches_up(mid, origin, todo, 0, post, task, action);
    lemma_catches_up(mid, origin, todo, 0, post, task, action);
    assert(caught_up(post, origin, todo, task));
}

/// Catching a peer up leaves nothing out: while messages can be sent, it goes
/// on until nothing of the candidates is owed to the peer.
pub proof fn law_catching_up_is_complete(
    pre: StateModel,
    waiting: Task,
    origin: Seq<u8>,
    todo: TodoModel,
    post: StateModel,
    task: Task,
    action: Action,
)
    requires
        waiting is CatchingUp,
        caught_up(pre, origin, todo, waiting),
        transition(pre, waiting, Reply::Sent, post, task, action),
    ensures
        caught_up(post, origin, todo, task),
        task is CatchingUp || idle(task, action),
{
    if let Task::CatchingUp { origin: o, todo: t, at, messages, sent } = waiting {
        let models = message_models(messages@);
        let relay_parent = todo.relay_parent(at as int);
        if sent + 1 < models.len() {
            let message = models[sent + 1];
            lemma_send_owes_no_more(pre, origin, todo, relay_parent, message, post);
            assert forall|index: u32| #[trigger]
                post.per_relay_parent[relay_parent].owed(
                    origin,
                    todo.order[at as int],
                    index,
                ) implies exists|i: int|
                sent + 1 < i < models.len() && (#[trigger] models[i]).id() == (
                    todo.order[at as int],
                    index,
                ) by {
                assert(pre.per_relay_parent[relay_parent].owed(
                    origin,
                    todo.order[at as int],
                    index,
                ));
                let i = choose|i: int|
                    sent < i < models.len() && (#[trigger] models[i]).id() == (
                        todo.order[at as int],
                        index,
                    );
                assert(i != sent + 1);
            }
            assert(catching_up(post, origin, todo, at as int, models, sent + 1));
        } else {
            assert(!owes(pre, origin, todo, at as int)) by {
                if owes(pre, origin, todo, at as int) {
                    let index = choose|index: u32| #[trigger]
                        pre.per_relay_parent[relay_parent].owed(
                            origin,
                            todo.order[at as int],
                            index,
                        );
                    let i = choose|i: int|
                        sent < i < models.len() && (#[trigger] models[i]).id() == (
                            todo.order[at as int],
                            index,
                        );
                }
            }
            lemma_catches_up(pre, origin, todo, at + 1, post, task, action);
        }
    }
}

/// A peer is sent only what its view wants: where each live candidate stands
/// in the cache at its own relay parent, the candidates on which a peer is
/// caught up are those of heads in its view.
pub proof fn law_peers_get_what_their_view_wants(
    pre: StateModel,
    origin: Seq<u8>,
    view: Seq<H256>,
    todo: TodoModel,
    j: int,
)
    requires
        forall|h: H256, r: CommittedCandidateReceipt|
            pre.cache.contains_key(h) && #[trigger] pre.cache[h].contains(r)
                ==> r.descriptor.relay_parent == h,
        todo.well_formed(),
        is_union(todo.receipts, pre.cache, heads_difference(view, pre.view_of(origin))),
        0 <= j < todo.order.len(),
    ensures
        view.contains(todo.relay_parent(j)),
        pre.with_peer_view(origin, view).interested(todo.relay_parent(j)).contains(origin),
{
    let heads = heads_difference(view, pre.view_of(origin));
    let h = todo.order[j];
    assert(todo.order.contains(h));
    let r = todo.receipts[h];
    assert(unioned(pre.cache, heads, r));
    let k = choose|k: int| #[trigger] live_at(pre.cache, heads, k, r);
    assert(pre.cache[heads[k]].contains(r));
    assert(heads.contains(heads[k]));
    law_difference(view, pre.view_of(origin), heads[k]);
}

/// Every peer that has the candidate's relay parent in its view is sent our
/// chunks: once a chunk goes out, each of these peers was sent a message with
/// the identity of the chunk's message, now or before.
pub proof fn law_interested_peers_are_sent_our_chunks(
    pre: StateModel,
    work: Distribution,
    chunks: Seq<ChunkModel>,
    k: int,
    post: StateModel,
    task: Task,
    action: Action,
    peer: Seq<u8>,
)
    requires
        0 <= k < chunks.len(),
        sends_chunk(pre, work, chunks, k, post, task, action),
        pre.interested(work.relay_parent()).contains(peer),
    ensures
        post.per_relay_parent[work.relay_parent()].was_sent(
            peer,
            (work.candidate(), chunks[k].index),
        ),
{
    let relay_parent = work.relay_parent();
    let message = chunk_message(work, chunks, k);
    if let Action::SendMessage(peers, protocol, bytes) = action {
        lemma_after_send_keeps(
            pre.per_relay_parent[relay_parent],
            peer_keys(peers@),
            message,
        );
        if !pre.per_relay_parent[relay_parent].was_sent(peer, message.id()) {
            assert(pre.audience(relay_parent, message.id()).contains(peer));
            assert(peer_keys(peers@).contains(peer));
        }
    }
}

/// Whether the subsystem goes through the states and tasks, from reply to reply,
/// and wants the actions done.
pub open spec fn runs(
    states: Seq<StateModel>,
    tasks: Seq<Task>,
    replies: Seq<Reply>,
    actions: Seq<Action>,
) -> bool {
    &&& states.len() == replies.len() + 1
    &&& tasks.len() == replies.len() + 1
    &&& actions.len() == replies.len()
    &&& forall|i: int|
        #![trigger replies[i]]
        #![trigger actions[i]]
        0 <= i < replies.len() ==> tasks[i].accepts(replies[i]) && transition(
            states[i],
            tasks[i],
            replies[i],
            states[i + 1],
            tasks[i + 1],
            actions[i],
        )
}

/// Whether the chunks before `m` were sent, and nothing else was done since
/// `start`: each of their messages is in the vault and noted as sent to the
/// interested peers, and of the messages of the other chunks the notes are those
/// of `start`.
pub open spec fn sent_up_to(
    start: StateModel,
    work: Distribution,
    chunks: Seq<ChunkModel>,
    m: int,
    state: StateModel,
) -> bool {
    let relay_parent = work.relay_parent();
    let known = state.per_relay_parent[relay_parent];
    &&& state.peer_views == start.peer_views
    &&& forall|j: int|
        #![trigger chunk_message(work, chunks, j)]
        0 <= j < m ==> {
            let message = chunk_message(work, chunks, j);
            &&& known.message_vault.contains_key(message.id())
            &&& known.message_vault[message.id()] == message
            &&& forall|p: Seq<u8>| #[trigger]
                start.interested(relay_parent).contains(p) ==> known.was_sent(p, message.id())
        }
    &&& forall|p: Seq<u8>, j: int|
        #![trigger known.was_sent(p, chunk_message(work, chunks, j).id())]
        m <= j < chunks.len() ==> (known.was_sent(p, chunk_message(work, chunks, j).id())
            <==> start.per_relay_parent[relay_parent].was_sent(
            p,
            chunk_message(work, chunks, j).id(),
        ))
}

/// Whether the action sends the message of the chunk at `k` to the interested
/// peers that had not been sent it at `start`, and to no others.
pub open spec fn sends_to_interested(
    start: StateModel,
    work: Distribution,
    chunks: Seq<ChunkModel>,
    k: int,
    action: Action,
) -> bool {
    let message = chunk_message(work, chunks, k);
    action matches Action::SendMessage(peers, protocol, bytes) && protocol == PROTOCOL_ID
        && carries(bytes@, message) && lists(
        peer_keys(peers@),
        start.audience(work.relay_parent(), message.id()),
    )
}

/// Sending the chunk at `m` after those before it.
proof fn lemma_sends_next_chunk(
    start: StateModel,
    work: Distribution,
    chunks: Seq<ChunkModel>,
    m: int,
    pre: StateModel,
    post: StateModel,
    task: Task,
    action: Action,
)
    requires
        0 <= m < chunks.len() <= 0x1_0000_0000,
        forall|j: int| 0 <= j < chunks.len() ==> (#[trigger] chunks[j]).index == j as u32,
        sent_up_to(start, work, chunks, m, pre),
        sends_chunk(pre, work, chunks, m, post, task, action),
    ensures
        sent_up_to(start, work, chunks, m + 1, post),
        sends_to_interested(start, work, chunks, m, action),
{
    let relay_parent = work.relay_parent();
    let message = chunk_message(work, chunks, m);
    let before = pre.per_relay_parent[relay_parent];
    let after = post.per_relay_parent[relay_parent];
    assert forall|j: int| 0 <= j < chunks.len() && j != m implies (#[trigger] chunk_message(
        work,
        chunks,
        j,
    )).id() != message.id() by {
        assert(chunks[j].index == j as u32 && chunks[m].index == m as u32);
    }
    assert(pre.interested(relay_parent) =~= start.interested(relay_parent));
    if let Action::SendMessage(peers, protocol, bytes) = action {
        let keys = peer_keys(peers@);
        lemma_after_send_keeps(before, keys, message);
        assert(after == before.after_send(keys, message));
        assert forall|p: Seq<u8>, id: MessageId| id != message.id() implies #[trigger] after.was_sent(
            p,
            id,
        ) == before.was_sent(p, id) by {}
        assert(pre.audience(relay_parent, message.id()) =~= start.audience(
            relay_parent,
            message.id(),
        )) by {
            assert forall|p: Seq<u8>| before.was_sent(p, message.id())
                <==> start.per_relay_parent[relay_parent].was_sent(p, message.id()) by {
                assert(before.was_sent(p, chunk_message(work, chunks, m).id())
                    <==> start.per_relay_parent[relay_parent].was_sent(p, message.id()));
            }
        }
        assert forall|j: int|
            #![trigger chunk_message(work, chunks, j)]
            0 <= j < m + 1 implies {
            let other = chunk_message(work, chunks, j);
            &&& after.message_vault.contains_key(other.id())
            &&& after.message_vault[other.id()] == other
            &&& forall|p: Seq<u8>| #[trigger]
                start.interested(relay_parent).contains(p) ==> after.was_sent(p, other.id())
        } by {
            let other = chunk_message(work, chunks, j);
            assert forall|p: Seq<u8>| #[trigger]
                start.interested(relay_parent).contains(p) implies after.was_sent(
                p,
                other.id(),
            ) by {
                if j == m && !before.was_sent(p, message.id()) {
                    assert(pre.audience(relay_parent, message.id()).contains(p));
                    assert(keys.contains(p));
                }
            }
        }
    }
}

/// All our chunks of a candidate are distributed: once the data was coded, each
/// chunk goes out in a message of its own under its own index, to every peer
/// that has the candidate's relay parent in its view and was not sent that
/// message before. After the last one each of these peers was sent every
/// message, and the vault holds all of them.
///
/// The run is that from the coded data on, with every message sent. There are no
/// more chunks than there are indices.
pub proof fn law_all_chunks_are_distributed(
    states: Seq<StateModel>,
    tasks: Seq<Task>,
    replies: Seq<Reply>,
    actions: Seq<Action>,
    work: Distribution,
    branches: Seq<(Vec<Vec<u8>>, Vec<u8>)>,
)
    requires
        runs(states, tasks, replies, actions),
        replies.len() == branches.len() + 1,
        tasks[0] matches Task::Encoding { work: w } && w == work,
        replies[0] matches Reply::Chunks(Some(b)) && b@ == branches,
        forall|i: int| 2 <= i < replies.len() ==> #[trigger] replies[i] is Sent,
        work.validator_index < branches.len() <= 0x1_0000_0000,
    ensures
        forall|j: int|
            0 <= j < branches.len() ==> #[trigger] sends_to_interested(
                states[0],
                work,
                our_chunks(branches),
                j,
                actions[j + 1],
            ),
        forall|j: int|
            #![trigger branches[j]]
            0 <= j < branches.len() ==> {
                let id = (work.candidate(), j as u32);
                let known = states.last().per_relay_parent[work.relay_parent()];
                &&& known.message_vault.contains_key(id)
                &&& known.message_vault[id] == (MessageModel {
                    candidate_hash: work.candidate(),
                    erasure_chunk: our_chunk(branches[j], j as u32),
                })
                &&& forall|p: Seq<u8>| #[trigger]
                    states[0].interested(work.relay_parent()).contains(p) ==> known.was_sent(p, id)
            },
{
    let chunks = our_chunks(branches);
    let n = branches.len() as int;
    lemma_distribution(states, tasks, replies, actions, work, branches, n);
    assert(states.last() == states[n + 1]);
    assert forall|j: int|
        #![trigger branches[j]]
        0 <= j < n implies {
        let id = (work.candidate(), j as u32);
        let known = states.last().per_relay_parent[work.relay_parent()];
        &&& known.message_vault.contains_key(id)
        &&& known.message_vault[id] == (MessageModel {
            candidate_hash: work.candidate(),
            erasure_chunk: our_chunk(branches[j], j as u32),
        })
        &&& forall|p: Seq<u8>| #[trigger]
            states[0].interested(work.relay_parent()).contains(p) ==> known.was_sent(p, id)
    } by {
        assert(chunk_message(work, chunks, j).id() == (work.candidate(), j as u32));
    }
}

/// Whether the task is the one after the first `m` chunks went out.
pub(crate) open spec fn waits_after(task: Task, work: Distribution, chunks: Seq<ChunkModel>, m: int) -> bool {
    match task {
        Task::Storing { work: w, chunks: c } => w == work && chunk_models(c@) == chunks && m == 0,
        Task::Distributing { work: w, peers, chunks: c, sent } => w == work && chunk_models(c@)
            == chunks && sent + 1 == m,
        _ => false,
    }
}

/// The first `m` chunks on the way.
pub(crate) proof fn lemma_distribution(
    states: Seq<StateModel>,
    tasks: Seq<Task>,
    replies: Seq<Reply>,
    actions: Seq<Action>,
    work: Distribution,
    branches: Seq<(Vec<Vec<u8>>, Vec<u8>)>,
    m: int,
)
    requires
        runs(states, tasks, replies, actions),
        replies.len() == branches.len() + 1,
        tasks[0] matches Task::Encoding { work: w } && w == work,
        replies[0] matches Reply::Chunks(Some(b)) && b@ == branches,
        forall|i: int| 2 <= i < replies.len() ==> #[trigger] replies[i] is Sent,
        work.validator_index < branches.len() <= 0x1_0000_0000,
        0 <= m <= branches.len(),
    ensures
        sent_up_to(states[0], work, our_chunks(branches), m, states[m + 1]),
        forall|j: int|
            0 <= j < m ==> #[trigger] sends_to_interested(
                states[0],
                work,
                our_chunks(branches),
                j,
                actions[j + 1],
            ),
        waits_after(tasks[m + 1], work, our_chunks(branches), m),
    decreases m,
{
    let chunks = our_chunks(branches);
    if m == 0 {
        assert(replies[0] is Chunks);
    } else {
        lemma_distribution(states, tasks, replies, actions, work, branches, m - 1);
        let reply = replies[m];
        lemma_sends_next_chunk(
            states[0],
            work,
            chunks,
            m - 1,
            states[m],
            states[m + 1],
            tasks[m + 1],
            actions[m],
        );
    }
}

/// A valid message from a peer is gossiped on: once the peer was reported on,
/// every other peer that has the relay parent in its view was sent a message
/// with its identity, now or before; and the relay parent is one of our view.
pub proof fn law_received_messages_are_gossiped_on(
    pre: StateModel,
    waiting: Task,
    post: StateModel,
    task: Task,
    action: Action,
    peer: Seq<u8>,
)
    requires
        waiting is Rewarding,
        waiting.well_formed(pre),
        transition(pre, waiting, Reply::Sent, post, task, action),
        pre.interested(waiting->Rewarding_relay_parent).contains(peer),
        peer != waiting->Rewarding_origin@,
    ensures
        pre.view.contains(waiting->Rewarding_relay_parent),
        post.per_relay_parent[waiting->Rewarding_relay_parent].was_sent(
            peer,
            waiting->Rewarding_message@.id(),
        ),
        action matches Action::SendMessage(peers, protocol, bytes) && carries(
            bytes@,
            waiting->Rewarding_message@,
        ) && !peer_keys(peers@).contains(waiting->Rewarding_origin@),
{
    let relay_parent = waiting->Rewarding_relay_parent;
    let message = waiting->Rewarding_message@;
    if let Action::SendMessage(peers, protocol, bytes) = action {
        lemma_after_send_keeps(pre.per_relay_parent[relay_parent], peer_keys(peers@), message);
        if !pre.per_relay_parent[relay_parent].was_sent(peer, message.id()) {
            assert(pre.audience(relay_parent, message.id()).remove(
                waiting->Rewarding_origin@,
            ).contains(peer));
            assert(peer_keys(peers@).contains(peer));
        }
    }
}

/// A peer that sends a message again pays for it: once a message was accepted
/// from a peer, a valid message with the same identity from that peer is a
/// duplicate, as long as the note of the first one is kept.
pub proof fn law_duplicates_cost(
    first: StateModel,
    origin: Seq<u8>,
    message: MessageModel,
    relay_parent: H256,
    hash: H256,
    accepted: StateModel,
    first_task: Task,
    first_action: Action,
    later: StateModel,
    again: MessageModel,
    again_hash: H256,
    post: StateModel,
    task: Task,
    action: Action,
)
    requires
        judges_message(
            first,
            origin,
            message,
            relay_parent,
            Some(hash),
            hash,
            accepted,
            first_task,
            first_action,
        ),
        first.per_relay_parent.contains_key(relay_parent),
        keeps_all_notes(accepted, later),
        again.id() == message.id(),
        judges_message(
            later,
            origin,
            again,
            relay_parent,
            Some(again_hash),
            again_hash,
            post,
            task,
            action,
        ),
    ensures
        post == later,
        reporting(origin, ReputationChange::CostPeerDuplicateMessage, task, action),
{
    lemma_accepted_keeps(first.per_relay_parent[relay_parent], origin, message);
    assert(accepted.per_relay_parent.contains_key(relay_parent));
    assert(accepted.per_relay_parent[relay_parent].was_received(origin, message.id()));
}

/// Only the first to bring a message is rewarded for new information: once a
/// message was accepted from one peer, another peer that brings it is rewarded
/// as for a known message.
pub proof fn law_new_information_is_rewarded_once(
    first: StateModel,
    origin: Seq<u8>,
    message: MessageModel,
    relay_parent: H256,
    hash: H256,
    accepted: StateModel,
    first_task: Task,
    first_action: Action,
    later: StateModel,
    other: Seq<u8>,
    again: MessageModel,
    again_hash: H256,
    post: StateModel,
    task: Task,
    action: Action,
)
    requires
        judges_message(
            first,
            origin,
            message,
            relay_parent,
            Some(hash),
            hash,
            accepted,
            first_task,
            first_action,
        ),
        first.per_relay_parent.contains_key(relay_parent),
        !first.per_relay_parent[relay_parent].was_received(origin, message.id()),
        !first.per_relay_parent[relay_parent].message_vault.contains_key(message.id()),
        keeps_all_notes(accepted, later),
        again.id() == message.id(),
        !later.per_relay_parent[relay_parent].was_received(other, message.id()),
        judges_message(
            later,
            other,
            again,
            relay_parent,
            Some(again_hash),
            again_hash,
            post,
            task,
            action,
        ),
    ensures
        reports(origin, ReputationChange::BenefitValidMessageFirst, first_action),
        reports(other, ReputationChange::BenefitValidMessage, action),
{
    lemma_accepted_keeps(first.per_relay_parent[relay_parent], origin, message);
    assert(accepted.per_relay_parent.contains_key(relay_parent));
    assert(accepted.per_relay_parent[relay_parent].message_vault.contains_key(message.id()));
}

/// What is not in our view is not looked at further: a message is checked
/// against an erasure root only if its candidate leads to a head of our view
/// and is live there.
pub proof fn law_only_our_view_counts(
    pre: StateModel,
    origin: Seq<u8>,
    message: MessageModel,
    post: StateModel,
    task: Task,
    action: Action,
)
    requires
        checks_message(pre, origin, message, post, task, action),
        task is CheckingBranch,
    ensures
        pre.reverse.contains_key(message.candidate_hash),
        pre.view.contains(pre.reverse[message.candidate_hash]),
        exists|j: int, r: CommittedCandidateReceipt| #[trigger]
            live_at(pre.cache, pre.view, j, r) && candidate_hash(r) == message.candidate_hash,
{
}

/// Only chunks that are proven are accepted, rewarded and gossiped on: the
/// branch of the chunk proves the hash of its bytes.
pub proof fn law_only_proven_chunks_are_accepted(
    pre: StateModel,
    waiting: Task,
    reply: Reply,
    post: StateModel,
    task: Task,
    action: Action,
)
    requires
        waiting.accepts(reply),
        transition(pre, waiting, reply, post, task, action),
        task is Rewarding,
    ensures
        waiting is CheckingBranch,
        task->Rewarding_message@ == waiting->CheckingBranch_message@,
        task->Rewarding_origin@ == waiting->CheckingBranch_origin@,
        reply matches Reply::BranchHash(proven) && proven matches Some(hash) && is_chunk_hash(
            hash,
            waiting->CheckingBranch_message@.erasure_chunk.chunk,
        ),
{
}

/// What one node sends another node understands: the bytes of a message are
/// handled by their receiver as this message.
pub proof fn law_gossip_is_understood(
    message: MessageModel,
    bytes: Seq<u8>,
    receiver: StateModel,
    event: NetworkBridgeEvent,
    post: StateModel,
    task: Task,
    action: Action,
)
    requires
        carries(bytes, message),
        event matches NetworkBridgeEvent::PeerMessage(_, received) && received@ == bytes,
        network_updates(receiver, event, post, task, action),
    ensures
        checks_message(receiver, event->PeerMessage_0@, message, post, task, action),
{
    let decoded = choose|decoded: Option<MessageModel>|
        decoded_as(bytes, decoded) && #[trigger] receives_message(
            receiver,
            event->PeerMessage_0@,
            decoded,
            post,
            task,
            action,
        );
    law_decoding_is_unique(bytes, decoded, Some(message));
}

/// Whether the subsystem is in the middle of an update from the network bridge,
/// apart from the storage of our own chunk.
pub open spec fn updating(waiting: Task) -> bool {
    !(waiting is Registering || waiting is Receiving || waiting is Activating || waiting
        is Storing || waiting is Stopped)
}

/// A failure in the middle of an update from the network bridge ends the update
/// and nothing else: what was done stays, and the next message is taken.
pub proof fn law_failed_updates_end(
    pre: StateModel,
    waiting: Task,
    post: StateModel,
    task: Task,
    action: Action,
)
    requires
        updating(waiting),
        transition(pre, waiting, Reply::Failed, post, task, action),
    ensures
        post == pre,
        idle(task, action),
{
}

/// The subsystem ends without a failure only where the overseer has asked for
/// it.
pub proof fn law_concludes_only_on_request(
    pre: StateModel,
    waiting: Task,
    reply: Reply,
    post: StateModel,
    task: Task,
    action: Action,
)
    requires
        waiting.accepts(reply),
        transition(pre, waiting, reply, post, task, action),
        action matches Action::Stop(exit) && exit == Exit::Concluded,
    ensures
        reply matches Reply::Received(message) && message matches FromOverseer::Signal(signal)
            && signal is Conclude,
{
}

/// A candidate is passed over only where this node is no validator at its relay
/// parent.
pub proof fn law_validators_pass_no_candidate_over(state: StateModel, todo: TodoModel, at: int, j: int)
    requires
        0 <= at <= j < next_candidate(state, todo, at),
    ensures
        state.per_relay_parent.contains_key(todo.relay_parent(j)),
        state.per_relay_parent[todo.relay_parent(j)].validator_index is None,
    decreases todo.order.len() - at,
{
    if at < j {
        law_validators_pass_no_candidate_over(state, todo, at + 1, j);
    }
}

} // verus!
