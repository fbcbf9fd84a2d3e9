//! What whole courses of the protocol come to, said of the fields of the
//! states, the replies and the actions alone.

use vstd::prelude::*;

use crate::behaviour::{is_first_held, law_occupied_cores, lemma_our_index};
use crate::laws::{
    caught_up, law_catching_up_is_complete, law_difference, lemma_catches_up, lemma_distribution,
    lemma_next_owed, lemma_queries_cores_keeps, lemma_queries_cores_trims, runs,
    sends_to_interested,
};
use crate::message::{MessageId, MessageModel, scale_encoding};
use crate::our_view::{chunk_message, distributes, next_candidate, our_chunks, with_candidate};
use crate::peer_view::{catches_up, next_owed, owes, peer_view_changes, sends_owed};
use crate::primitives::{
    CommittedCandidateReceipt, CoreState, H256, PeerId, RelayView, ValidatorId, candidate_hash,
    heads_difference, occupied, peer_keys,
};
use crate::protocol::{
    Action, ActiveLeavesUpdate, Distribution, FromOverseer, NetworkBridgeEvent, OverseerSignal,
    Reply, Task, TodoModel, ViewChange,
};
use crate::state::{
    RelayParentModel, StateModel, is_union, live_at, live_under, live_under_any, message_models,
    names, unioned,
};
use crate::steps::{brings, lemma_concerns, noted, rests, to_whom_it_concerns};
use crate::subsystem::{activates, transition, with_validators};

verus! {

/// Whether the notes and the vault of a relay parent are those of the start, or
/// empty where it was not tracked then.
pub open spec fn notes_as_at(start: StateModel, state: StateModel, head: H256) -> bool {
    let known = state.per_relay_parent[head];
    &&& state.per_relay_parent.contains_key(head)
    &&& if start.per_relay_parent.contains_key(head) {
        let before = start.per_relay_parent[head];
        &&& known.received_messages == before.received_messages
        &&& known.sent_messages == before.sent_messages
        &&& known.message_vault == before.message_vault
    } else {
        &&& known.received_messages == Map::<Seq<u8>, Set<MessageId>>::empty()
        &&& known.sent_messages == Map::<Seq<u8>, Set<MessageId>>::empty()
        &&& known.message_vault == Map::<MessageId, MessageModel>::empty()
    }
}

/// Whether a relay parent is tracked as at the start, or not tracked as then.
pub open spec fn untouched(start: StateModel, state: StateModel, head: H256) -> bool {
    &&& state.per_relay_parent.contains_key(head) <==> start.per_relay_parent.contains_key(head)
    &&& start.per_relay_parent.contains_key(head) ==> state.per_relay_parent[head]
        == start.per_relay_parent[head]
}

/// Whether a relay parent has the validators of a reply, and the index of the
/// first of them whose key is among those of the reply.
pub open spec fn has_validators(known: RelayParentModel, reply: Reply) -> bool {
    reply matches Reply::Validators(validators, keys) && known.validators == validators@
        && is_first_held(validators@, keys@, known.validator_index)
}

/// Whether nothing changed but what is tracked of relay parents.
pub open spec fn same_but_tracked(start: StateModel, state: StateModel) -> bool {
    &&& state.peer_views == start.peer_views
    &&& state.view == start.view
    &&& state.cache == start.cache
    &&& state.reverse == start.reverse
}

/// The state once the validators at the first `m` activated heads are there.
#[verifier::opaque]
spec fn activated_up_to(
    start: StateModel,
    activated: Seq<H256>,
    replies: Seq<Reply>,
    m: int,
    state: StateModel,
) -> bool {
    let k = if m < activated.len() {
        m + 1
    } else {
        m
    };
    &&& same_but_tracked(start, state)
    &&& forall|h: H256|
        !(exists|i: int| 0 <= i < k && #[trigger] activated[i] == h) ==> #[trigger] untouched(
            start,
            state,
            h,
        )
    &&& forall|i: int| 0 <= i < k ==> notes_as_at(start, state, #[trigger] activated[i])
    &&& forall|i: int|
        0 <= i < m && (forall|j: int| i < j < m ==> #[trigger] activated[j] != activated[i])
            ==> has_validators(state.per_relay_parent[#[trigger] activated[i]], replies[i + 1])
}

proof fn lemma_activation(
    states: Seq<StateModel>,
    tasks: Seq<Task>,
    replies: Seq<Reply>,
    actions: Seq<Action>,
    update: ActiveLeavesUpdate,
    m: int,
)
    requires
        runs(states, tasks, replies, actions),
        tasks[0] is Receiving,
        replies.len() == update.activated.len() + 1,
        replies[0] == Reply::Received(FromOverseer::Signal(OverseerSignal::ActiveLeaves(update))),
        forall|i: int| 1 <= i < replies.len() ==> #[trigger] replies[i] is Validators,
        0 <= m <= update.activated.len(),
    ensures
        activated_up_to(states[0], update.activated@, replies, m, states[m + 1]),
        forall|i: int|
            0 <= i <= m && i < update.activated.len() ==> (#[trigger] actions[i] matches Action::QueryValidators(
                head,
            ) && head == update.activated[i]),
        m < update.activated.len() ==> (tasks[m + 1] matches Task::Activating { activated, at }
            && activated@ == update.activated@ && at == m),
        m == update.activated.len() ==> rests(tasks[m + 1], actions[m]),
    decreases m,
{
    let heads = update.activated@;
    let reply = replies[m];
    assert(transition(states[m], tasks[m], replies[m], states[m + 1], tasks[m + 1], actions[m]));
    if m > 0 {
        lemma_activation(states, tasks, replies, actions, update, m - 1);
        if let Reply::Validators(validators, keys) = reply {
            lemma_activation_next(
                states[0],
                heads,
                replies,
                m,
                validators@,
                keys@,
                states[m],
                states[m + 1],
                tasks[m + 1],
                actions[m],
            );
        }
    } else {
        lemma_activation_first(states[0], heads, replies, states[1], tasks[1], actions[0]);
    }
}

proof fn lemma_activation_first(
    start: StateModel,
    heads: Seq<H256>,
    replies: Seq<Reply>,
    post: StateModel,
    task: Task,
    action: Action,
)
    requires
        activates(start, heads, 0, post, task, action),
    ensures
        activated_up_to(start, heads, replies, 0, post),
{
    reveal(activated_up_to);
    assert forall|h: H256|
        !(exists|i: int|
            0 <= i < (if heads.len() > 0 {
                1int
            } else {
                0
            }) && #[trigger] heads[i] == h) implies #[trigger] untouched(start, post, h) by {
        assert(heads.len() > 0 ==> h != heads[0]);
    }
}

proof fn lemma_activation_next(
    start: StateModel,
    heads: Seq<H256>,
    replies: Seq<Reply>,
    m: int,
    validators: Seq<ValidatorId>,
    keys: Seq<ValidatorId>,
    pre: StateModel,
    post: StateModel,
    task: Task,
    action: Action,
)
    requires
        1 <= m <= heads.len(),
        activated_up_to(start, heads, replies, m - 1, pre),
        replies[m] matches Reply::Validators(v, k) && v@ == validators && k@ == keys,
        activates(
            pre.with_relay_parent(
                heads[m - 1],
                with_validators(pre.per_relay_parent[heads[m - 1]], validators, keys),
            ),
            heads,
            m,
            post,
            task,
            action,
        ),
    ensures
        activated_up_to(start, heads, replies, m, post),
{
    reveal(activated_up_to);
    let head = heads[m - 1];
    let k = if m < heads.len() {
        m + 1
    } else {
        m
    };
    lemma_our_index(validators, keys);
    assert(notes_as_at(start, pre, heads[m - 1]));
    assert(has_validators(post.per_relay_parent[head], replies[m]));
    assert forall|h: H256| h != head && (m < heads.len() ==> h != heads[m]) implies #[trigger] untouched(
        pre,
        post,
        h,
    ) by {}
    assert forall|h: H256|
        !(exists|i: int| 0 <= i < k && #[trigger] heads[i] == h) implies #[trigger] untouched(
        start,
        post,
        h,
    ) by {
        assert(h != heads[m - 1]);
        assert(m < heads.len() ==> h != heads[m]);
        assert(!(exists|i: int| 0 <= i < m && #[trigger] heads[i] == h));
        assert(untouched(start, pre, h));
        assert(untouched(pre, post, h));
    }
    assert forall|i: int| 0 <= i < k implies notes_as_at(start, post, #[trigger] heads[i]) by {
        if i < m {
            assert(notes_as_at(start, pre, heads[i]));
        } else if exists|j: int| 0 <= j < m && #[trigger] heads[j] == heads[i] {
            let j = choose|j: int| 0 <= j < m && #[trigger] heads[j] == heads[i];
            assert(notes_as_at(start, pre, heads[j]));
        } else {
            assert(untouched(start, pre, heads[i]));
        }
    }
    assert forall|i: int|
        0 <= i < m && (forall|j: int| i < j < m ==> #[trigger] heads[j]
            != heads[i]) implies has_validators(
        post.per_relay_parent[#[trigger] heads[i]],
        replies[i + 1],
    ) by {
        if i < m - 1 {
            assert(heads[m - 1] != heads[i]);
            assert(has_validators(pre.per_relay_parent[heads[i]], replies[i + 1]));
            assert(notes_as_at(start, pre, heads[i]));
        }
    }
}

/// Work is started on every activated head: the validators are asked for at each
/// of them, in order. Each head is then tracked with the validators of the last
/// answer for it, and our index is that of the first of them whose key we hold.
/// What is noted of messages stays, and heads that are not activated are not
/// touched.
pub proof fn law_work_is_started(
    states: Seq<StateModel>,
    tasks: Seq<Task>,
    replies: Seq<Reply>,
    actions: Seq<Action>,
    update: ActiveLeavesUpdate,
)
    requires
        runs(states, tasks, replies, actions),
        tasks[0] is Receiving,
        replies.len() == update.activated.len() + 1,
        replies[0] == Reply::Received(FromOverseer::Signal(OverseerSignal::ActiveLeaves(update))),
        forall|i: int| 1 <= i < replies.len() ==> #[trigger] replies[i] is Validators,
    ensures
        forall|i: int|
            0 <= i < update.activated.len() ==> (#[trigger] actions[i] matches Action::QueryValidators(
                head,
            ) && head == update.activated[i]),
        rests(tasks.last(), actions.last()),
        forall|i: int|
            0 <= i < update.activated.len() ==> notes_as_at(
                states[0],
                states.last(),
                #[trigger] update.activated@[i],
            ),
        forall|i: int|
            0 <= i < update.activated.len() && (forall|j: int|
                i < j < update.activated.len() ==> #[trigger] update.activated@[j]
                    != update.activated@[i]) ==> has_validators(
                states.last().per_relay_parent[#[trigger] update.activated@[i]],
                replies[i + 1],
            ),
        forall|h: H256|
            !(exists|i: int| 0 <= i < update.activated.len() && #[trigger] update.activated@[i] == h)
                ==> #[trigger] untouched(states[0], states.last(), h),
        same_but_tracked(states[0], states.last()),
{
    lemma_activation(states, tasks, replies, actions, update, update.activated.len() as int);
    reveal(activated_up_to);
}

/// Whether one of the replies up to `m` answers with the candidate.
pub open spec fn answered(replies: Seq<Reply>, m: int, r: CommittedCandidateReceipt) -> bool {
    exists|i: int|
        1 <= i <= m && i < replies.len() && #[trigger] replies[i]
            == Reply::CandidatePendingAvailability(Some(r))
}

proof fn lemma_lookup(
    states: Seq<StateModel>,
    tasks: Seq<Task>,
    replies: Seq<Reply>,
    actions: Seq<Action>,
    change: ViewChange,
    at: usize,
    cores: Vec<CoreState>,
    m: int,
)
    requires
        runs(states, tasks, replies, actions),
        tasks[0] == (Task::QueryingCores { change, at }),
        at < change.added.len(),
        replies.len() == occupied(cores@).len() + 1,
        replies[0] == Reply::AvailabilityCores(cores),
        forall|i: int|
            1 <= i < replies.len() ==> #[trigger] replies[i] is CandidatePendingAvailability,
        0 <= m < occupied(cores@).len(),
    ensures
        states[m + 1] == states[0],
        forall|k: int|
            0 <= k <= m ==> (#[trigger] actions[k] matches Action::QueryCandidatePendingAvailability(
                head,
                para,
            ) && head == change.added[at as int] && para == occupied(cores@)[k]),
        tasks[m + 1] matches Task::QueryingPending { change: c, at: a, paras, next, live }
            && c.old_view@ == change.old_view@ && c.added@ == change.added@ && a == at && paras@
            == occupied(cores@) && next == m && forall|r: CommittedCandidateReceipt| #[trigger]
            live@.contains(r) <==> answered(replies, m, r),
    decreases m,
{
    let reply = replies[m];
    assert(transition(states[m], tasks[m], replies[m], states[m + 1], tasks[m + 1], actions[m]));
    if m > 0 {
        lemma_lookup(states, tasks, replies, actions, change, at, cores, m - 1);
        lemma_answered_next(replies, m);
    }
}

proof fn lemma_answered_next(replies: Seq<Reply>, m: int)
    requires
        1 <= m < replies.len(),
    ensures
        forall|r: CommittedCandidateReceipt| #[trigger]
            answered(replies, m, r) <==> answered(replies, m - 1, r) || replies[m]
                == Reply::CandidatePendingAvailability(Some(r)),
{
    assert forall|r: CommittedCandidateReceipt| #[trigger]
        answered(replies, m, r) <==> answered(replies, m - 1, r) || replies[m]
            == Reply::CandidatePendingAvailability(Some(r)) by {
        if answered(replies, m - 1, r) {
            let i = choose|i: int|
                1 <= i <= m - 1 && i < replies.len() && #[trigger] replies[i]
                    == Reply::CandidatePendingAvailability(Some(r));
            assert(1 <= i <= m);
        }
    }
}

/// All live candidates of a head are looked up and cached.
///
/// At the head, the candidate of every parachain on an occupied core is asked
/// for, in order. After the last answer the cache holds for the head just the
/// candidates that were answered, and each of their hashes leads to the head.
/// Then the cores of the next added head are asked for, if there is one, and
/// nothing else in the caches has changed.
pub proof fn law_all_live_candidates_are_cached(
    states: Seq<StateModel>,
    tasks: Seq<Task>,
    replies: Seq<Reply>,
    actions: Seq<Action>,
    change: ViewChange,
    at: usize,
    cores: Vec<CoreState>,
)
    requires
        runs(states, tasks, replies, actions),
        tasks[0] == (Task::QueryingCores { change, at }),
        at < change.added.len(),
        states[0].view.contains(change.added[at as int]),
        replies.len() == occupied(cores@).len() + 1,
        replies[0] == Reply::AvailabilityCores(cores),
        forall|i: int|
            1 <= i < replies.len() ==> #[trigger] replies[i] is CandidatePendingAvailability,
    ensures
        forall|k: int|
            0 <= k < occupied(cores@).len() ==> (
            #[trigger] actions[k] matches Action::QueryCandidatePendingAvailability(head, para)
                && head == change.added[at as int] && para == occupied(cores@)[k]),
        forall|c: int|
            0 <= c < cores.len() ==> (#[trigger] cores[c] matches CoreState::Occupied(para)
                ==> exists|k: int|
                0 <= k < actions.len() - 1 && (
                #[trigger] actions[k] matches Action::QueryCandidatePendingAvailability(_, p) && p
                    == para)),
        states.last().cache.contains_key(change.added[at as int]),
        forall|r: CommittedCandidateReceipt| #[trigger]
            states.last().cache[change.added[at as int]].contains(r) <==> exists|i: int|
                1 <= i < replies.len() && #[trigger] replies[i]
                    == Reply::CandidatePendingAvailability(Some(r)),
        forall|i: int|
            1 <= i < replies.len() ==> (
            #[trigger] replies[i] matches Reply::CandidatePendingAvailability(Some(r))
                ==> states.last().reverse.contains_key(r.descriptor.validation_data_hash)
                && states.last().reverse[r.descriptor.validation_data_hash]
                == change.added[at as int]),
        states.last().per_relay_parent == states[0].per_relay_parent,
        states.last().peer_views == states[0].peer_views,
        states.last().view == states[0].view,
        at + 1 < change.added.len() ==> (
        actions.last() matches Action::QueryAvailabilityCores(head) && head == change.added[at + 1])
            && (tasks.last() matches Task::QueryingCores { change: c, at: a } && c.old_view@
            == change.old_view@ && c.added@ == change.added@ && a == at + 1)
            && (forall|h: H256| #[trigger]
            states.last().cache.contains_key(h) <==> states[0].cache.contains_key(h) || h
                == change.added[at as int]) && (forall|h: H256|
            h != change.added[at as int] && #[trigger] states.last().cache.contains_key(h)
                ==> states.last().cache[h] == states[0].cache[h]) && (forall|hash: H256|
            !(exists|i: int|
                1 <= i < replies.len() && (
                #[trigger] replies[i] matches Reply::CandidatePendingAvailability(Some(r))
                    && r.descriptor.validation_data_hash == hash)) ==> (
            #[trigger] states.last().reverse.contains_key(hash)
                <==> states[0].reverse.contains_key(hash)) && (states.last().reverse.contains_key(
                hash,
            ) ==> states.last().reverse[hash] == states[0].reverse[hash])),
{
    let n = occupied(cores@).len() as int;
    let head = change.added[at as int];
    let pre = states[n];
    let post = states[n + 1];
    let task = tasks[n + 1];
    let action = actions[n];
    let reply = replies[n];
    assert(transition(states[n], tasks[n], replies[n], states[n + 1], tasks[n + 1], actions[n]));
    let live: Set<CommittedCandidateReceipt>;
    if n > 0 {
        lemma_lookup(states, tasks, replies, actions, change, at, cores, n - 1);
        lemma_answered_next(replies, n);
        if let (
            Task::QueryingPending { change: c, at: a, paras, next, live: l },
            Reply::CandidatePendingAvailability(candidate),
        ) = (tasks[n], replies[n]) {
            live = with_candidate(l@, candidate);
        } else {
            live = Set::empty();
        }
    } else {
        live = Set::empty();
    }
    assert forall|r: CommittedCandidateReceipt| #[trigger] live.contains(r) <==> answered(
        replies,
        n,
        r,
    ) by {}
    let mid = pre.recorded(head, live);
    lemma_queries_cores_keeps(
        mid,
        change.old_view@,
        change.added@,
        at + 1,
        post,
        task,
        action,
    );
    lemma_queries_cores_trims(
        mid,
        change.old_view@,
        change.added@,
        at + 1,
        post,
        task,
        action,
    );
    assert(post.cache.contains_key(head) && post.cache[head] == live && forall|h: H256| #[trigger]
        names(live, h) ==> post.reverse.contains_key(h) && post.reverse[h] == head) by {
        if at + 1 >= change.added.len() {
            let todo = choose|todo: TodoModel|
                todo.well_formed() && is_union(
                    todo.receipts,
                    mid.cache,
                    change.added@,
                ) && #[trigger] distributes(
                    mid,
                    change.old_view@,
                    change.added@,
                    todo,
                    0,
                    post,
                    task,
                    action,
                );
            if next_candidate(mid, todo, 0) == todo.order.len() {
                let removed = heads_difference(change.old_view@, mid.view);
                law_difference(change.old_view@, mid.view, head);
                assert forall|h: H256| #[trigger] names(live, h) implies post.reverse.contains_key(h)
                    && post.reverse[h] == head by {
                    assert(live_under(post.cache, head, h));
                    let affected = live_under_any(mid.cache, removed, h);
                }
            }
        }
    }
    assert forall|r: CommittedCandidateReceipt| #[trigger]
        states.last().cache[head].contains(r) <==> exists|i: int|
            1 <= i < replies.len() && #[trigger] replies[i] == Reply::CandidatePendingAvailability(
                Some(r),
            ) by {
        assert(live.contains(r) <==> answered(replies, n, r));
    }
    assert forall|i: int| 1 <= i < replies.len() implies (
    #[trigger] replies[i] matches Reply::CandidatePendingAvailability(Some(r))
        ==> states.last().reverse.contains_key(r.descriptor.validation_data_hash)
        && states.last().reverse[r.descriptor.validation_data_hash] == head) by {
        if let Reply::CandidatePendingAvailability(Some(r)) = replies[i] {
            assert(answered(replies, n, r));
            assert(live.contains(r));
            assert(names(live, candidate_hash(r)));
        }
    }
    assert forall|hash: H256|
        !(exists|i: int|
            1 <= i < replies.len() && (
            #[trigger] replies[i] matches Reply::CandidatePendingAvailability(Some(r))
                && r.descriptor.validation_data_hash == hash)) implies !#[trigger] names(
        live,
        hash,
    ) by {
        if names(live, hash) {
            let r = choose|r: CommittedCandidateReceipt| #[trigger]
                live.contains(r) && candidate_hash(r) == hash;
            assert(answered(replies, n, r));
        }
    }
    assert forall|c: int| 0 <= c < cores.len() implies (
    #[trigger] cores[c] matches CoreState::Occupied(para) ==> exists|k: int|
        0 <= k < actions.len() - 1 && (
        #[trigger] actions[k] matches Action::QueryCandidatePendingAvailability(_, p) && p
            == para)) by {
        if let CoreState::Occupied(para) = cores[c] {
            law_occupied_cores(cores@, para);
            assert(cores@[c] == CoreState::Occupied(para));
            let paras = occupied(cores@);
            let k = choose|k: int| 0 <= k < paras.len() && paras[k] == para;
            assert(actions[k] is QueryCandidatePendingAvailability);
        }
    }
}

/// All chunks of a candidate go out as the coding gave them.
///
/// From the coded data on, with every message sent: the chunk at each position
/// goes out in a message of its own under that index, with the bytes and all
/// nodes of its branch, to all peers that have the candidate's relay parent in
/// their view and were not sent that message, and to no one else. After the last
/// one each peer that has the relay parent in its view is noted as sent every
/// message, and the vault holds all of them. There are no more chunks than there
/// are indices.
pub proof fn law_all_chunks_go_out(
    states: Seq<StateModel>,
    tasks: Seq<Task>,
    replies: Seq<Reply>,
    actions: Seq<Action>,
    work: Distribution,
    branches: Vec<(Vec<Vec<u8>>, Vec<u8>)>,
)
    requires
        runs(states, tasks, replies, actions),
        replies.len() == branches.len() + 1,
        tasks[0] == (Task::Encoding { work }),
        replies[0] == Reply::Chunks(Some(branches)),
        forall|i: int| 2 <= i < replies.len() ==> #[trigger] replies[i] is Sent,
        work.validator_index < branches.len() <= 0x1_0000_0000,
    ensures
        forall|j: int|
            0 <= j < branches.len() ==> goes_out(
                states[0],
                work.todo@[work.todo.order()[work.at as int]].descriptor.relay_parent,
                work.todo.order()[work.at as int],
                #[trigger] branches@[j],
                j as u32,
                actions[j + 1],
            ),
        forall|j: int|
            0 <= j < branches.len() ==> is_out(
                states[0],
                work.todo@[work.todo.order()[work.at as int]].descriptor.relay_parent,
                work.todo.order()[work.at as int],
                #[trigger] branches@[j],
                j as u32,
                states.last(),
            ),
{
    let candidate = work.todo.order()[work.at as int];
    let relay_parent = work.todo@[candidate].descriptor.relay_parent;
    let known = states.last().per_relay_parent[relay_parent];
    assert(work.relay_parent() == relay_parent && work.candidate() == candidate);
    let n = branches.len() as int;
    lemma_distribution(states, tasks, replies, actions, work, branches@, n);
    let chunks = our_chunks(branches@);
    assert forall|j: int| 0 <= j < branches.len() implies goes_out(
        states[0],
        relay_parent,
        candidate,
        #[trigger] branches@[j],
        j as u32,
        actions[j + 1],
    ) by {
        assert(sends_to_interested(states[0], work, chunks, j, actions[j + 1]));
        if let Action::SendMessage(peers, protocol, bytes) = actions[j + 1] {
            assert(protocol@ =~= seq![0x61u8, 0x76, 0x61, 0x64]);
            lemma_concerns(states[0], relay_parent, (candidate, j as u32), None, peers@);
        }
    }
    assert forall|j: int| 0 <= j < branches.len() implies is_out(
        states[0],
        relay_parent,
        candidate,
        #[trigger] branches@[j],
        j as u32,
        states.last(),
    ) by {
        let message = chunk_message(work, chunks, j);
        assert(message.id() == (candidate, j as u32));
        assert forall|p: Seq<u8>| #[trigger]
            states[0].peer_views.contains_key(p) && states[0].peer_views[p].contains(
                relay_parent,
            ) implies noted(known.sent_messages, p, (candidate, j as u32)) by {
            assert(states[0].interested(work.relay_parent()).contains(p));
            assert(known.was_sent(p, message.id()));
        }
    }
}

/// Whether the action sends the chunk of a branch, under an index, to all peers
/// that have the relay parent in their view and were not sent it, and to no one
/// else.
pub open spec fn goes_out(
    start: StateModel,
    relay_parent: H256,
    candidate: H256,
    branch: (Vec<Vec<u8>>, Vec<u8>),
    index: u32,
    action: Action,
) -> bool {
    action matches Action::SendMessage(peers, protocol, bytes) && protocol@
        == seq![0x61u8, 0x76, 0x61, 0x64] && bytes@ == scale_encoding(
        candidate.0@,
        branch.1@,
        index,
        branch.0@.map_values(|node: Vec<u8>| node@),
    ) && to_whom_it_concerns(start, relay_parent, (candidate, index), None, peers@)
}

/// Whether the vault holds the chunk of a branch under an index, and it is noted
/// as sent to all peers that have the relay parent in their view.
pub open spec fn is_out(
    start: StateModel,
    relay_parent: H256,
    candidate: H256,
    branch: (Vec<Vec<u8>>, Vec<u8>),
    index: u32,
    end: StateModel,
) -> bool {
    let known = end.per_relay_parent[relay_parent];
    let message = known.message_vault[(candidate, index)];
    &&& known.message_vault.contains_key((candidate, index))
    &&& message.candidate_hash == candidate
    &&& message.erasure_chunk.index == index
    &&& message.erasure_chunk.chunk == branch.1@
    &&& message.erasure_chunk.proof == branch.0@.map_values(|node: Vec<u8>| node@)
    &&& forall|p: Seq<u8>| #[trigger]
        start.peer_views.contains_key(p) && start.peer_views[p].contains(relay_parent) ==> noted(
            known.sent_messages,
            p,
            (candidate, index),
        )
}

/// Whether the relay parents are tracked as before with the same validators, the
/// same vaults and the same notes of what was received.
pub open spec fn same_vaults(before: StateModel, after: StateModel) -> bool {
    &&& forall|h: H256| #[trigger]
        after.per_relay_parent.contains_key(h) <==> before.per_relay_parent.contains_key(h)
    &&& forall|h: H256| #[trigger]
        after.per_relay_parent.contains_key(h) ==> {
            let a = before.per_relay_parent[h];
            let b = after.per_relay_parent[h];
            &&& b.message_vault == a.message_vault
            &&& b.validators == a.validators
            &&& b.validator_index == a.validator_index
            &&& b.received_messages == a.received_messages
        }
}

/// Whether the action sends one peer a message of a candidate that the vault of
/// its relay parent holds for the index of a validator, as it is.
pub open spec fn sends_of(
    state: StateModel,
    peer: Seq<u8>,
    r: CommittedCandidateReceipt,
    action: Action,
) -> bool {
    let hash = r.descriptor.validation_data_hash;
    let known = state.per_relay_parent[r.descriptor.relay_parent];
    action matches Action::SendMessage(peers, protocol, bytes) && peers.len() == 1
        && peers[0].bytes@ == peer && protocol@ == seq![0x61u8, 0x76, 0x61, 0x64]
        && state.per_relay_parent.contains_key(r.descriptor.relay_parent) && exists|index: u32|
        index < known.validators.len() as u32 && #[trigger] known.message_vault.contains_key(
            (hash, index),
        ) && bytes@ == scale_encoding(
            hash.0@,
            known.message_vault[(hash, index)].erasure_chunk.chunk,
            index,
            known.message_vault[(hash, index)].erasure_chunk.proof,
        )
}

/// Whether the action sends one peer a message of one of the candidates.
spec fn sends_from_vault(
    state: StateModel,
    peer: Seq<u8>,
    todo: TodoModel,
    action: Action,
) -> bool {
    exists|j: int|
        0 <= j < todo.order.len() && #[trigger] sends_of(
            state,
            peer,
            todo.receipts[todo.order[j]],
            action,
        )
}

/// Whether each of the candidates is known by its hash.
spec fn by_hash(todo: TodoModel) -> bool {
    forall|j: int|
        0 <= j < todo.order.len() ==> todo.receipts[#[trigger] todo.order[j]].descriptor.validation_data_hash
            == todo.order[j]
}

/// Whether the messages of a candidate stand in the vault of its relay parent as
/// they are, for indices of validators.
spec fn from_vault(state: StateModel, todo: TodoModel, at: int, messages: Seq<MessageModel>) -> bool {
    let known = state.per_relay_parent[todo.relay_parent(at)];
    &&& 0 <= at < todo.order.len()
    &&& state.per_relay_parent.contains_key(todo.relay_parent(at))
    &&& forall|k: int|
        0 <= k < messages.len() ==> {
            let m = #[trigger] messages[k];
            &&& m.candidate_hash == todo.order[at]
            &&& m.erasure_chunk.index < known.validators.len() as u32
            &&& known.message_vault.contains_key((todo.order[at], m.erasure_chunk.index))
            &&& known.message_vault[(todo.order[at], m.erasure_chunk.index)] == m
        }
}

proof fn lemma_sends_from_vault(
    start: StateModel,
    pre: StateModel,
    origin: Seq<u8>,
    todo: TodoModel,
    at: int,
    messages: Seq<MessageModel>,
    k: int,
    post: StateModel,
    task: Task,
    action: Action,
)
    requires
        sends_owed(pre, origin, todo, at, messages, k, post, task, action),
        0 <= k < messages.len(),
        from_vault(pre, todo, at, messages),
        by_hash(todo),
        same_vaults(start, pre),
    ensures
        same_vaults(start, post),
        same_but_tracked(pre, post),
        from_vault(post, todo, at, messages),
        sends_from_vault(start, origin, todo, action),
{
    let h = todo.relay_parent(at);
    let m = messages[k];
    let hash = todo.order[at];
    let index = m.erasure_chunk.index;
    assert(pre.per_relay_parent[h].message_vault.contains_key((hash, index)));
    assert(pre.per_relay_parent[h].message_vault.insert(m.id(), m)
        =~= pre.per_relay_parent[h].message_vault);
    assert(start.per_relay_parent[h].message_vault.contains_key((hash, index)));
    if let Action::SendMessage(peers, protocol, bytes) = action {
        assert(protocol@ =~= seq![0x61u8, 0x76, 0x61, 0x64]);
        let keys = peer_keys(peers@);
        assert(keys.len() == 1 && keys[0] == origin);
        assert(keys[0] == peers[0].bytes@);
        assert(sends_of(start, origin, todo.receipts[todo.order[at]], action));
    }
}

proof fn lemma_catches_up_from_vault(
    start: StateModel,
    pre: StateModel,
    origin: Seq<u8>,
    todo: TodoModel,
    at: int,
    post: StateModel,
    task: Task,
    action: Action,
)
    requires
        at >= 0,
        pre.well_formed(),
        by_hash(todo),
        catches_up(pre, origin, todo, at, post, task, action),
        same_vaults(start, pre),
    ensures
        same_vaults(start, post),
        same_but_tracked(pre, post),
        rests(task, action) || sends_from_vault(start, origin, todo, action),
        task is Receiving || (task matches Task::CatchingUp {
            origin: o,
            todo: t,
            at: a,
            messages,
            sent,
        } && from_vault(post, todo, a as int, message_models(messages@))),
{
    let j = next_owed(pre, origin, todo, at);
    lemma_next_owed(pre, origin, todo, at);
    if j < todo.order.len() {
        let known = pre.per_relay_parent[todo.relay_parent(j)];
        let messages = choose|messages: Seq<MessageModel>|
            known.all_owed(origin, todo.order[j], messages) && #[trigger] sends_owed(
                pre,
                origin,
                todo,
                j,
                messages,
                0,
                post,
                task,
                action,
            );
        let index = choose|index: u32| #[trigger] known.owed(origin, todo.order[j], index);
        let i = choose|i: int|
            0 <= i < messages.len() && (#[trigger] messages[i]).id() == (todo.order[j], index);
        assert(messages.len() > 0);
        assert(from_vault(pre, todo, j, messages)) by {
            assert forall|k: int| 0 <= k < messages.len() implies {
                let m = #[trigger] messages[k];
                &&& m.candidate_hash == todo.order[j]
                &&& m.erasure_chunk.index < known.validators.len() as u32
                &&& known.message_vault.contains_key((todo.order[j], m.erasure_chunk.index))
                &&& known.message_vault[(todo.order[j], m.erasure_chunk.index)] == m
            } by {
                assert(known.owed(origin, todo.order[j], messages[k].erasure_chunk.index));
            }
        }
        lemma_sends_from_vault(start, pre, origin, todo, j, messages, 0, post, task, action);
    }
}

/// Whether a head is one that a change of a peer's view adds.
pub open spec fn adds(start: StateModel, peer: Seq<u8>, view: Seq<H256>, head: H256) -> bool {
    view.contains(head) && !(start.peer_views.contains_key(peer)
        && start.peer_views[peer].contains(head))
}

/// Whether a candidate is live at a head that a change of a peer's view adds.
pub open spec fn live_at_added(
    start: StateModel,
    peer: Seq<u8>,
    view: Seq<H256>,
    head: H256,
    r: CommittedCandidateReceipt,
) -> bool {
    &&& adds(start, peer, view, head)
    &&& start.cache.contains_key(head)
    &&& start.cache[head].contains(r)
}

/// Whether all messages of a candidate that the vault of its relay parent holds
/// for the index of a validator are noted as sent to the peer.
pub open spec fn all_sent(state: StateModel, peer: Seq<u8>, r: CommittedCandidateReceipt) -> bool {
    let known = state.per_relay_parent[r.descriptor.relay_parent];
    let hash = r.descriptor.validation_data_hash;
    state.per_relay_parent.contains_key(r.descriptor.relay_parent) ==> forall|index: u32|
        index < known.validators.len() as u32 && #[trigger] known.message_vault.contains_key(
            (hash, index),
        ) ==> noted(known.sent_messages, peer, (hash, index))
}

/// The course of catching a peer up, up to some step.
spec fn on_course(
    start: StateModel,
    peer: Seq<u8>,
    view: Seq<H256>,
    todo: TodoModel,
    state: StateModel,
    task: Task,
) -> bool {
    &&& caught_up(state, peer, todo, task)
    &&& same_vaults(start, state)
    &&& state.peer_views == start.peer_views.insert(peer, view)
    &&& state.view == start.view
    &&& state.cache == start.cache
    &&& state.reverse == start.reverse
    &&& task is Receiving || (task matches Task::CatchingUp {
        origin,
        todo: t,
        at,
        messages,
        sent,
    } && from_vault(state, todo, at as int, message_models(messages@)))
}

proof fn lemma_catching_up(
    states: Seq<StateModel>,
    tasks: Seq<Task>,
    replies: Seq<Reply>,
    actions: Seq<Action>,
    peer: PeerId,
    view: RelayView,
    todo: TodoModel,
    m: int,
)
    requires
        runs(states, tasks, replies, actions),
        forall|i: int| 0 <= i < states.len() ==> (#[trigger] states[i]).well_formed(),
        forall|i: int| 1 <= i < replies.len() ==> #[trigger] replies[i] is Sent,
        forall|i: int| 1 <= i < replies.len() ==> #[trigger] tasks[i] is CatchingUp,
        1 <= m <= replies.len(),
        by_hash(todo),
        on_course(states[0], peer@, view@, todo, states[1], tasks[1]),
        rests(tasks[1], actions[0]) || sends_from_vault(states[0], peer@, todo, actions[0]),
    ensures
        on_course(states[0], peer@, view@, todo, states[m], tasks[m]),
        rests(tasks[m], actions[m - 1]) || sends_from_vault(states[0], peer@, todo, actions[m - 1]),
    decreases m,
{
    if m > 1 {
        lemma_catching_up(states, tasks, replies, actions, peer, view, todo, m - 1);
        let pre = states[m - 1];
        let post = states[m];
        let waiting = tasks[m - 1];
        let reply = replies[m - 1];
        assert(transition(pre, waiting, reply, post, tasks[m], actions[m - 1]));
        assert(waiting is CatchingUp);
        assert(reply is Sent);
        law_catching_up_is_complete(pre, waiting, peer@, todo, post, tasks[m], actions[m - 1]);
        if let Task::CatchingUp { origin, todo: t, at, messages, sent } = waiting {
            let models = message_models(messages@);
            if sent + 1 < models.len() {
                lemma_sends_from_vault(
                    states[0],
                    pre,
                    peer@,
                    todo,
                    at as int,
                    models,
                    sent + 1,
                    post,
                    tasks[m],
                    actions[m - 1],
                );
            } else {
                lemma_catches_up_from_vault(
                    states[0],
                    pre,
                    peer@,
                    todo,
                    at + 1,
                    post,
                    tasks[m],
                    actions[m - 1],
                );
            }
        }
    }
}

/// A peer whose view changes is caught up on everything.
///
/// While messages can be sent, the peer is sent one message after the other, each
/// of a live candidate of a head that the change adds and as the vault of the
/// candidate's relay parent holds it. At the end its view is the new one; and for the hash of
/// every live candidate of every head that the change adds there is such a
/// candidate of which the peer is noted as sent every message that the vault of
/// its relay parent holds for the index of a validator. Nothing else changes.
pub proof fn law_peers_are_caught_up(
    states: Seq<StateModel>,
    tasks: Seq<Task>,
    replies: Seq<Reply>,
    actions: Seq<Action>,
    peer: PeerId,
    view: RelayView,
)
    requires
        runs(states, tasks, replies, actions),
        forall|i: int| 0 <= i < states.len() ==> (#[trigger] states[i]).well_formed(),
        tasks[0] is Receiving,
        replies.len() >= 1,
        brings(replies[0], NetworkBridgeEvent::PeerViewChange(peer, view)),
        forall|i: int| 1 <= i < replies.len() ==> #[trigger] replies[i] is Sent,
        forall|i: int| 1 <= i < replies.len() ==> #[trigger] tasks[i] is CatchingUp,
        tasks.last() is Receiving,
    ensures
        forall|i: int|
            0 <= i < actions.len() - 1 ==> exists|head: H256, r: CommittedCandidateReceipt| #[trigger]
                live_at_added(states[0], peer.bytes@, view.0@, head, r) && sends_of(
                    states[0],
                    peer.bytes@,
                    r,
                    #[trigger] actions[i],
                ),
        actions.last() is Receive,
        states.last().peer_views == states[0].peer_views.insert(peer.bytes@, view.0@),
        states.last().view == states[0].view,
        states.last().cache == states[0].cache,
        states.last().reverse == states[0].reverse,
        same_vaults(states[0], states.last()),
        forall|head: H256, r: CommittedCandidateReceipt| #[trigger]
            live_at_added(states[0], peer.bytes@, view.0@, head, r) ==> exists|
                other: H256,
                r2: CommittedCandidateReceipt,
            | #[trigger]
                live_at_added(states[0], peer.bytes@, view.0@, other, r2)
                    && r2.descriptor.validation_data_hash == r.descriptor.validation_data_hash
                    && all_sent(states.last(), peer.bytes@, r2),
{
    let start = states[0];
    let mid = start.with_peer_view(peer@, view@);
    let added = heads_difference(view@, start.view_of(peer@));
    let reply = replies[0];
    assert(transition(states[0], tasks[0], replies[0], states[1], tasks[1], actions[0]));
    assert(peer_view_changes(start, peer@, view@, states[1], tasks[1], actions[0]));
    let todo = choose|todo: TodoModel|
        todo.well_formed() && is_union(todo.receipts, start.cache, added) && #[trigger] catches_up(
            mid,
            peer@,
            todo,
            0,
            states[1],
            tasks[1],
            actions[0],
        );
    lemma_catches_up(mid, peer@, todo, 0, states[1], tasks[1], actions[0]);
    assert(by_hash(todo)) by {
        assert forall|j: int| 0 <= j < todo.order.len() implies todo.receipts[#[trigger] todo.order[j]].descriptor.validation_data_hash
            == todo.order[j] by {
            assert(todo.order.contains(todo.order[j]));
        }
    }
    assert(states[0].well_formed());
    lemma_catches_up_from_vault(start, mid, peer@, todo, 0, states[1], tasks[1], actions[0]);
    assert(on_course(start, peer@, view@, todo, states[1], tasks[1]));
    let last = replies.len() as int;
    lemma_catching_up(states, tasks, replies, actions, peer, view, todo, last);
    assert forall|i: int| 0 <= i < actions.len() - 1 implies exists|
        head: H256,
        r: CommittedCandidateReceipt,
    | #[trigger]
        live_at_added(states[0], peer.bytes@, view.0@, head, r) && sends_of(
            states[0],
            peer.bytes@,
            r,
            #[trigger] actions[i],
        ) by {
        lemma_catching_up(states, tasks, replies, actions, peer, view, todo, i + 1);
        let next = replies[i + 1];
        assert(tasks[i + 1] is CatchingUp);
        let j = choose|j: int|
            0 <= j < todo.order.len() && #[trigger] sends_of(
                start,
                peer@,
                todo.receipts[todo.order[j]],
                actions[i],
            );
        let r = todo.receipts[todo.order[j]];
        assert(todo.order.contains(todo.order[j]));
        assert(unioned(start.cache, added, r));
        let k = choose|k: int| #[trigger] live_at(start.cache, added, k, r);
        assert(added.contains(added[k]));
        law_difference(view@, start.view_of(peer@), added[k]);
        assert(live_at_added(start, peer.bytes@, view.0@, added[k], r));
    }
    let end = states.last();
    assert forall|head: H256, r: CommittedCandidateReceipt| #[trigger]
        live_at_added(start, peer.bytes@, view.0@, head, r) implies exists|
        other: H256,
        r2: CommittedCandidateReceipt,
    | #[trigger]
        live_at_added(start, peer.bytes@, view.0@, other, r2) && r2.descriptor.validation_data_hash
            == r.descriptor.validation_data_hash && all_sent(end, peer.bytes@, r2) by {
        law_difference(view@, start.view_of(peer@), head);
        let k = choose|k: int| 0 <= k < added.len() && added[k] == head;
        assert(live_at(start.cache, added, k, r));
        let hash = candidate_hash(r);
        assert(todo.receipts.contains_key(hash));
        assert(todo.order.contains(hash));
        let j = choose|j: int| 0 <= j < todo.order.len() && todo.order[j] == hash;
        let r2 = todo.receipts[hash];
        assert(unioned(start.cache, added, r2));
        let k2 = choose|k2: int| #[trigger] live_at(start.cache, added, k2, r2);
        let other = added[k2];
        assert(added.contains(other));
        law_difference(view@, start.view_of(peer@), other);
        assert(live_at_added(start, peer.bytes@, view.0@, other, r2));
        assert(!owes(end, peer@, todo, j));
        assert(all_sent(end, peer.bytes@, r2)) by {
            let known = end.per_relay_parent[r2.descriptor.relay_parent];
            if end.per_relay_parent.contains_key(r2.descriptor.relay_parent) {
                assert forall|index: u32|
                    index < known.validators.len() as u32
                        && #[trigger] known.message_vault.contains_key((hash, index)) implies noted(
                    known.sent_messages,
                    peer.bytes@,
                    (hash, index),
                ) by {
                    assert(todo.relay_parent(j) == r2.descriptor.relay_parent);
                    assert(!end.per_relay_parent[todo.relay_parent(j)].owed(
                        peer@,
                        todo.order[j],
                        index,
                    ));
                }
            }
        }
    }
}

/// A peer that has been caught up was sent all that it now wants: of every live
/// candidate of every head that the change of its view adds, every message that
/// the vault of the candidate's relay parent holds for the index of a
/// validator, where candidates with one hash have one relay parent.
pub proof fn law_peers_are_sent_all_they_want(
    states: Seq<StateModel>,
    tasks: Seq<Task>,
    replies: Seq<Reply>,
    actions: Seq<Action>,
    peer: PeerId,
    view: RelayView,
    head: H256,
    r: CommittedCandidateReceipt,
    index: u32,
)
    requires
        runs(states, tasks, replies, actions),
        forall|i: int| 0 <= i < states.len() ==> (#[trigger] states[i]).well_formed(),
        tasks[0] is Receiving,
        replies.len() >= 1,
        brings(replies[0], NetworkBridgeEvent::PeerViewChange(peer, view)),
        forall|i: int| 1 <= i < replies.len() ==> #[trigger] replies[i] is Sent,
        forall|i: int| 1 <= i < replies.len() ==> #[trigger] tasks[i] is CatchingUp,
        tasks.last() is Receiving,
        view.0@.contains(head),
        !(states[0].peer_views.contains_key(peer.bytes@)
            && states[0].peer_views[peer.bytes@].contains(head)),
        states[0].cache.contains_key(head),
        states[0].cache[head].contains(r),
        forall|other: H256, r2: CommittedCandidateReceipt| #[trigger]
            live_at_added(states[0], peer.bytes@, view.0@, other, r2)
                && r2.descriptor.validation_data_hash == r.descriptor.validation_data_hash
                ==> r2.descriptor.relay_parent == r.descriptor.relay_parent,
        states[0].per_relay_parent.contains_key(r.descriptor.relay_parent),
        index < states[0].per_relay_parent[r.descriptor.relay_parent].validators.len() as u32,
        states[0].per_relay_parent[r.descriptor.relay_parent].message_vault.contains_key(
            (r.descriptor.validation_data_hash, index),
        ),
    ensures
        states.last().per_relay_parent[r.descriptor.relay_parent].sent_messages.contains_key(
            peer.bytes@,
        ),
        states.last().per_relay_parent[r.descriptor.relay_parent].sent_messages[peer.bytes@].contains(
            (r.descriptor.validation_data_hash, index),
        ),
{
    law_peers_are_caught_up(states, tasks, replies, actions, peer, view);
    assert(live_at_added(states[0], peer.bytes@, view.0@, head, r));
    let (other, r2) = choose|other: H256, r2: CommittedCandidateReceipt| #[trigger]
        live_at_added(states[0], peer.bytes@, view.0@, other, r2)
            && r2.descriptor.validation_data_hash == r.descriptor.validation_data_hash && all_sent(
            states.last(),
            peer.bytes@,
            r2,
        );
    let known = states.last().per_relay_parent[r.descriptor.relay_parent];
    assert(states.last().per_relay_parent.contains_key(r.descriptor.relay_parent));
    assert(known.message_vault.contains_key((r.descriptor.validation_data_hash, index)));
}

} // verus!
