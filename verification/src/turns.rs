//! Which candidates are worked on, and in which order, said of the fields of
//! the state, the replies and the actions alone.

use vstd::prelude::*;

use crate::laws::{law_validators_pass_no_candidate_over, runs};
use crate::our_view::{chunk_models, distributes, next_candidate};
use crate::primitives::{CommittedCandidateReceipt, H256, candidate_hash, occupied};
use crate::protocol::{Action, Distribution, Exit, Reply, Task, TodoModel, ViewChange, todo_of};
use crate::state::{StateModel, is_union, live_at, unioned};
use crate::steps::{
    law_recording_leads_to_the_relay_parent, lemma_only_forgets, only_forgets, only_records, rests,
};
use crate::subsystem::transition;

verus! {

/// Whether work was started on the relay parent of a candidate and this node is
/// no validator there.
pub open spec fn no_validator(
    state: StateModel,
    order: Seq<H256>,
    receipts: Map<H256, CommittedCandidateReceipt>,
    i: int,
) -> bool {
    let relay_parent = receipts[order[i]].descriptor.relay_parent;
    &&& state.per_relay_parent.contains_key(relay_parent)
    &&& state.per_relay_parent[relay_parent].validator_index is None
}

/// Whether the candidate at `j` is turned to, those from `from` on being passed
/// over because this node is no validator for them: its proof of validity is
/// asked for. Where all are passed over, the update ends; where no work was
/// started on the relay parent of the candidate, the subsystem ends.
pub open spec fn turns_to(
    state: StateModel,
    order: Seq<H256>,
    receipts: Map<H256, CommittedCandidateReceipt>,
    from: int,
    j: int,
    task: Task,
    action: Action,
) -> bool {
    &&& from <= j <= order.len()
    &&& forall|i: int| from <= i < j ==> #[trigger] no_validator(state, order, receipts, i)
    &&& if j == order.len() {
        rests(task, action)
    } else {
        let relay_parent = receipts[order[j]].descriptor.relay_parent;
        if !state.per_relay_parent.contains_key(relay_parent) {
            &&& task is Stopped
            &&& action matches Action::Stop(exit) && exit == Exit::MissingRelayParent
        } else {
            &&& action matches Action::QueryPoV(hash) && hash == order[j]
            &&& task matches Task::QueryingPoV { work } && work.todo.order() == order && work.todo@
                == receipts && work.at == j && state.per_relay_parent[relay_parent].validator_index
                == Some(work.validator_index)
        }
    }
}

proof fn lemma_turns_to(
    pre: StateModel,
    old_view: Seq<H256>,
    added: Seq<H256>,
    todo: TodoModel,
    at: int,
    post: StateModel,
    task: Task,
    action: Action,
)
    requires
        0 <= at <= todo.order.len(),
        distributes(pre, old_view, added, todo, at, post, task, action),
    ensures
        turns_to(
            pre,
            todo.order,
            todo.receipts,
            at,
            next_candidate(pre, todo, at),
            task,
            action,
        ),
        task is Receiving ==> only_forgets(pre, old_view, post),
        !(task is Receiving) ==> post == pre,
        task matches Task::QueryingPoV { work } ==> work.change.old_view@ == old_view
            && work.change.added@ == added,
{
    let j = next_candidate(pre, todo, at);
    lemma_next_candidate(pre, todo, at);
    assert forall|i: int| at <= i < j implies #[trigger] no_validator(
        pre,
        todo.order,
        todo.receipts,
        i,
    ) by {
        law_validators_pass_no_candidate_over(pre, todo, at, i);
    }
    if j == todo.order.len() {
        lemma_only_forgets(pre, old_view, post);
    }
}

proof fn lemma_next_candidate(state: StateModel, todo: TodoModel, at: int)
    requires
        0 <= at <= todo.order.len(),
    ensures
        at <= next_candidate(state, todo, at) <= todo.order.len(),
        next_candidate(state, todo, at) < todo.order.len() ==> {
            let h = todo.relay_parent(next_candidate(state, todo, at));
            !state.per_relay_parent.contains_key(h) || state.per_relay_parent[h].validator_index
                is Some
        },
    decreases todo.order.len() - at,
{
    if at < todo.order.len() && state.per_relay_parent.contains_key(todo.relay_parent(at))
        && state.per_relay_parent[todo.relay_parent(at)].validator_index is None {
        lemma_next_candidate(state, todo, at + 1);
    }
}

/// The candidates are worked on one after the other: without a proof of
/// validity, or once the last chunk of a candidate was sent, the next candidate
/// for which this node is a validator is turned to, and none is passed over for
/// which it is one. After the last one just the heads that our view has no more
/// are forgotten.
pub proof fn law_candidates_are_taken_in_turn(
    pre: StateModel,
    waiting: Task,
    reply: Reply,
    post: StateModel,
    task: Task,
    action: Action,
)
    requires
        match waiting {
            Task::QueryingPoV { work } => work.at < work.todo.order().len() && (
            reply matches Reply::PoV(pov) && pov is None),
            Task::Distributing { work, peers, chunks, sent } => work.at < work.todo.order().len()
                && sent + 1 >= chunks.len() && reply is Sent,
            _ => false,
        },
        transition(pre, waiting, reply, post, task, action),
    ensures
        ({
            let work = work_of(waiting)->0;
            &&& exists|j: int| #[trigger]
                turns_to(pre, work.todo.order(), work.todo@, work.at + 1, j, task, action)
            &&& task is Receiving ==> only_forgets(pre, work.change.old_view.0@, post)
            &&& !(task is Receiving) ==> post == pre
            &&& task matches Task::QueryingPoV { work: w } ==> w.change.old_view.0@
                == work.change.old_view.0@ && w.change.added@ == work.change.added@
        }),
{
    let work = work_of(waiting)->0;
    lemma_turns_to(
        pre,
        work.change.old_view@,
        work.change.added@,
        todo_of(work.todo),
        work.at + 1,
        post,
        task,
        action,
    );
}

/// The work on a candidate that a task belongs to, if it belongs to one.
pub open spec fn work_of(task: Task) -> Option<Distribution> {
    match task {
        Task::QueryingPoV { work } => Some(work),
        Task::QueryingHeadData { work, .. } => Some(work),
        Task::Encoding { work } => Some(work),
        Task::Storing { work, .. } => Some(work),
        Task::Distributing { work, .. } => Some(work),
        _ => None,
    }
}

/// Whether a candidate is live in a cache at the head at position `k`.
pub open spec fn lives_in(
    cache: Map<H256, Set<CommittedCandidateReceipt>>,
    heads: Seq<H256>,
    k: int,
    r: CommittedCandidateReceipt,
) -> bool {
    &&& 0 <= k < heads.len()
    &&& cache.contains_key(heads[k])
    &&& cache[heads[k]].contains(r)
}

/// Whether the order holds the hashes of all live candidates of the heads, each
/// of them once, and the receipts hold such a candidate for each of them, of two
/// of them one of the later head.
pub open spec fn all_live(
    cache: Map<H256, Set<CommittedCandidateReceipt>>,
    heads: Seq<H256>,
    order: Seq<H256>,
    receipts: Map<H256, CommittedCandidateReceipt>,
) -> bool {
    &&& order.no_duplicates()
    &&& forall|k: int, r: CommittedCandidateReceipt| #[trigger]
        lives_in(cache, heads, k, r) ==> order.contains(r.descriptor.validation_data_hash)
    &&& forall|h: H256| #[trigger]
        order.contains(h) ==> receipts[h].descriptor.validation_data_hash == h && exists|k: int|
            #[trigger] lives_in(cache, heads, k, receipts[h]) && forall|
                k2: int,
                r: CommittedCandidateReceipt,
            |
                k < k2 && #[trigger] lives_in(cache, heads, k2, r)
                    ==> r.descriptor.validation_data_hash != h
}

/// Once the last added head is looked up, all live candidates of all added heads
/// are turned to in order: the first one for which this node is a validator is
/// taken up, and none is passed over for which it is one.
pub proof fn law_all_candidates_are_turned_to(
    pre: StateModel,
    waiting: Task,
    reply: Reply,
    live: Set<CommittedCandidateReceipt>,
    change: ViewChange,
    at: usize,
    post: StateModel,
    task: Task,
    action: Action,
)
    requires
        at + 1 == change.added.len(),
        match (waiting, reply) {
            (Task::QueryingCores { change: c, at: a }, Reply::AvailabilityCores(cores)) => {
                &&& c == change && a == at
                &&& occupied(cores@).len() == 0
                &&& live == Set::<CommittedCandidateReceipt>::empty()
            },
            (
                Task::QueryingPending { change: c, at: a, paras, next, live: l },
                Reply::CandidatePendingAvailability(candidate),
            ) => {
                &&& c == change && a == at
                &&& next + 1 == paras.len()
                &&& live == (match candidate {
                    Some(r) => l@.insert(r),
                    None => l@,
                })
            },
            _ => false,
        },
        transition(pre, waiting, reply, post, task, action),
    ensures
        exists|order: Seq<H256>, receipts: Map<H256, CommittedCandidateReceipt>, j: int|
            all_live(
                pre.cache.insert(change.added[at as int], live),
                change.added@,
                order,
                receipts,
            ) && #[trigger] turns_to(pre, order, receipts, 0, j, task, action),
        exists|mid: StateModel| #[trigger]
            only_records(pre, change.added[at as int], live, mid) && if task is Receiving {
                only_forgets(mid, change.old_view.0@, post)
            } else {
                post == mid
            },
{
    let head = change.added[at as int];
    let mid = pre.recorded(head, live);
    law_recording_leads_to_the_relay_parent(pre, head, live);
    let added = change.added@;
    let todo = choose|todo: TodoModel|
        todo.well_formed() && is_union(todo.receipts, mid.cache, added) && #[trigger] distributes(
            mid,
            change.old_view@,
            added,
            todo,
            0,
            post,
            task,
            action,
        );
    lemma_turns_to(mid, change.old_view@, added, todo, 0, post, task, action);
    let j = next_candidate(mid, todo, 0);
    assert forall|i: int| 0 <= i < j implies #[trigger] no_validator(
        pre,
        todo.order,
        todo.receipts,
        i,
    ) by {
        assert(no_validator(mid, todo.order, todo.receipts, i));
    }
    assert(turns_to(pre, todo.order, todo.receipts, 0, j, task, action));
    let cache = mid.cache;
    assert forall|k: int, r: CommittedCandidateReceipt| #[trigger]
        lives_in(cache, added, k, r) <==> live_at(cache, added, k, r) by {}
    assert forall|k: int, r: CommittedCandidateReceipt| #[trigger]
        lives_in(cache, added, k, r) implies todo.order.contains(
        r.descriptor.validation_data_hash,
    ) by {
        assert(live_at(cache, added, k, r));
        assert(todo.receipts.contains_key(candidate_hash(r)));
    }
    assert forall|h: H256| #[trigger] todo.order.contains(h) implies todo.receipts[h].descriptor.validation_data_hash
        == h && exists|k: int| #[trigger]
        lives_in(cache, added, k, todo.receipts[h]) && forall|
            k2: int,
            r: CommittedCandidateReceipt,
        |
            k < k2 && #[trigger] lives_in(cache, added, k2, r)
                ==> r.descriptor.validation_data_hash != h by {
        let c = todo.receipts[h];
        assert(todo.receipts.contains_key(h));
        assert(unioned(cache, added, c));
        let k = choose|k: int|
            #![trigger live_at(cache, added, k, c)]
            live_at(cache, added, k, c) && forall|k2: int, r: CommittedCandidateReceipt|
                k < k2 && #[trigger] live_at(cache, added, k2, r) ==> candidate_hash(r)
                    != candidate_hash(c);
        assert(lives_in(cache, added, k, c));
        assert forall|k2: int, r: CommittedCandidateReceipt|
            k < k2 && #[trigger] lives_in(cache, added, k2, r) implies r.descriptor.validation_data_hash
            != h by {
            assert(live_at(cache, added, k2, r));
        }
    }
    assert(all_live(pre.cache.insert(head, live), added, todo.order, todo.receipts));
}

/// Whether a candidate is passed over because this node is no validator for it,
/// or one of the first `n` actions asks for its proof of validity.
pub open spec fn is_dealt_with(
    start: StateModel,
    order: Seq<H256>,
    receipts: Map<H256, CommittedCandidateReceipt>,
    actions: Seq<Action>,
    n: int,
    j: int,
) -> bool {
    ||| no_validator(start, order, receipts, j)
    ||| exists|k: int|
        0 <= k < n && (#[trigger] actions[k] matches Action::QueryPoV(hash) && hash == order[j])
}

/// Whether the relay parents are tracked with the same index of ours.
pub open spec fn same_indices(a: StateModel, b: StateModel) -> bool {
    &&& forall|h: H256| #[trigger]
        b.per_relay_parent.contains_key(h) <==> a.per_relay_parent.contains_key(h)
    &&& forall|h: H256| #[trigger]
        b.per_relay_parent.contains_key(h) ==> b.per_relay_parent[h].validator_index
            == a.per_relay_parent[h].validator_index
}

/// How far the candidates are dealt with after `n` steps.
spec fn in_turn(
    start: StateModel,
    order: Seq<H256>,
    receipts: Map<H256, CommittedCandidateReceipt>,
    from: int,
    actions: Seq<Action>,
    n: int,
    state: StateModel,
    task: Task,
) -> bool {
    &&& same_indices(start, state)
    &&& match work_of(task) {
        Some(work) => {
            &&& work.todo.order() == order
            &&& work.todo@ == receipts
            &&& from <= work.at < order.len()
            &&& state.per_relay_parent.contains_key(
                receipts[order[work.at as int]].descriptor.relay_parent,
            )
            &&& forall|j: int|
                from < j <= work.at ==> #[trigger] is_dealt_with(
                    start,
                    order,
                    receipts,
                    actions,
                    n,
                    j,
                )
        },
        None => task is Receiving ==> forall|j: int|
            from < j < order.len() ==> #[trigger] is_dealt_with(
                start,
                order,
                receipts,
                actions,
                n,
                j,
            ),
    }
}

/// Whether a reply keeps the work on the candidates going: what was asked for is
/// there, the data could be coded with a chunk for our index, or a message was
/// sent.
pub open spec fn keeps_going(waiting: Task, reply: Reply) -> bool {
    match waiting {
        Task::QueryingPoV { .. } => reply is PoV,
        Task::QueryingHeadData { .. } => reply is HeadData,
        Task::Encoding { work } => reply matches Reply::Chunks(chunks) && (
        chunks matches Some(branches) && work.validator_index < branches.len()),
        Task::Storing { .. } => true,
        Task::Distributing { .. } => reply is Sent,
        _ => false,
    }
}

proof fn lemma_dealt_with_later(
    start: StateModel,
    order: Seq<H256>,
    receipts: Map<H256, CommittedCandidateReceipt>,
    actions: Seq<Action>,
    n: int,
)
    requires
        0 <= n,
    ensures
        forall|j: int| #[trigger]
            is_dealt_with(start, order, receipts, actions, n, j) ==> is_dealt_with(
                start,
                order,
                receipts,
                actions,
                n + 1,
                j,
            ),
{
}

proof fn lemma_turn(
    start: StateModel,
    order: Seq<H256>,
    receipts: Map<H256, CommittedCandidateReceipt>,
    from: int,
    actions: Seq<Action>,
    n: int,
    work: Distribution,
    pre: StateModel,
    post: StateModel,
    task: Task,
)
    requires
        0 <= n < actions.len(),
        same_indices(start, pre),
        work.todo.order() == order,
        work.todo@ == receipts,
        0 <= from <= work.at < order.len(),
        forall|j: int|
            from < j <= work.at ==> #[trigger] is_dealt_with(start, order, receipts, actions, n, j),
        distributes(
            pre,
            work.change.old_view@,
            work.change.added@,
            todo_of(work.todo),
            work.at + 1,
            post,
            task,
            actions[n],
        ),
    ensures
        in_turn(start, order, receipts, from, actions, n + 1, post, task),
        work_of(task) is None ==> task is Receiving || task is Stopped,
{
    let todo = todo_of(work.todo);
    lemma_turns_to(
        pre,
        work.change.old_view@,
        work.change.added@,
        todo,
        work.at + 1,
        post,
        task,
        actions[n],
    );
    lemma_dealt_with_later(start, order, receipts, actions, n);
    let next = next_candidate(pre, todo, work.at + 1);
    assert forall|j: int| from < j < next implies #[trigger] is_dealt_with(
        start,
        order,
        receipts,
        actions,
        n + 1,
        j,
    ) by {
        if j <= work.at {
            assert(is_dealt_with(start, order, receipts, actions, n, j));
        } else {
            assert(no_validator(pre, order, receipts, j));
            assert(no_validator(start, order, receipts, j));
        }
    }
    if next < order.len() && task is QueryingPoV {
        assert(actions[n] is QueryPoV);
        assert(is_dealt_with(start, order, receipts, actions, n + 1, next));
    }
}

proof fn lemma_in_turn(
    states: Seq<StateModel>,
    tasks: Seq<Task>,
    replies: Seq<Reply>,
    actions: Seq<Action>,
    work: Distribution,
    n: int,
)
    requires
        runs(states, tasks, replies, actions),
        tasks[0] == (Task::QueryingPoV { work }),
        work.at < work.todo.order().len(),
        states[0].per_relay_parent.contains_key(
            work.todo@[work.todo.order()[work.at as int]].descriptor.relay_parent,
        ),
        forall|i: int| 0 <= i < replies.len() ==> keeps_going(tasks[i], #[trigger] replies[i]),
        0 <= n <= replies.len(),
    ensures
        in_turn(
            states[0],
            work.todo.order(),
            work.todo@,
            work.at as int,
            actions,
            n,
            states[n],
            tasks[n],
        ),
    decreases n,
{
    let start = states[0];
    let order = work.todo.order();
    let receipts = work.todo@;
    let from = work.at as int;
    if n > 0 {
        let m = n - 1;
        lemma_in_turn(states, tasks, replies, actions, work, m);
        lemma_dealt_with_later(start, order, receipts, actions, m);
        let reply = replies[m];
        let pre = states[m];
        let post = states[n];
        let task = tasks[n];
        assert(transition(pre, tasks[m], replies[m], post, task, actions[m]));
        assert(keeps_going(tasks[m], reply));
        if let Some(w) = work_of(tasks[m]) {
            assert forall|j: int| from < j <= w.at implies #[trigger] is_dealt_with(
                start,
                order,
                receipts,
                actions,
                n,
                j,
            ) by {
                assert(is_dealt_with(start, order, receipts, actions, m, j));
            }
        }
        match tasks[m] {
            Task::QueryingPoV { work: w } => {
                if reply == Reply::PoV(None) {
                    lemma_turn(start, order, receipts, from, actions, m, w, pre, post, task);
                }
            },
            Task::Storing { work: w, chunks } => {
                if chunk_models(chunks@).len() == 0 {
                    lemma_turn(start, order, receipts, from, actions, m, w, pre, post, task);
                } else {
                    assert(w.relay_parent()
                        == receipts[order[w.at as int]].descriptor.relay_parent);
                    assert(same_indices(start, post));
                }
            },
            Task::Distributing { work: w, peers, chunks, sent } => {
                if sent + 1 >= chunk_models(chunks@).len() {
                    lemma_turn(start, order, receipts, from, actions, m, w, pre, post, task);
                } else {
                    assert(w.relay_parent()
                        == receipts[order[w.at as int]].descriptor.relay_parent);
                    assert(same_indices(start, post));
                }
            },
            _ => {},
        }
    }
}

/// No candidate is left out: from one candidate on, with nothing in the way,
/// until the update ends, the proof of validity of every later candidate is
/// asked for, unless this node is no validator at its relay parent.
pub proof fn law_no_candidate_is_left_out(
    states: Seq<StateModel>,
    tasks: Seq<Task>,
    replies: Seq<Reply>,
    actions: Seq<Action>,
    work: Distribution,
    j: int,
)
    requires
        runs(states, tasks, replies, actions),
        tasks[0] == (Task::QueryingPoV { work }),
        states[0].per_relay_parent.contains_key(
            work.todo@[work.todo.order()[work.at as int]].descriptor.relay_parent,
        ),
        forall|i: int| 0 <= i < replies.len() ==> keeps_going(tasks[i], #[trigger] replies[i]),
        tasks.last() is Receiving,
        work.at < j < work.todo.order().len(),
    ensures
        no_validator(states[0], work.todo.order(), work.todo@, j) || exists|k: int|
            0 <= k < actions.len() && (#[trigger] actions[k] matches Action::QueryPoV(hash) && hash
                == work.todo.order()[j]),
{
    lemma_in_turn(states, tasks, replies, actions, work, replies.len() as int);
    assert(is_dealt_with(
        states[0],
        work.todo.order(),
        work.todo@,
        actions,
        replies.len() as int,
        j,
    ));
}

} // verus!
