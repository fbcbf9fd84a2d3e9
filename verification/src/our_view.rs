//! The handling of changes of our own view: the live candidates of the added
//! heads are looked up, and where this node is a validator, the chunks of
//! their data are made, stored and distributed. The heads that the change
//! removes are forgotten.

use vstd::prelude::*;

use crate::collections::{VecMap, VecSet};
use crate::message::{
    AvailabilityGossipMessage, ChunkModel, ErasureChunk, MessageModel, byte_strings, carries,
    copy_strings,
};
use crate::primitives::{
    AvailableData, CommittedCandidateReceipt, CoreState, H256, ParaId, PeerId, PoV, RelayView,
    ValidatorIndex, copy_bytes, heads_difference, occupied, occupied_para_ids, peer_keys,
    query_omitted_validation_data,
};
use crate::protocol::{
    Action, Distribution, Exit, PROTOCOL_ID, Task, TodoModel, ViewChange, all_encodable,
    branches_encodable, idle, numbered, todo_of,
};
use crate::state::{ProtocolState, StateModel, forgets, is_union, lists};

verus! {

/// The first candidate from `at` on for which there is something to do: its
/// relay parent is not known, or this node is a validator there.
pub open spec fn next_candidate(state: StateModel, todo: TodoModel, at: int) -> int
    decreases todo.order.len() - at,
{
    if at >= todo.order.len() {
        todo.order.len() as int
    } else if !state.per_relay_parent.contains_key(todo.relay_parent(at))
        || state.per_relay_parent[todo.relay_parent(at)].validator_index is Some {
        at
    } else {
        next_candidate(state, todo, at + 1)
    }
}

/// The change of our view ends: the heads that it removes are forgotten.
pub open spec fn finishes(
    pre: StateModel,
    old_view: Seq<H256>,
    post: StateModel,
    task: Task,
    action: Action,
) -> bool {
    &&& forgets(pre, heads_difference(old_view, pre.view), post)
    &&& idle(task, action)
}

/// The candidates from `at` on are worked through: the next one for which this
/// node is a validator has its proof of validity looked up. After the last one
/// the change of our view ends. Where the relay parent of a candidate is
/// not known, the subsystem ends.
pub open spec fn distributes(
    pre: StateModel,
    old_view: Seq<H256>,
    added: Seq<H256>,
    todo: TodoModel,
    at: int,
    post: StateModel,
    task: Task,
    action: Action,
) -> bool {
    let j = next_candidate(pre, todo, at);
    if j == todo.order.len() {
        finishes(pre, old_view, post, task, action)
    } else if !pre.per_relay_parent.contains_key(todo.relay_parent(j)) {
        &&& post == pre
        &&& task is Stopped
        &&& action matches Action::Stop(exit) && exit == Exit::MissingRelayParent
    } else {
        &&& post == pre
        &&& task matches Task::QueryingPoV { work } && work.same_change(old_view, added, todo)
            && work.at == j && pre.per_relay_parent[todo.relay_parent(j)].validator_index == Some(
            work.validator_index,
        )
        &&& action matches Action::QueryPoV(hash) && hash == todo.order[j]
    }
}

/// The live candidates are looked up at the added heads from `at` on; after
/// the last one the candidates of all added heads are worked through.
pub open spec fn queries_cores(
    pre: StateModel,
    old_view: Seq<H256>,
    added: Seq<H256>,
    at: int,
    post: StateModel,
    task: Task,
    action: Action,
) -> bool {
    if at < added.len() {
        &&& post == pre
        &&& task matches Task::QueryingCores { change, at: a } && change.old_view@ == old_view
            && change.added@ == added && a == at
        &&& action matches Action::QueryAvailabilityCores(head) && head == added[at]
    } else {
        exists|todo: TodoModel|
            todo.well_formed() && is_union(todo.receipts, pre.cache, added)
                && #[trigger] distributes(pre, old_view, added, todo, 0, post, task, action)
    }
}

/// The candidates of the parachains from `next` on are looked up at an added
/// head; after the last one the live candidates of the head are recorded.
pub open spec fn queries_pending(
    pre: StateModel,
    old_view: Seq<H256>,
    added: Seq<H256>,
    at: int,
    paras: Seq<ParaId>,
    next: int,
    live: Set<CommittedCandidateReceipt>,
    post: StateModel,
    task: Task,
    action: Action,
) -> bool {
    if next < paras.len() {
        &&& post == pre
        &&& task matches Task::QueryingPending { change, at: a, paras: p, next: n, live: l }
            && change.old_view@ == old_view && change.added@ == added && a == at && p@ == paras
            && n == next && l@ == live
        &&& action matches Action::QueryCandidatePendingAvailability(head, para) && head
            == added[at] && para == paras[next]
    } else {
        queries_cores(pre.recorded(added[at], live), old_view, added, at + 1, post, task, action)
    }
}

/// Our view is replaced, and the live candidates of the added heads are looked
/// up.
pub open spec fn our_view_changes(
    pre: StateModel,
    view: Seq<H256>,
    post: StateModel,
    task: Task,
    action: Action,
) -> bool {
    queries_cores(
        (StateModel { view, ..pre }),
        pre.view,
        heads_difference(view, pre.view),
        0,
        post,
        task,
        action,
    )
}

/// The chunk that is made of a branch and its bytes.
pub open spec fn our_chunk(branch: (Vec<Vec<u8>>, Vec<u8>), index: ValidatorIndex) -> ChunkModel {
    ChunkModel { chunk: branch.1@, index, proof: byte_strings(branch.0@) }
}

/// The chunks that are made of all branches. Each of them carries its position.
pub open spec fn our_chunks(branches: Seq<(Vec<Vec<u8>>, Vec<u8>)>) -> Seq<ChunkModel> {
    Seq::new(branches.len(), |j: int| our_chunk(branches[j], j as ValidatorIndex))
}

/// The contents of a list of chunks.
pub open spec fn chunk_models(chunks: Seq<ErasureChunk>) -> Seq<ChunkModel> {
    chunks.map_values(|c: ErasureChunk| c@)
}

/// Our own chunk is stored. Where there is none for our index, or the data
/// could not be coded, the change of our view ends.
pub open spec fn stores_chunk(
    pre: StateModel,
    work: Distribution,
    branches: Option<Vec<(Vec<Vec<u8>>, Vec<u8>)>>,
    post: StateModel,
    task: Task,
    action: Action,
) -> bool {
    match branches {
        Some(branches) if work.validator_index < branches.len() => {
            &&& post == pre
            &&& task matches Task::Storing { work: w, chunks } && w == work && chunk_models(chunks@)
                == our_chunks(branches@)
            &&& action matches Action::StoreChunk(hash, index, chunk) && hash == work.candidate()
                && index == work.validator_index && chunk@ == our_chunk(
                branches[work.validator_index as int],
                work.validator_index,
            )
        },
        _ => finishes(pre, work.change.old_view@, post, task, action),
    }
}

/// The message that carries the chunk at `k` of the candidate that is worked on.
pub open spec fn chunk_message(work: Distribution, chunks: Seq<ChunkModel>, k: int) -> MessageModel {
    MessageModel { candidate_hash: work.candidate(), erasure_chunk: chunks[k] }
}

/// The chunks from `k` on are sent, each to the peers that have the relay
/// parent in their view and were not sent the chunk's message; after the last
/// one the next candidate is worked on.
pub open spec fn sends_chunk(
    pre: StateModel,
    work: Distribution,
    chunks: Seq<ChunkModel>,
    k: int,
    post: StateModel,
    task: Task,
    action: Action,
) -> bool {
    if k < chunks.len() {
        let relay_parent = work.relay_parent();
        let message = chunk_message(work, chunks, k);
        &&& action matches Action::SendMessage(peers, protocol, bytes) && lists(
            peer_keys(peers@),
            pre.audience(relay_parent, message.id()),
        ) && protocol == PROTOCOL_ID && carries(bytes@, message) && post == pre.with_relay_parent(
            relay_parent,
            pre.per_relay_parent[relay_parent].after_send(peer_keys(peers@), message),
        )
        &&& task matches Task::Distributing { work: w, peers: p, chunks: c, sent } && w == work
            && chunk_models(c@) == chunks && sent == k
    } else {
        distributes(
            pre,
            work.change.old_view@,
            work.change.added@,
            todo_of(work.todo),
            work.at + 1,
            post,
            task,
            action,
        )
    }
}

/// Works through the candidates from `at` on.
pub fn distribute(
    state: &mut ProtocolState,
    change: ViewChange,
    todo: VecMap<H256, CommittedCandidateReceipt>,
    at: usize,
) -> (next: (Task, Action))
    requires
        old(state)@.well_formed(),
        at <= todo.order().len(),
    ensures
        distributes(
            old(state)@,
            change.old_view@,
            change.added@,
            todo_of(todo),
            at as int,
            final(state)@,
            next.0,
            next.1,
        ),
        final(state)@.well_formed(),
        next.0.well_formed(final(state)@),
{
    let n: usize = todo.len();
    let ghost model = todo_of(todo);
    let mut j: usize = at;
    while j < n
        invariant
            at <= j <= n,
            n == todo.order().len(),
            model == todo_of(todo),
            *state == *old(state),
            state@.well_formed(),
            next_candidate(state@, model, at as int) == next_candidate(state@, model, j as int),
        decreases n - j,
    {
        let relay_parent = todo.value_at(j).descriptor.relay_parent;
        assert(relay_parent == model.relay_parent(j as int));
        match state.per_relay_parent.get(&relay_parent) {
            None => {
                return (Task::Stopped, Action::Stop(Exit::MissingRelayParent));
            },
            Some(known) => {
                if let Some(validator_index) = known.validator_index {
                    let hash = *todo.key_at(j);
                    let work = Distribution { change, todo, at: j, validator_index };
                    return (Task::QueryingPoV { work }, Action::QueryPoV(hash));
                }
            },
        }
        j = j + 1;
    }
    finish(state, &change.old_view)
}

/// Ends a change of our view.
fn finish(state: &mut ProtocolState, old_view: &RelayView) -> (next: (Task, Action))
    requires
        old(state)@.well_formed(),
    ensures
        finishes(old(state)@, old_view@, final(state)@, next.0, next.1),
        final(state)@.well_formed(),
        next.0.well_formed(final(state)@),
{
    let removed = old_view.difference(&state.view);
    state.forget_relay_parents(&removed);
    assert(state@.per_relay_parent == old(state)@.per_relay_parent);
    (Task::Receiving, Action::Receive)
}

/// Looks up the live candidates at the added heads from `at` on.
pub fn query_cores(state: &mut ProtocolState, change: ViewChange, at: usize) -> (next: (
    Task,
    Action,
))
    requires
        old(state)@.well_formed(),
        at <= change.added.len(),
    ensures
        queries_cores(
            old(state)@,
            change.old_view@,
            change.added@,
            at as int,
            final(state)@,
            next.0,
            next.1,
        ),
        final(state)@.well_formed(),
        next.0.well_formed(final(state)@),
{
    if at < change.added.len() {
        let head = change.added[at];
        (Task::QueryingCores { change, at }, Action::QueryAvailabilityCores(head))
    } else {
        let todo = state.cached_relay_parents_to_live_candidates_unioned(&change.added);
        assert(todo_of(todo).well_formed());
        distribute(state, change, todo, 0)
    }
}

/// Looks up the candidates of the parachains from `next` on at an added head.
pub fn query_pending(
    state: &mut ProtocolState,
    change: ViewChange,
    at: usize,
    paras: Vec<ParaId>,
    next: usize,
    live: VecSet<CommittedCandidateReceipt>,
) -> (following: (Task, Action))
    requires
        old(state)@.well_formed(),
        at < change.added.len(),
        next <= paras.len(),
    ensures
        queries_pending(
            old(state)@,
            change.old_view@,
            change.added@,
            at as int,
            paras@,
            next as int,
            live@,
            final(state)@,
            following.0,
            following.1,
        ),
        final(state)@.well_formed(),
        following.0.well_formed(final(state)@),
{
    let head = change.added[at];
    if next < paras.len() {
        let para = paras[next];
        (
            Task::QueryingPending { change, at, paras, next, live },
            Action::QueryCandidatePendingAvailability(head, para),
        )
    } else {
        state.record_live_candidates(head, live);
        query_cores(state, change, at + 1)
    }
}

/// Handles a change of our view.
pub fn handle_our_view_change(state: &mut ProtocolState, view: RelayView) -> (next: (Task, Action))
    requires
        old(state)@.well_formed(),
    ensures
        our_view_changes(old(state)@, view@, final(state)@, next.0, next.1),
        final(state)@.well_formed(),
        next.0.well_formed(final(state)@),
{
    let mut old_view = view;
    std::mem::swap(&mut old_view, &mut state.view);
    assert(state@ == (StateModel { view: view@, ..old(state)@ }));
    assert(state@.per_relay_parent == old(state)@.per_relay_parent);
    let added = state.view.difference(&old_view);
    query_cores(state, ViewChange { old_view, added }, 0)
}

/// Goes on with the availability cores of an added head: the parachains on the
/// occupied cores are asked for one by one.
pub fn receive_cores(
    state: &mut ProtocolState,
    change: ViewChange,
    at: usize,
    cores: Vec<CoreState>,
) -> (next: (Task, Action))
    requires
        old(state)@.well_formed(),
        at < change.added.len(),
    ensures
        queries_pending(
            old(state)@,
            change.old_view@,
            change.added@,
            at as int,
            occupied(cores@),
            0,
            Set::empty(),
            final(state)@,
            next.0,
            next.1,
        ),
        final(state)@.well_formed(),
        next.0.well_formed(final(state)@),
{
    let paras = occupied_para_ids(&cores);
    query_pending(state, change, at, paras, 0, VecSet::new())
}

/// The live candidates with one more, if there is one.
pub open spec fn with_candidate(
    live: Set<CommittedCandidateReceipt>,
    candidate: Option<CommittedCandidateReceipt>,
) -> Set<CommittedCandidateReceipt> {
    match candidate {
        Some(receipt) => live.insert(receipt),
        None => live,
    }
}

/// Goes on with the candidate of a parachain at an added head.
pub fn receive_pending(
    state: &mut ProtocolState,
    change: ViewChange,
    at: usize,
    paras: Vec<ParaId>,
    next: usize,
    live: VecSet<CommittedCandidateReceipt>,
    candidate: Option<CommittedCandidateReceipt>,
) -> (following: (Task, Action))
    requires
        old(state)@.well_formed(),
        at < change.added.len(),
        next < paras.len(),
    ensures
        queries_pending(
            old(state)@,
            change.old_view@,
            change.added@,
            at as int,
            paras@,
            next + 1,
            with_candidate(live@, candidate),
            final(state)@,
            following.0,
            following.1,
        ),
        final(state)@.well_formed(),
        following.0.well_formed(final(state)@),
{
    let mut live = live;
    if let Some(receipt) = candidate {
        live.insert(receipt);
    }
    query_pending(state, change, at, paras, next + 1, live)
}

/// The head of the candidate's parachain is looked up.
pub open spec fn asks_head(work: Distribution, pov: PoV, task: Task, action: Action) -> bool {
    &&& task matches Task::QueryingHeadData { work: w, pov: p } && w == work && p == pov
    &&& action matches Action::QueryHeadData(head, para) && head == work.relay_parent() && para
        == work.todo@[work.candidate()].descriptor.para_id
}

/// Goes on with the proof of validity of a candidate; without one, the next
/// candidate is worked on.
pub fn receive_pov(state: &mut ProtocolState, work: Distribution, pov: Option<PoV>) -> (next: (
    Task,
    Action,
))
    requires
        old(state)@.well_formed(),
        work.well_formed(old(state)@),
    ensures
        match pov {
            Some(pov) => *final(state) == *old(state) && asks_head(work, pov, next.0, next.1),
            None => distributes(
                old(state)@,
                work.change.old_view@,
                work.change.added@,
                todo_of(work.todo),
                work.at + 1,
                final(state)@,
                next.0,
                next.1,
            ),
        },
        final(state)@.well_formed(),
        next.0.well_formed(final(state)@),
{
    match pov {
        Some(pov) => {
            let descriptor = work.todo.value_at(work.at).descriptor;
            let action = Action::QueryHeadData(descriptor.relay_parent, descriptor.para_id);
            (Task::QueryingHeadData { work, pov }, action)
        },
        None => distribute_next(state, work),
    }
}

/// The data of the candidate is erasure coded for the validators of its relay
/// parent.
pub open spec fn asks_chunks(
    state: StateModel,
    work: Distribution,
    pov: PoV,
    task: Task,
    action: Action,
) -> bool {
    &&& task matches Task::Encoding { work: w } && w == work
    &&& action matches Action::ObtainChunks(n, data) && n
        == state.per_relay_parent[work.relay_parent()].validators.len() && data.pov == pov
        && data.omitted_validation.global_validation.is_default()
        && data.omitted_validation.local_validation.is_default()
}

/// Goes on once the head of the candidate's parachain is there.
pub fn receive_head_data(state: &ProtocolState, work: Distribution, pov: PoV) -> (next: (
    Task,
    Action,
))
    requires
        work.well_formed(state@),
    ensures
        asks_chunks(state@, work, pov, next.0, next.1),
        next.0.well_formed(state@),
{
    let relay_parent = work.todo.value_at(work.at).descriptor.relay_parent;
    let omitted_validation = query_omitted_validation_data(relay_parent);
    let n: usize = match state.per_relay_parent.get(&relay_parent) {
        Some(known) => known.validators.len(),
        None => 0,
    };
    let data = AvailableData { pov, omitted_validation };
    (Task::Encoding { work }, Action::ObtainChunks(n, data))
}

/// Works through the candidates after the one that is worked on.
fn distribute_next(state: &mut ProtocolState, work: Distribution) -> (next: (Task, Action))
    requires
        old(state)@.well_formed(),
        work.at < work.todo.order().len(),
    ensures
        distributes(
            old(state)@,
            work.change.old_view@,
            work.change.added@,
            todo_of(work.todo),
            work.at + 1,
            final(state)@,
            next.0,
            next.1,
        ),
        final(state)@.well_formed(),
        next.0.well_formed(final(state)@),
{
    let n: usize = work.todo.len();
    assert(work.at < n);
    distribute(state, work.change, work.todo, work.at + 1)
}

/// The chunks that are made of branches.
fn make_chunks(branches: &Vec<(Vec<Vec<u8>>, Vec<u8>)>) -> (chunks: Vec<ErasureChunk>)
    requires
        branches_encodable(branches@),
    ensures
        chunk_models(chunks@) == our_chunks(branches@),
        all_encodable(chunks@),
        numbered(chunks@),
{
    let mut chunks: Vec<ErasureChunk> = Vec::new();
    let mut i: usize = 0;
    while i < branches.len()
        invariant
            i <= branches.len(),
            chunks.len() == i,
            branches_encodable(branches@),
            all_encodable(chunks@),
            forall|j: int|
                0 <= j < i ==> (#[trigger] chunks[j])@ == our_chunk(
                    branches[j],
                    j as ValidatorIndex,
                ),
        decreases branches.len() - i,
    {
        let branch = &branches[i];
        chunks.push(
            ErasureChunk {
                chunk: copy_bytes(&branch.1),
                index: i as ValidatorIndex,
                proof: copy_strings(&branch.0),
            },
        );
        i = i + 1;
    }
    assert(chunk_models(chunks@) =~= our_chunks(branches@));
    chunks
}

/// Goes on with the branches of a candidate's erasure chunks.
pub fn receive_chunks(
    state: &mut ProtocolState,
    work: Distribution,
    branches: Option<Vec<(Vec<Vec<u8>>, Vec<u8>)>>,
) -> (next: (Task, Action))
    requires
        old(state)@.well_formed(),
        work.well_formed(old(state)@),
        branches matches Some(b) ==> branches_encodable(b@),
    ensures
        stores_chunk(old(state)@, work, branches, final(state)@, next.0, next.1),
        final(state)@.well_formed(),
        next.0.well_formed(final(state)@),
{
    match branches {
        Some(branches) => {
            let chunks = make_chunks(&branches);
            assert(chunk_models(chunks@).len() == our_chunks(branches@).len());
            let index: usize = work.validator_index as usize;
            if index < chunks.len() {
                assert(chunk_models(chunks@)[index as int] == our_chunk(
                    branches[index as int],
                    work.validator_index,
                ));
                let chunk = chunks[index].duplicate();
                let hash = *work.todo.key_at(work.at);
                let validator_index = work.validator_index;
                (
                    Task::Storing { work, chunks },
                    Action::StoreChunk(hash, validator_index, chunk),
                )
            } else {
                finish(state, &work.change.old_view)
            }
        },
        None => finish(state, &work.change.old_view),
    }
}

/// Sends the chunks from `k` on.
pub fn send_chunk(
    state: &mut ProtocolState,
    work: Distribution,
    peers: Vec<PeerId>,
    chunks: Vec<ErasureChunk>,
    k: usize,
) -> (next: (Task, Action))
    requires
        old(state)@.well_formed(),
        work.well_formed(old(state)@),
        all_encodable(chunks@),
        numbered(chunks@),
        k <= chunks.len(),
        lists(peer_keys(peers@), old(state)@.interested(work.relay_parent())),
    ensures
        sends_chunk(
            old(state)@,
            work,
            chunk_models(chunks@),
            k as int,
            final(state)@,
            next.0,
            next.1,
        ),
        final(state)@.well_formed(),
        next.0.well_formed(final(state)@),
{
    if k >= chunks.len() {
        return distribute_next(state, work);
    }
    let relay_parent = work.todo.value_at(work.at).descriptor.relay_parent;
    let candidate_hash = *work.todo.key_at(work.at);
    let message = AvailabilityGossipMessage {
        candidate_hash,
        erasure_chunk: chunks[k].duplicate(),
    };
    match state.per_relay_parent.remove(&relay_parent) {
        Some(known) => {
            let mut known = known;
            let targets = known.unsent(&peers, message.id());
            assert(lists(
                peer_keys(targets@),
                old(state)@.audience(relay_parent, message@.id()),
            ));
            let bytes = known.track(&targets, message);
            state.per_relay_parent.insert(relay_parent, known);
            assert(state@.per_relay_parent =~= old(state)@.per_relay_parent.insert(
                relay_parent,
                known@,
            ));
            (
                Task::Distributing { work, peers, chunks, sent: k },
                Action::SendMessage(targets, PROTOCOL_ID, bytes),
            )
        },
        None => (Task::Receiving, Action::Receive),
    }
}

/// Goes on once our own chunk was given to the store, whether it was stored or
/// not: the chunks are sent to the interested peers.
pub fn receive_stored(
    state: &mut ProtocolState,
    work: Distribution,
    chunks: Vec<ErasureChunk>,
) -> (next: (Task, Action))
    requires
        old(state)@.well_formed(),
        work.well_formed(old(state)@),
        all_encodable(chunks@),
        numbered(chunks@),
    ensures
        sends_chunk(
            old(state)@,
            work,
            chunk_models(chunks@),
            0,
            final(state)@,
            next.0,
            next.1,
        ),
        final(state)@.well_formed(),
        next.0.well_formed(final(state)@),
{
    let relay_parent = work.todo.value_at(work.at).descriptor.relay_parent;
    let peers = state.interested_peers(&relay_parent);
    send_chunk(state, work, peers, chunks, 0)
}

} // verus!
