//! The subsystem: it starts with its registration, then takes one message of
//! the overseer after the other. Whatever it wants done in between it hands out
//! as an action, and goes on with the reply.

use vstd::prelude::*;

use crate::incoming::{
    checks_message, gossip, gossips, judges_message, modify_reputation,
    process_incoming_peer_message, receive_branch_hash,
};
use crate::message::{
    AvailabilityGossipMessage, MessageModel, branch_encodable, byte_strings, decoded_as,
    is_chunk_hash, optional_model,
};
use crate::our_view::{
    asks_chunks, asks_head, chunk_models, distributes, handle_our_view_change, our_view_changes,
    queries_pending, receive_chunks, receive_cores, receive_head_data, receive_pending, receive_pov,
    receive_stored, send_chunk, sends_chunk, stores_chunk, with_candidate,
};
use crate::peer_view::{
    continue_catching_up, continues_catching_up, handle_peer_view_change, peer_view_changes,
};
use crate::primitives::{
    H256, PeerId, RelayView, ValidatorId, obtain_our_validator_index, occupied, our_validator_index,
};
use crate::protocol::{
    Action, AvailabilityDistributionMessage, Exit, FromOverseer, NetworkBridgeEvent, OverseerSignal,
    PROTOCOL_ID, Reply, Task, branches_encodable, idle, reporting, todo_of,
};
use crate::reputation::ReputationChange;
use crate::state::{PerRelayParent, ProtocolState, RelayParentModel, StateModel, message_models};

verus! {

/// A message from a peer was decoded, or could not be.
pub open spec fn receives_message(
    pre: StateModel,
    remote: Seq<u8>,
    decoded: Option<MessageModel>,
    post: StateModel,
    task: Task,
    action: Action,
) -> bool {
    match decoded {
        Some(message) => checks_message(pre, remote, message, post, task, action),
        None => {
            &&& post == pre
            &&& reporting(remote, ReputationChange::CostMessageNotDecodable, task, action)
        },
    }
}

/// An update from the network bridge is dealt with.
pub open spec fn network_updates(
    pre: StateModel,
    event: NetworkBridgeEvent,
    post: StateModel,
    task: Task,
    action: Action,
) -> bool {
    match event {
        NetworkBridgeEvent::PeerConnected(peer, role) => {
            &&& post == if pre.peer_views.contains_key(peer@) {
                pre
            } else {
                pre.with_peer_view(peer@, Seq::empty())
            }
            &&& idle(task, action)
        },
        NetworkBridgeEvent::PeerDisconnected(peer) => {
            &&& post == (StateModel { peer_views: pre.peer_views.remove(peer@), ..pre })
            &&& idle(task, action)
        },
        NetworkBridgeEvent::PeerViewChange(peer, view) => peer_view_changes(
            pre,
            peer@,
            view@,
            post,
            task,
            action,
        ),
        NetworkBridgeEvent::OurViewChange(view) => our_view_changes(pre, view@, post, task, action),
        NetworkBridgeEvent::PeerMessage(remote, bytes) => exists|decoded: Option<MessageModel>|
            decoded_as(bytes@, decoded) && #[trigger] receives_message(
                pre,
                remote@,
                decoded,
                post,
                task,
                action,
            ),
    }
}

/// The validators are asked for at the activated heads from `at` on; each head
/// is worked on from then.
pub open spec fn activates(
    pre: StateModel,
    activated: Seq<H256>,
    at: int,
    post: StateModel,
    task: Task,
    action: Action,
) -> bool {
    if at < activated.len() {
        &&& post == pre.with_relay_parent(activated[at], pre.relay_parent_or_fresh(activated[at]))
        &&& task matches Task::Activating { activated: heads, at: a } && heads@ == activated && a
            == at
        &&& action matches Action::QueryValidators(head) && head == activated[at]
    } else {
        post == pre && idle(task, action)
    }
}

/// A relay parent with its validators, and our index among them.
pub open spec fn with_validators(
    known: RelayParentModel,
    validators: Seq<ValidatorId>,
    keys: Seq<ValidatorId>,
) -> RelayParentModel {
    RelayParentModel {
        validators,
        validator_index: our_validator_index(validators, keys),
        ..known
    }
}

/// A message of the overseer is dealt with.
pub open spec fn overseer_tells(
    pre: StateModel,
    message: FromOverseer,
    post: StateModel,
    task: Task,
    action: Action,
) -> bool {
    match message {
        FromOverseer::Communication(
            AvailabilityDistributionMessage::NetworkBridgeUpdate(event),
        ) => network_updates(pre, event, post, task, action),
        FromOverseer::Signal(OverseerSignal::ActiveLeaves(update)) => activates(
            pre,
            update.activated@,
            0,
            post,
            task,
            action,
        ),
        FromOverseer::Signal(OverseerSignal::Conclude) => post == pre && stops(
            Exit::Concluded,
            task,
            action,
        ),
        _ => post == pre && idle(task, action),
    }
}

/// Whether the subsystem ends.
pub open spec fn stops(exit: Exit, task: Task, action: Action) -> bool {
    &&& task is Stopped
    &&& action matches Action::Stop(e) && e == exit
}

/// One step of the subsystem: from a state, what is waited for and a reply to
/// it, to the next state, what is waited for then, and the action to take.
pub open spec fn transition(
    pre: StateModel,
    waiting: Task,
    reply: Reply,
    post: StateModel,
    task: Task,
    action: Action,
) -> bool {
    match (waiting, reply) {
        // The overseer cannot be reached at the start, for a message, or for
        // the validators of an activated head.
        (Task::Registering, Reply::Failed) => post == pre && stops(Exit::Failed, task, action),
        (Task::Receiving, Reply::Failed) => post == pre && stops(Exit::Failed, task, action),
        (Task::Activating { activated, at }, Reply::Failed) => post == pre && stops(
            Exit::Failed,
            task,
            action,
        ),
        (Task::Registering, _) => post == pre && idle(task, action),
        (Task::Receiving, Reply::Received(message)) => overseer_tells(
            pre,
            message,
            post,
            task,
            action,
        ),
        (Task::Activating { activated, at }, Reply::Validators(validators, keys)) => {
            let head = activated[at as int];
            activates(
                pre.with_relay_parent(
                    head,
                    with_validators(pre.per_relay_parent[head], validators@, keys@),
                ),
                activated@,
                at + 1,
                post,
                task,
                action,
            )
        },
        (Task::QueryingCores { change, at }, Reply::AvailabilityCores(cores)) => queries_pending(
            pre,
            change.old_view@,
            change.added@,
            at as int,
            occupied(cores@),
            0,
            Set::empty(),
            post,
            task,
            action,
        ),
        (
            Task::QueryingPending { change, at, paras, next, live },
            Reply::CandidatePendingAvailability(candidate),
        ) => queries_pending(
            pre,
            change.old_view@,
            change.added@,
            at as int,
            paras@,
            next + 1,
            with_candidate(live@, candidate),
            post,
            task,
            action,
        ),
        (Task::QueryingPoV { work }, Reply::PoV(Some(pov))) => post == pre && asks_head(
            work,
            pov,
            task,
            action,
        ),
        (Task::QueryingPoV { work }, Reply::PoV(None)) => distributes(
            pre,
            work.change.old_view@,
            work.change.added@,
            todo_of(work.todo),
            work.at + 1,
            post,
            task,
            action,
        ),
        (Task::QueryingHeadData { work, pov }, Reply::HeadData(head)) => post == pre
            && asks_chunks(pre, work, pov, task, action),
        (Task::Encoding { work }, Reply::Chunks(branches)) => stores_chunk(
            pre,
            work,
            branches,
            post,
            task,
            action,
        ),
        (Task::Storing { work, chunks }, _) => sends_chunk(
            pre,
            work,
            chunk_models(chunks@),
            0,
            post,
            task,
            action,
        ),
        (Task::Distributing { work, peers, chunks, sent }, Reply::Sent) => sends_chunk(
            pre,
            work,
            chunk_models(chunks@),
            sent + 1,
            post,
            task,
            action,
        ),
        (Task::CatchingUp { origin, todo, at, messages, sent }, Reply::Sent) =>
            continues_catching_up(
            pre,
            origin@,
            todo_of(todo),
            at as int,
            message_models(messages@),
            sent as int,
            post,
            task,
            action,
        ),
        (
            Task::CheckingBranch { origin, message, relay_parent },
            Reply::BranchHash(anticipated),
        ) => exists|chunk_hash: H256|
            is_chunk_hash(chunk_hash, message@.erasure_chunk.chunk) && #[trigger] judges_message(
                pre,
                origin@,
                message@,
                relay_parent,
                anticipated,
                chunk_hash,
                post,
                task,
                action,
            ),
        (Task::Rewarding { origin, message, relay_parent }, Reply::Sent) => gossips(
            pre,
            origin@,
            message@,
            relay_parent,
            post,
            task,
            action,
        ),
        // The last message was sent, or the handling of an update has failed
        // and is left where it stands.
        _ => post == pre && idle(task, action),
    }
}

/// Goes on with a decoded message from a peer.
pub fn receive_message(
    state: &ProtocolState,
    remote: PeerId,
    decoded: Option<AvailabilityGossipMessage>,
) -> (next: (Task, Action))
    requires
        decoded matches Some(message) ==> message@.encodable(),
    ensures
        receives_message(
            state@,
            remote@,
            optional_model(decoded),
            state@,
            next.0,
            next.1,
        ),
        next.0.well_formed(state@),
{
    match decoded {
        Some(message) => process_incoming_peer_message(state, remote, message),
        None => modify_reputation(remote, ReputationChange::CostMessageNotDecodable),
    }
}

/// Deals with an update from the network bridge.
pub fn handle_network_msg(state: &mut ProtocolState, event: NetworkBridgeEvent) -> (next: (
    Task,
    Action,
))
    requires
        old(state)@.well_formed(),
    ensures
        network_updates(old(state)@, event, final(state)@, next.0, next.1),
        final(state)@.well_formed(),
        next.0.well_formed(final(state)@),
{
    match event {
        NetworkBridgeEvent::PeerConnected(peer, _) => {
            if !state.peer_views.contains_key(&peer) {
                state.peer_views.insert(peer, RelayView::empty());
                assert(state@ == old(state)@.with_peer_view(peer@, Seq::empty()));
                assert(state@.per_relay_parent == old(state)@.per_relay_parent);
            }
            (Task::Receiving, Action::Receive)
        },
        NetworkBridgeEvent::PeerDisconnected(peer) => {
            state.peer_views.remove(&peer);
            assert(state@.per_relay_parent == old(state)@.per_relay_parent);
            (Task::Receiving, Action::Receive)
        },
        NetworkBridgeEvent::PeerViewChange(peer, view) => handle_peer_view_change(
            state,
            peer,
            view,
        ),
        NetworkBridgeEvent::OurViewChange(view) => handle_our_view_change(state, view),
        NetworkBridgeEvent::PeerMessage(remote, bytes) => {
            let decoded = AvailabilityGossipMessage::decode(&bytes);
            receive_message(state, remote, decoded)
        },
    }
}

/// Asks for the validators at the activated heads from `at` on.
pub fn activate(state: &mut ProtocolState, activated: Vec<H256>, at: usize) -> (next: (
    Task,
    Action,
))
    requires
        old(state)@.well_formed(),
        at <= activated.len(),
    ensures
        activates(old(state)@, activated@, at as int, final(state)@, next.0, next.1),
        final(state)@.well_formed(),
        next.0.well_formed(final(state)@),
{
    if at < activated.len() {
        let head = activated[at];
        if !state.per_relay_parent.contains_key(&head) {
            state.per_relay_parent.insert(head, PerRelayParent::new());
        }
        assert(state@.per_relay_parent =~= old(state)@.with_relay_parent(
            head,
            old(state)@.relay_parent_or_fresh(head),
        ).per_relay_parent);
        (Task::Activating { activated, at }, Action::QueryValidators(head))
    } else {
        (Task::Receiving, Action::Receive)
    }
}

/// Goes on with the validators at an activated head, and the keys that this
/// node can sign with.
pub fn receive_validators(
    state: &mut ProtocolState,
    activated: Vec<H256>,
    at: usize,
    validators: Vec<ValidatorId>,
    keys: Vec<ValidatorId>,
) -> (next: (Task, Action))
    requires
        old(state)@.well_formed(),
        at < activated.len(),
        old(state)@.per_relay_parent.contains_key(activated[at as int]),
    ensures
        activates(
            old(state)@.with_relay_parent(
                activated[at as int],
                with_validators(
                    old(state)@.per_relay_parent[activated[at as int]],
                    validators@,
                    keys@,
                ),
            ),
            activated@,
            at + 1,
            final(state)@,
            next.0,
            next.1,
        ),
        final(state)@.well_formed(),
        next.0.well_formed(final(state)@),
{
    let head = activated[at];
    if let Some(known) = state.per_relay_parent.remove(&head) {
        let mut known = known;
        known.validator_index = obtain_our_validator_index(&validators, &keys);
        known.validators = validators;
        state.per_relay_parent.insert(head, known);
        assert(state@.per_relay_parent =~= old(state)@.per_relay_parent.insert(head, known@));
    }
    activate(state, activated, at + 1)
}

/// Deals with a message of the overseer.
pub fn handle_overseer(state: &mut ProtocolState, message: FromOverseer) -> (next: (Task, Action))
    requires
        old(state)@.well_formed(),
    ensures
        overseer_tells(old(state)@, message, final(state)@, next.0, next.1),
        final(state)@.well_formed(),
        next.0.well_formed(final(state)@),
{
    match message {
        FromOverseer::Communication(
            AvailabilityDistributionMessage::NetworkBridgeUpdate(event),
        ) => handle_network_msg(state, event),
        FromOverseer::Signal(OverseerSignal::ActiveLeaves(update)) => activate(
            state,
            update.activated,
            0,
        ),
        FromOverseer::Signal(OverseerSignal::Conclude) => (
            Task::Stopped,
            Action::Stop(Exit::Concluded),
        ),
        _ => (Task::Receiving, Action::Receive),
    }
}

/// Whether a branch and its chunk can go over the wire.
fn is_branch_encodable(nodes: &Vec<Vec<u8>>, chunk: &Vec<u8>) -> (fits: bool)
    ensures
        fits == branch_encodable(byte_strings(nodes@), chunk@),
{
    let limit: u64 = u32::MAX as u64;
    if chunk.len() as u64 > limit || nodes.len() as u64 > limit {
        return false;
    }
    let mut i: usize = 0;
    while i < nodes.len()
        invariant
            i <= nodes.len(),
            limit == u32::MAX,
            forall|j: int|
                0 <= j < i ==> (#[trigger] byte_strings(nodes@)[j]).len() <= u32::MAX,
        decreases nodes.len() - i,
    {
        assert(byte_strings(nodes@)[i as int] == nodes[i as int]@);
        if nodes[i].len() as u64 > limit {
            return false;
        }
        i = i + 1;
    }
    true
}

/// Whether each branch and its chunk can go over the wire.
fn are_branches_encodable(branches: &Vec<(Vec<Vec<u8>>, Vec<u8>)>) -> (fit: bool)
    ensures
        fit == branches_encodable(branches@),
{
    let mut i: usize = 0;
    while i < branches.len()
        invariant
            i <= branches.len(),
            forall|j: int|
                0 <= j < i ==> branch_encodable(
                    byte_strings((#[trigger] branches[j]).0@),
                    branches[j].1@,
                ),
        decreases branches.len() - i,
    {
        if !is_branch_encodable(&branches[i].0, &branches[i].1) {
            assert(!branch_encodable(
                byte_strings(branches@[i as int].0@),
                branches@[i as int].1@,
            ));
            return false;
        }
        i = i + 1;
    }
    true
}

/// The availability distribution subsystem.
pub struct AvailabilityDistributionSubsystem {
    /// What the protocol keeps track of.
    pub state: ProtocolState,
    /// What the subsystem waits for.
    pub task: Task,
}

impl AvailabilityDistributionSubsystem {
    /// What holds whenever the subsystem waits.
    pub open spec fn well_formed(self) -> bool {
        &&& self.state@.well_formed()
        &&& self.task.well_formed(self.state@)
    }

    /// A subsystem that knows of nothing and waits for its registration.
    pub fn new() -> (subsystem: AvailabilityDistributionSubsystem)
        ensures
            subsystem.well_formed(),
            subsystem.task is Registering,
            subsystem.state@ == StateModel::initial(),
    {
        AvailabilityDistributionSubsystem { state: ProtocolState::new(), task: Task::Registering }
    }

    /// The first action: the registration with the network bridge.
    pub fn start(&self) -> (action: Action)
        ensures
            action matches Action::RegisterEventProducer(protocol) && protocol == PROTOCOL_ID,
    {
        Action::RegisterEventProducer(PROTOCOL_ID)
    }

    /// Whether a reply is one to what the subsystem waits for.
    pub fn accepts(&self, reply: &Reply) -> (accepted: bool)
        ensures
            accepted == self.task.accepts(*reply),
    {
        match (&self.task, reply) {
            (Task::Stopped, _) => false,
            (Task::CheckingBranch { origin: _, message: _, relay_parent: _ }, Reply::BranchHash(_)) => true,
            (Task::Encoding { work: _ }, Reply::Chunks(Some(branches))) => are_branches_encodable(
                branches,
            ),
            (Task::Encoding { work: _ }, Reply::Chunks(None)) => true,
            (Task::CheckingBranch { origin: _, message: _, relay_parent: _ }, _) => false,
            (Task::Encoding { work: _ }, _) => false,
            (_, Reply::Failed) => true,
            (Task::Receiving, Reply::Received(_)) => true,
            (Task::Activating { activated: _, at: _ }, Reply::Validators(_, _)) => true,
            (Task::QueryingCores { change: _, at: _ }, Reply::AvailabilityCores(_)) => true,
            (
                Task::QueryingPending { change: _, at: _, paras: _, next: _, live: _ },
                Reply::CandidatePendingAvailability(_),
            ) => true,
            (Task::QueryingPoV { work: _ }, Reply::PoV(_)) => true,
            (Task::QueryingHeadData { work: _, pov: _ }, Reply::HeadData(_)) => true,
            (Task::Storing { work: _, chunks: _ }, Reply::Stored(_)) => true,
            (Task::Registering, Reply::Sent) => true,
            (Task::Distributing { work: _, peers: _, chunks: _, sent: _ }, Reply::Sent) => true,
            (
                Task::CatchingUp { origin: _, todo: _, at: _, messages: _, sent: _ },
                Reply::Sent,
            ) => true,
            (Task::Rewarding { origin: _, message: _, relay_parent: _ }, Reply::Sent) => true,
            (Task::Closing, Reply::Sent) => true,
            _ => false,
        }
    }

    /// Goes on with the reply to the last action, and returns the next action.
    pub fn step(&mut self, reply: Reply) -> (action: Action)
        requires
            old(self).well_formed(),
            old(self).task.accepts(reply),
        ensures
            transition(
                old(self).state@,
                old(self).task,
                reply,
                final(self).state@,
                final(self).task,
                action,
            ),
            final(self).well_formed(),
    {
        let mut task = Task::Stopped;
        std::mem::swap(&mut task, &mut self.task);
        let state = &mut self.state;
        let next = match (task, reply) {
            (Task::Registering, Reply::Failed) => (Task::Stopped, Action::Stop(Exit::Failed)),
            (Task::Receiving, Reply::Failed) => (Task::Stopped, Action::Stop(Exit::Failed)),
            (Task::Activating { activated: _, at: _ }, Reply::Failed) => (
                Task::Stopped,
                Action::Stop(Exit::Failed),
            ),
            (Task::Receiving, Reply::Received(message)) => handle_overseer(state, message),
            (Task::Activating { activated, at }, Reply::Validators(validators, keys)) =>
                receive_validators(state, activated, at, validators, keys),
            (Task::QueryingCores { change, at }, Reply::AvailabilityCores(cores)) => receive_cores(
                state,
                change,
                at,
                cores,
            ),
            (
                Task::QueryingPending { change, at, paras, next, live },
                Reply::CandidatePendingAvailability(candidate),
            ) => receive_pending(state, change, at, paras, next, live, candidate),
            (Task::QueryingPoV { work }, Reply::PoV(pov)) => receive_pov(state, work, pov),
            (Task::QueryingHeadData { work, pov }, Reply::HeadData(_)) => receive_head_data(
                state,
                work,
                pov,
            ),
            (Task::Encoding { work }, Reply::Chunks(branches)) => receive_chunks(
                state,
                work,
                branches,
            ),
            (Task::Storing { work, chunks }, _) => receive_stored(state, work, chunks),
            (Task::Distributing { work, peers, chunks, sent }, Reply::Sent) => send_chunk(
                state,
                work,
                peers,
                chunks,
                sent + 1,
            ),
            (Task::CatchingUp { origin, todo, at, messages, sent }, Reply::Sent) =>
                continue_catching_up(state, origin, todo, at, messages, sent),
            (
                Task::CheckingBranch { origin, message, relay_parent },
                Reply::BranchHash(anticipated),
            ) => receive_branch_hash(state, origin, message, relay_parent, anticipated),
            (Task::Rewarding { origin, message, relay_parent }, Reply::Sent) => gossip(
                state,
                origin,
                message,
                relay_parent,
            ),
            _ => (Task::Receiving, Action::Receive),
        };
        self.task = next.0;
        next.1
    }
}

} // verus!
