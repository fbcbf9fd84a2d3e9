//! The messages between the protocol and the rest of the node, and the points
//! at which the protocol waits for one of them.

use vstd::prelude::*;

use crate::collections::{VecMap, VecSet};
use crate::message::{
    AvailabilityGossipMessage, ErasureChunk, MessageModel, branch_encodable, byte_strings,
};
use crate::primitives::{
    AvailableData, CommittedCandidateReceipt, CoreState, H256, HeadData, ParaId, PeerId, PoV,
    RelayView, ValidatorId, ValidatorIndex, peer_keys,
};
use crate::reputation::ReputationChange;
use crate::state::{RelayParentModel, StateModel, lists, message_models};

verus! {

/// The identifier of the protocol on the network: `avad`.
pub const PROTOCOL_ID: [u8; 4] = [0x61, 0x76, 0x61, 0x64];

/// The role that a peer plays in the network.
#[derive(Clone, Copy, Debug, PartialEq, Eq)]
pub enum ObservedRole {
    Full,
    Light,
    Authority,
}

/// What the network bridge tells.
#[derive(Debug)]
pub enum NetworkBridgeEvent {
    /// A peer has connected.
    PeerConnected(PeerId, ObservedRole),
    /// A peer has disconnected.
    PeerDisconnected(PeerId),
    /// A peer has changed its view.
    PeerViewChange(PeerId, RelayView),
    /// Our own view has changed.
    OurViewChange(RelayView),
    /// A peer has sent a message.
    PeerMessage(PeerId, Vec<u8>),
}

/// The messages that the subsystem understands.
#[derive(Debug)]
pub enum AvailabilityDistributionMessage {
    /// An update from the network bridge.
    NetworkBridgeUpdate(NetworkBridgeEvent),
    /// A chunk of a candidate is to be distributed.
    DistributeChunk(H256, ErasureChunk),
    /// A chunk of a candidate is to be fetched.
    FetchChunk(H256, ValidatorIndex),
}

/// The relay chain heads that become active and that cease to be.
#[derive(Debug)]
pub struct ActiveLeavesUpdate {
    pub activated: Vec<H256>,
    pub deactivated: Vec<H256>,
}

/// The signals of the overseer.
#[derive(Debug)]
pub enum OverseerSignal {
    /// The active leaves have changed.
    ActiveLeaves(ActiveLeavesUpdate),
    /// A block was finalized.
    BlockFinalized(H256),
    /// The subsystem is to end.
    Conclude,
}

/// What comes from the overseer.
#[derive(Debug)]
pub enum FromOverseer {
    Signal(OverseerSignal),
    Communication(AvailabilityDistributionMessage),
}

/// Why the subsystem ends.
#[derive(Clone, Copy, Debug, PartialEq, Eq)]
pub enum Exit {
    /// The overseer has asked for it.
    Concluded,
    /// The overseer, or what it was asked, could not be reached.
    Failed,
    /// A candidate of our view has a relay parent on which work was never
    /// started, though view updates come after the start of work.
    MissingRelayParent,
}

/// What the subsystem wants done next.
#[derive(Debug)]
pub enum Action {
    /// Receive the next message of the overseer.
    Receive,
    /// Register with the network bridge, under the given protocol.
    RegisterEventProducer([u8; 4]),
    /// Report a peer to the network bridge.
    ReportPeer(PeerId, ReputationChange),
    /// Send bytes to peers, under the given protocol.
    SendMessage(Vec<PeerId>, [u8; 4], Vec<u8>),
    /// Ask for the validator set at a relay parent, and for the keys of it that
    /// this node can sign with.
    QueryValidators(H256),
    /// Ask for the availability cores at a relay parent.
    QueryAvailabilityCores(H256),
    /// Ask for the candidate of a parachain that is pending availability at a
    /// relay parent.
    QueryCandidatePendingAvailability(H256, ParaId),
    /// Ask for the head of a parachain at a relay parent.
    QueryHeadData(H256, ParaId),
    /// Ask for the proof of validity of a candidate.
    QueryPoV(H256),
    /// Store a chunk of a candidate, under the given index.
    StoreChunk(H256, ValidatorIndex, ErasureChunk),
    /// Erasure code the data for the given number of validators and take the
    /// branch of each chunk.
    ObtainChunks(usize, AvailableData),
    /// Work out the hash that a branch proves for the chunk at an index, below
    /// a root.
    BranchHash(H256, Vec<Vec<u8>>, usize),
    /// End.
    Stop(Exit),
}

/// How an action came out.
#[derive(Debug)]
pub enum Reply {
    /// The message was received.
    Received(FromOverseer),
    /// The message was sent.
    Sent,
    /// The validator set, and the keys that this node can sign with.
    Validators(Vec<ValidatorId>, Vec<ValidatorId>),
    /// The availability cores.
    AvailabilityCores(Vec<CoreState>),
    /// The candidate that is pending availability, if there is one.
    CandidatePendingAvailability(Option<CommittedCandidateReceipt>),
    /// The head of the parachain.
    HeadData(HeadData),
    /// The proof of validity, if it is there.
    PoV(Option<PoV>),
    /// Whether the chunk was stored.
    Stored(bool),
    /// The branch and the bytes of each chunk, if the data could be coded.
    Chunks(Option<Vec<(Vec<Vec<u8>>, Vec<u8>)>>),
    /// The hash that the branch proves, if it proves one.
    BranchHash(Option<H256>),
    /// The message could not be sent, or its answer did not come.
    Failed,
}

/// A change of our view under way.
#[derive(Debug)]
pub struct ViewChange {
    /// The view before the change.
    pub old_view: RelayView,
    /// The heads that the change adds.
    pub added: Vec<H256>,
}

/// The distribution of the chunks of our candidates, at one candidate.
pub struct Distribution {
    /// The change of our view that has brought the candidates.
    pub change: ViewChange,
    /// The candidates by hash.
    pub todo: VecMap<H256, CommittedCandidateReceipt>,
    /// The position of the candidate that is worked on.
    pub at: usize,
    /// Our index in the validator set.
    pub validator_index: ValidatorIndex,
}

/// What the subsystem waits for.
pub enum Task {
    /// The registration with the network bridge.
    Registering,
    /// The next message of the overseer.
    Receiving,
    /// The validator set at one of the activated heads.
    Activating { activated: Vec<H256>, at: usize },
    /// The availability cores at one of the added heads.
    QueryingCores { change: ViewChange, at: usize },
    /// The candidate of one of the parachains at one of the added heads; `live`
    /// are the candidates found so far at that head.
    QueryingPending {
        change: ViewChange,
        at: usize,
        paras: Vec<ParaId>,
        next: usize,
        live: VecSet<CommittedCandidateReceipt>,
    },
    /// The proof of validity of a candidate.
    QueryingPoV { work: Distribution },
    /// The head of a candidate's parachain.
    QueryingHeadData { work: Distribution, pov: PoV },
    /// The erasure chunks of a candidate.
    Encoding { work: Distribution },
    /// The storage of our own chunk.
    Storing { work: Distribution, chunks: Vec<ErasureChunk> },
    /// The sending of one of the chunks.
    Distributing {
        work: Distribution,
        peers: Vec<PeerId>,
        chunks: Vec<ErasureChunk>,
        sent: usize,
    },
    /// The sending of one of the messages that a peer now wants.
    CatchingUp {
        origin: PeerId,
        todo: VecMap<H256, CommittedCandidateReceipt>,
        at: usize,
        messages: Vec<AvailabilityGossipMessage>,
        sent: usize,
    },
    /// The hash that the branch of a peer's message proves.
    CheckingBranch { origin: PeerId, message: AvailabilityGossipMessage, relay_parent: H256 },
    /// The report on a peer's valid message, which is gossiped on after it.
    Rewarding { origin: PeerId, message: AvailabilityGossipMessage, relay_parent: H256 },
    /// The sending of the last message of an update.
    Closing,
    /// Nothing any more.
    Stopped,
}

/// The candidates that are worked through: their hashes in order, and their
/// receipts by hash.
#[verifier::ext_equal]
pub struct TodoModel {
    pub order: Seq<H256>,
    pub receipts: Map<H256, CommittedCandidateReceipt>,
}

/// The candidates of a map in the order of its walk.
pub open spec fn todo_of(todo: VecMap<H256, CommittedCandidateReceipt>) -> TodoModel {
    TodoModel { order: todo.order(), receipts: todo@ }
}

impl TodoModel {
    /// The relay parent that the descriptor of a candidate names.
    pub open spec fn relay_parent(self, j: int) -> H256 {
        self.receipts[self.order[j]].descriptor.relay_parent
    }

    /// Whether the order holds each candidate once.
    pub open spec fn well_formed(self) -> bool {
        &&& self.order.no_duplicates()
        &&& forall|h: H256| #[trigger]
            self.order.contains(h) <==> self.receipts.contains_key(h)
    }
}

impl Distribution {
    /// The relay parent of the candidate that is worked on.
    pub open spec fn relay_parent(self) -> H256 {
        todo_of(self.todo).relay_parent(self.at as int)
    }

    /// The hash of the candidate that is worked on.
    pub open spec fn candidate(self) -> H256 {
        self.todo.order()[self.at as int]
    }

    /// Whether there is a candidate to work on and its relay parent is known.
    pub open spec fn well_formed(self, state: StateModel) -> bool {
        &&& self.at < self.todo.order().len()
        &&& state.per_relay_parent.contains_key(self.relay_parent())
    }

    /// The same work, apart from the position and the index.
    pub open spec fn same_change(self, old_view: Seq<H256>, added: Seq<H256>, todo: TodoModel) -> bool {
        &&& self.change.old_view@ == old_view
        &&& self.change.added@ == added
        &&& todo_of(self.todo) == todo
    }
}

/// Whether each of the chunks can go over the wire.
pub open spec fn all_encodable(chunks: Seq<ErasureChunk>) -> bool {
    forall|i: int| 0 <= i < chunks.len() ==> (#[trigger] chunks[i])@.encodable()
}

/// Whether each of the chunks carries its position.
pub open spec fn numbered(chunks: Seq<ErasureChunk>) -> bool {
    forall|j: int|
        0 <= j < chunks.len() ==> (#[trigger] chunks[j])@.index == j as ValidatorIndex
}

/// Whether each branch and its chunk can go over the wire.
pub open spec fn branches_encodable(branches: Seq<(Vec<Vec<u8>>, Vec<u8>)>) -> bool {
    forall|i: int|
        0 <= i < branches.len() ==> branch_encodable(
            byte_strings((#[trigger] branches[i]).0@),
            branches[i].1@,
        )
}

/// Whether the messages are different ones that can go over the wire, and those
/// from `k` on were not sent to the peer.
pub open spec fn sendable(
    known: RelayParentModel,
    peer: Seq<u8>,
    messages: Seq<MessageModel>,
    k: int,
) -> bool {
    &&& forall|i: int| 0 <= i < messages.len() ==> (#[trigger] messages[i]).encodable()
    &&& forall|i: int, j: int|
        0 <= i < j < messages.len() ==> (#[trigger] messages[i]).id() != (
        #[trigger] messages[j]).id()
    &&& forall|i: int|
        k <= i < messages.len() ==> !known.was_sent(peer, (#[trigger] messages[i]).id())
}

impl Task {
    /// What holds of a task beside the state, whenever the subsystem waits.
    pub open spec fn well_formed(self, state: StateModel) -> bool {
        match self {
            Task::Activating { activated, at } => {
                &&& at < activated.len()
                &&& state.per_relay_parent.contains_key(activated[at as int])
            },
            Task::QueryingCores { change, at } => at < change.added.len(),
            Task::QueryingPending { change, at, paras, next, live } => at < change.added.len()
                && next < paras.len(),
            Task::QueryingPoV { work } => work.well_formed(state),
            Task::QueryingHeadData { work, pov } => work.well_formed(state),
            Task::Encoding { work } => work.well_formed(state),
            Task::Storing { work, chunks } => {
                &&& work.well_formed(state)
                &&& all_encodable(chunks@)
                &&& numbered(chunks@)
            },
            Task::Distributing { work, peers, chunks, sent } => {
                &&& work.well_formed(state)
                &&& all_encodable(chunks@)
                &&& numbered(chunks@)
                &&& sent < chunks.len()
                &&& lists(peer_keys(peers@), state.interested(work.relay_parent()))
            },
            Task::CatchingUp { origin, todo, at, messages, sent } => {
                &&& at < todo.order().len()
                &&& state.per_relay_parent.contains_key(todo_of(todo).relay_parent(at as int))
                &&& sent < messages.len()
                &&& sendable(
                    state.per_relay_parent[todo_of(todo).relay_parent(at as int)],
                    origin@,
                    message_models(messages@),
                    sent + 1,
                )
            },
            Task::CheckingBranch { origin, message, relay_parent } => {
                &&& message@.encodable()
                &&& state.view.contains(relay_parent)
            },
            Task::Rewarding { origin, message, relay_parent } => {
                &&& message@.encodable()
                &&& state.view.contains(relay_parent)
                &&& state.per_relay_parent.contains_key(relay_parent)
            },
            _ => true,
        }
    }

    /// Whether a reply is one to what the subsystem waits for. Chunks that do
    /// not fit the wire format are not.
    pub open spec fn accepts(self, reply: Reply) -> bool {
        match self {
            Task::Registering => reply is Sent || reply is Failed,
            Task::Receiving => reply is Received || reply is Failed,
            Task::Activating { activated, at } => reply is Validators || reply is Failed,
            Task::QueryingCores { change, at } => reply is AvailabilityCores || reply is Failed,
            Task::QueryingPending { change, at, paras, next, live } => reply
                is CandidatePendingAvailability || reply is Failed,
            Task::QueryingPoV { work } => reply is PoV || reply is Failed,
            Task::QueryingHeadData { work, pov } => reply is HeadData || reply is Failed,
            Task::Encoding { work } => match reply {
                Reply::Chunks(Some(branches)) => branches_encodable(branches@),
                Reply::Chunks(None) => true,
                _ => false,
            },
            Task::Storing { work, chunks } => reply is Stored || reply is Failed,
            Task::Distributing { work, peers, chunks, sent } => reply is Sent || reply is Failed,
            Task::CatchingUp { origin, todo, at, messages, sent } => reply is Sent || reply
                is Failed,
            Task::CheckingBranch { origin, message, relay_parent } => reply is BranchHash,
            Task::Rewarding { origin, message, relay_parent } => reply is Sent || reply is Failed,
            Task::Closing => reply is Sent || reply is Failed,
            Task::Stopped => false,
        }
    }
}

/// Whether the subsystem has nothing left to do for now.
pub open spec fn idle(task: Task, action: Action) -> bool {
    task is Receiving && action is Receive
}

/// Whether the last thing to do is a report on a peer.
pub open spec fn reporting(peer: Seq<u8>, change: ReputationChange, task: Task, action: Action) -> bool {
    &&& task is Closing
    &&& reports(peer, change, action)
}

/// Whether the action is a report on a peer.
pub open spec fn reports(peer: Seq<u8>, change: ReputationChange, action: Action) -> bool {
    action matches Action::ReportPeer(p, c) && p@ == peer && c == change
}

} // verus!
