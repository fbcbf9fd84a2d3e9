//! The subsystem as its overseer sees it.

use availability_distribution::message::ErasureChunk;
use availability_distribution::primitives::{
    CandidateCommitments, CandidateDescriptor, CommittedCandidateReceipt, CoreState, ParaId, PeerId,
    RelayView, ValidatorId, H256,
};
use availability_distribution::protocol::{
    Action, ActiveLeavesUpdate, AvailabilityDistributionMessage, Exit, FromOverseer,
    NetworkBridgeEvent, ObservedRole, OverseerSignal, Reply,
};
use availability_distribution::reputation::ReputationChange;
use availability_distribution::{AvailabilityDistributionSubsystem, AvailabilityGossipMessage};
use sp_core::crypto::Pair;

fn reply(subsystem: &mut AvailabilityDistributionSubsystem, reply: Reply) -> Action {
    assert!(subsystem.accepts(&reply));
    subsystem.step(reply)
}

fn signal(subsystem: &mut AvailabilityDistributionSubsystem, signal: OverseerSignal) -> Action {
    reply(subsystem, Reply::Received(FromOverseer::Signal(signal)))
}

fn update(subsystem: &mut AvailabilityDistributionSubsystem, event: NetworkBridgeEvent) -> Action {
    reply(
        subsystem,
        Reply::Received(FromOverseer::Communication(
            AvailabilityDistributionMessage::NetworkBridgeUpdate(event),
        )),
    )
}

fn dummy_occupied_core(para: ParaId) -> CoreState {
    CoreState::Occupied(para)
}

fn generate_n_validators(n: usize) -> Vec<ValidatorId> {
    (0..n)
        .map(|_| {
            let (pair, _) = sp_core::sr25519::Pair::generate();
            ValidatorId(pair.public().0)
        })
        .collect()
}

fn receipt(para_id: ParaId, relay_parent: H256) -> CommittedCandidateReceipt {
    CommittedCandidateReceipt {
        descriptor: CandidateDescriptor {
            para_id,
            relay_parent,
            validation_data_hash: H256::zero(),
        },
        commitments: CandidateCommitments { erasure_root: H256::zero() },
    }
}

fn peer(name: char) -> PeerId {
    PeerId { bytes: vec![name as u8] }
}

fn started() -> AvailabilityDistributionSubsystem {
    let mut subsystem = AvailabilityDistributionSubsystem::new();
    match subsystem.start() {
        Action::RegisterEventProducer(protocol) => assert_eq!(&protocol, b"avad"),
        other => panic!("{:?}", other),
    }
    assert!(matches!(reply(&mut subsystem, Reply::Sent), Action::Receive));
    subsystem
}

#[test]
fn magic_mike() {
    let validators = generate_n_validators(3);
    let mut subsystem = started();
    let validator_index = 5;

    let relay_parent_x = H256([0x01; 32]);
    let relay_parent_y = H256([0x02; 32]);

    let chunk = ErasureChunk {
        chunk: vec![1, 2, 3],
        index: validator_index,
        proof: vec![vec![3, 4, 5]],
    };

    let peer_a = peer('a');
    let peer_b = peer('b');

    let para_27 = ParaId(27);
    let para_81 = ParaId(81);

    // work starts at parents x and y
    let action = signal(
        &mut subsystem,
        OverseerSignal::ActiveLeaves(ActiveLeavesUpdate {
            activated: vec![relay_parent_x, relay_parent_y],
            deactivated: vec![],
        }),
    );

    // obtain the validators per relay parent
    match action {
        Action::QueryValidators(relay_parent) => assert_eq!(relay_parent, relay_parent_x),
        other => panic!("{:?}", other),
    }
    match reply(&mut subsystem, Reply::Validators(validators.clone(), vec![])) {
        Action::QueryValidators(relay_parent) => assert_eq!(relay_parent, relay_parent_y),
        other => panic!("{:?}", other),
    }
    let action = reply(&mut subsystem, Reply::Validators(validators.clone(), vec![]));
    assert!(matches!(action, Action::Receive));

    // make us interested in parents x and y, which will query the availability cores
    let action = update(
        &mut subsystem,
        NetworkBridgeEvent::OurViewChange(RelayView(vec![relay_parent_x, relay_parent_y])),
    );
    match action {
        Action::QueryAvailabilityCores(relay_parent) => assert_eq!(relay_parent, relay_parent_x),
        other => panic!("{:?}", other),
    }

    // respond with a set of availability core states; now each of those will be
    // queried for the candidate pending availability
    let cores = vec![dummy_occupied_core(para_27), dummy_occupied_core(para_81)];
    match reply(&mut subsystem, Reply::AvailabilityCores(cores.clone())) {
        Action::QueryCandidatePendingAvailability(relay_parent, para) => {
            assert_eq!(relay_parent, relay_parent_x);
            assert_eq!(para, para_27);
        }
        other => panic!("{:?}", other),
    }
    let found = Reply::CandidatePendingAvailability(Some(receipt(para_27, relay_parent_x)));
    match reply(&mut subsystem, found) {
        Action::QueryCandidatePendingAvailability(relay_parent, para) => {
            assert_eq!(relay_parent, relay_parent_x);
            assert_eq!(para, para_81);
        }
        other => panic!("{:?}", other),
    }
    match reply(&mut subsystem, Reply::CandidatePendingAvailability(None)) {
        Action::QueryAvailabilityCores(relay_parent) => assert_eq!(relay_parent, relay_parent_y),
        other => panic!("{:?}", other),
    }
    match reply(&mut subsystem, Reply::AvailabilityCores(cores)) {
        Action::QueryCandidatePendingAvailability(relay_parent, para) => {
            assert_eq!(relay_parent, relay_parent_y);
            assert_eq!(para, para_27);
        }
        other => panic!("{:?}", other),
    }
    match reply(&mut subsystem, Reply::CandidatePendingAvailability(None)) {
        Action::QueryCandidatePendingAvailability(relay_parent, para) => {
            assert_eq!(relay_parent, relay_parent_y);
            assert_eq!(para, para_81);
        }
        other => panic!("{:?}", other),
    }
    let found = Reply::CandidatePendingAvailability(Some(receipt(para_81, relay_parent_y)));
    assert!(matches!(reply(&mut subsystem, found), Action::Receive));

    // setup peer a with interest in parent x
    let event = NetworkBridgeEvent::PeerConnected(peer_a.clone(), ObservedRole::Full);
    assert!(matches!(update(&mut subsystem, event), Action::Receive));
    let event =
        NetworkBridgeEvent::PeerViewChange(peer_a.clone(), RelayView(vec![relay_parent_x]));
    assert!(matches!(update(&mut subsystem, event), Action::Receive));

    // setup peer b with interest in parent y
    let event = NetworkBridgeEvent::PeerConnected(peer_b.clone(), ObservedRole::Full);
    assert!(matches!(update(&mut subsystem, event), Action::Receive));
    let event =
        NetworkBridgeEvent::PeerViewChange(peer_b.clone(), RelayView(vec![relay_parent_y]));
    assert!(matches!(update(&mut subsystem, event), Action::Receive));

    // check if garbage messages are detected and peer rep is changed as expected
    let garbage = b"I am garbage";
    let event = NetworkBridgeEvent::PeerMessage(peer_b.clone(), garbage.to_vec());
    match update(&mut subsystem, event) {
        Action::ReportPeer(peer, rep) => {
            assert_eq!(peer, peer_b);
            assert_eq!(rep, ReputationChange::CostMessageNotDecodable);
        }
        other => panic!("{:?}", other),
    }
    assert!(matches!(reply(&mut subsystem, Reply::Sent), Action::Receive));

    // valid (first)
    let valid = AvailabilityGossipMessage { candidate_hash: H256::zero(), erasure_chunk: chunk };
    let event = NetworkBridgeEvent::PeerMessage(peer_b.clone(), valid.encode());
    match update(&mut subsystem, event) {
        Action::BranchHash(root, branch, index) => {
            assert_eq!(root, H256::zero());
            assert_eq!(branch, vec![vec![3, 4, 5]]);
            assert_eq!(index, 5);
        }
        other => panic!("{:?}", other),
    }
    match reply(&mut subsystem, Reply::BranchHash(Some(valid.chunk_hash()))) {
        Action::ReportPeer(peer, rep) => {
            assert_eq!(peer, peer_b);
            assert_eq!(rep, ReputationChange::BenefitValidMessageFirst);
        }
        other => panic!("{:?}", other),
    }
}

#[test]
fn the_overseer_concludes() {
    let mut subsystem = started();
    let action = signal(&mut subsystem, OverseerSignal::Conclude);
    assert!(matches!(action, Action::Stop(Exit::Concluded)));
    assert!(!subsystem.accepts(&Reply::Sent));
    assert!(!subsystem.accepts(&Reply::Failed));
}

#[test]
fn a_lost_overseer_ends_the_subsystem() {
    let mut subsystem = AvailabilityDistributionSubsystem::new();
    let action = reply(&mut subsystem, Reply::Failed);
    assert!(matches!(action, Action::Stop(Exit::Failed)));

    let mut subsystem = started();
    let action = reply(&mut subsystem, Reply::Failed);
    assert!(matches!(action, Action::Stop(Exit::Failed)));

    let mut subsystem = started();
    let head = H256([7; 32]);
    let update = ActiveLeavesUpdate { activated: vec![head], deactivated: vec![] };
    let action = signal(&mut subsystem, OverseerSignal::ActiveLeaves(update));
    assert!(matches!(action, Action::QueryValidators(_)));
    let action = reply(&mut subsystem, Reply::Failed);
    assert!(matches!(action, Action::Stop(Exit::Failed)));
    assert!(subsystem.state.per_relay_parent.contains_key(&head));
}

#[test]
fn other_messages_change_nothing() {
    let mut subsystem = started();
    let action = signal(&mut subsystem, OverseerSignal::BlockFinalized(H256([1; 32])));
    assert!(matches!(action, Action::Receive));
    let update = ActiveLeavesUpdate { activated: vec![], deactivated: vec![H256([1; 32])] };
    let action = signal(&mut subsystem, OverseerSignal::ActiveLeaves(update));
    assert!(matches!(action, Action::Receive));
    let message = AvailabilityDistributionMessage::FetchChunk(H256([1; 32]), 3);
    let action = reply(&mut subsystem, Reply::Received(FromOverseer::Communication(message)));
    assert!(matches!(action, Action::Receive));
    let chunk = ErasureChunk { chunk: vec![1], index: 0, proof: vec![] };
    let message = AvailabilityDistributionMessage::DistributeChunk(H256([1; 32]), chunk);
    let action = reply(&mut subsystem, Reply::Received(FromOverseer::Communication(message)));
    assert!(matches!(action, Action::Receive));
    assert_eq!(subsystem.state.per_relay_parent.len(), 0);
    assert_eq!(subsystem.state.cache.len(), 0);
}

#[test]
fn our_index_is_that_of_the_first_key_we_hold() {
    let mut subsystem = started();
    let validators = vec![ValidatorId([1; 32]), ValidatorId([2; 32]), ValidatorId([3; 32])];
    let head = H256([9; 32]);
    let update = ActiveLeavesUpdate { activated: vec![head], deactivated: vec![] };
    signal(&mut subsystem, OverseerSignal::ActiveLeaves(update));
    let keys = vec![ValidatorId([3; 32]), ValidatorId([2; 32])];
    let action = reply(&mut subsystem, Reply::Validators(validators.clone(), keys));
    assert!(matches!(action, Action::Receive));
    let known = subsystem.state.per_relay_parent.get(&head).unwrap();
    assert_eq!(known.validator_index, Some(1));
    assert_eq!(known.validators, validators);
}

#[test]
fn replies_must_fit_what_is_waited_for() {
    let mut subsystem = started();
    assert!(!subsystem.accepts(&Reply::Sent));
    assert!(!subsystem.accepts(&Reply::Chunks(None)));
    assert!(subsystem.accepts(&Reply::Failed));
    let view = RelayView(vec![H256([1; 32])]);
    update(&mut subsystem, NetworkBridgeEvent::OurViewChange(view));
    assert!(subsystem.accepts(&Reply::AvailabilityCores(vec![])));
    assert!(!subsystem.accepts(&Reply::CandidatePendingAvailability(None)));
    assert!(!subsystem.accepts(&Reply::BranchHash(None)));
    assert!(!subsystem.accepts(&Reply::PoV(None)));
}

#[test]
fn peers_come_and_go() {
    let mut subsystem = started();
    let (a, b) = (peer('a'), peer('b'));
    let heads = RelayView(vec![H256([1; 32]), H256([2; 32])]);
    update(&mut subsystem, NetworkBridgeEvent::PeerConnected(a.clone(), ObservedRole::Full));
    assert_eq!(subsystem.state.peer_views.get(&a).unwrap(), &RelayView(vec![]));
    update(&mut subsystem, NetworkBridgeEvent::PeerViewChange(a.clone(), heads.clone()));
    assert_eq!(subsystem.state.peer_views.get(&a).unwrap(), &heads);

    // a peer that is known already keeps its view
    update(&mut subsystem, NetworkBridgeEvent::PeerConnected(a.clone(), ObservedRole::Light));
    assert_eq!(subsystem.state.peer_views.get(&a).unwrap(), &heads);

    // a peer that was not connected is known by its view
    update(&mut subsystem, NetworkBridgeEvent::PeerViewChange(b.clone(), heads.clone()));
    assert_eq!(subsystem.state.peer_views.len(), 2);
    assert_eq!(subsystem.state.interested_peers(&H256([1; 32])), vec![a.clone(), b.clone()]);

    update(&mut subsystem, NetworkBridgeEvent::PeerDisconnected(a.clone()));
    assert!(subsystem.state.peer_views.get(&a).is_none());
    assert_eq!(subsystem.state.interested_peers(&H256([1; 32])), vec![b]);
}
