//! The ways of a message through the protocol.

use availability_distribution::message::ErasureChunk;
use availability_distribution::primitives::{
    CandidateCommitments, CandidateDescriptor, CommittedCandidateReceipt, CoreState, HeadData,
    BlockData, ParaId, PeerId, PoV, RelayView, ValidatorId, H256,
};
use availability_distribution::protocol::{
    Action, ActiveLeavesUpdate, AvailabilityDistributionMessage, Exit, FromOverseer,
    NetworkBridgeEvent, OverseerSignal, Reply,
};
use availability_distribution::reputation::ReputationChange;
use availability_distribution::{AvailabilityDistributionSubsystem, AvailabilityGossipMessage};

const HEAD: H256 = H256([1; 32]);
const CANDIDATE: H256 = H256([11; 32]);
const ROOT: H256 = H256([12; 32]);
const PARA: ParaId = ParaId(27);

fn peer(name: char) -> PeerId {
    PeerId { bytes: vec![name as u8] }
}

fn candidate(hash: H256, relay_parent: H256) -> CommittedCandidateReceipt {
    CommittedCandidateReceipt {
        descriptor: CandidateDescriptor {
            para_id: PARA,
            relay_parent,
            validation_data_hash: hash,
        },
        commitments: CandidateCommitments { erasure_root: ROOT },
    }
}

fn message(index: u32) -> AvailabilityGossipMessage {
    AvailabilityGossipMessage {
        candidate_hash: CANDIDATE,
        erasure_chunk: ErasureChunk {
            chunk: vec![index as u8, 2, 3],
            index,
            proof: vec![vec![3, 4, 5], vec![]],
        },
    }
}

fn reply(subsystem: &mut AvailabilityDistributionSubsystem, reply: Reply) -> Action {
    assert!(subsystem.accepts(&reply));
    subsystem.step(reply)
}

fn update(subsystem: &mut AvailabilityDistributionSubsystem, event: NetworkBridgeEvent) -> Action {
    reply(
        subsystem,
        Reply::Received(FromOverseer::Communication(
            AvailabilityDistributionMessage::NetworkBridgeUpdate(event),
        )),
    )
}

fn views(subsystem: &mut AvailabilityDistributionSubsystem, name: char, heads: Vec<H256>) -> Action {
    update(subsystem, NetworkBridgeEvent::PeerViewChange(peer(name), RelayView(heads)))
}

/// A subsystem that has started work on `HEAD`, with four validators; it is one
/// of them where it holds a key.
fn working(keys: Vec<ValidatorId>) -> AvailabilityDistributionSubsystem {
    let mut subsystem = AvailabilityDistributionSubsystem::new();
    reply(&mut subsystem, Reply::Sent);
    let leaves = ActiveLeavesUpdate { activated: vec![HEAD], deactivated: vec![] };
    let signal = FromOverseer::Signal(OverseerSignal::ActiveLeaves(leaves));
    reply(&mut subsystem, Reply::Received(signal));
    let validators = (0..4).map(|i| ValidatorId([i; 32])).collect();
    let action = reply(&mut subsystem, Reply::Validators(validators, keys));
    assert!(matches!(action, Action::Receive));
    subsystem
}

/// Moves our view to `HEAD`, where the candidate is live.
fn look_at_head(subsystem: &mut AvailabilityDistributionSubsystem) -> Action {
    let action = update(subsystem, NetworkBridgeEvent::OurViewChange(RelayView(vec![HEAD])));
    assert!(matches!(action, Action::QueryAvailabilityCores(HEAD)));
    let cores = vec![CoreState::Free, CoreState::Occupied(PARA), CoreState::Scheduled(ParaId(5))];
    let action = reply(subsystem, Reply::AvailabilityCores(cores));
    assert!(matches!(action, Action::QueryCandidatePendingAvailability(HEAD, PARA)));
    let live = Reply::CandidatePendingAvailability(Some(candidate(CANDIDATE, HEAD)));
    reply(subsystem, live)
}

/// A subsystem with `HEAD` in its view, where it is no validator.
fn listening() -> AvailabilityDistributionSubsystem {
    let mut subsystem = working(vec![]);
    assert!(matches!(look_at_head(&mut subsystem), Action::Receive));
    subsystem
}

fn deliver(
    subsystem: &mut AvailabilityDistributionSubsystem,
    name: char,
    message: &AvailabilityGossipMessage,
) -> Action {
    update(subsystem, NetworkBridgeEvent::PeerMessage(peer(name), message.encode()))
}

/// Delivers a valid message up to the report on its peer.
fn deliver_valid(
    subsystem: &mut AvailabilityDistributionSubsystem,
    name: char,
    message: &AvailabilityGossipMessage,
) -> Action {
    match deliver(subsystem, name, message) {
        Action::BranchHash(root, branch, index) => {
            assert_eq!(root, ROOT);
            assert_eq!(branch, message.erasure_chunk.proof);
            assert_eq!(index, message.erasure_chunk.index as usize);
        }
        other => panic!("{:?}", other),
    }
    reply(subsystem, Reply::BranchHash(Some(message.chunk_hash())))
}

fn expect_report(action: Action, name: char, change: ReputationChange) {
    match action {
        Action::ReportPeer(p, c) => {
            assert_eq!(p, peer(name));
            assert_eq!(c, change);
        }
        other => panic!("{:?}", other),
    }
}

fn expect_message(action: Action, names: &[char], message: &AvailabilityGossipMessage) {
    match action {
        Action::SendMessage(peers, protocol, bytes) => {
            let expected: Vec<PeerId> = names.iter().map(|name| peer(*name)).collect();
            assert_eq!(peers, expected);
            assert_eq!(&protocol, b"avad");
            assert_eq!(bytes, message.encode());
            assert_eq!(AvailabilityGossipMessage::decode(&bytes).as_ref(), Some(message));
        }
        other => panic!("{:?}", other),
    }
}

#[test]
fn undecodable_bytes_cost() {
    let mut subsystem = listening();
    let mut bytes = message(0).encode();
    bytes.pop();
    let action = update(&mut subsystem, NetworkBridgeEvent::PeerMessage(peer('a'), bytes));
    expect_report(action, 'a', ReputationChange::CostMessageNotDecodable);
    assert!(matches!(reply(&mut subsystem, Reply::Failed), Action::Receive));
}

#[test]
fn unknown_candidates_cost() {
    let mut subsystem = working(vec![]);
    let action = deliver(&mut subsystem, 'a', &message(0));
    expect_report(action, 'a', ReputationChange::CostNotInView);
}

#[test]
fn candidates_out_of_view_cost() {
    let mut subsystem = working(vec![]);
    // the candidate is known, but its head is not in our view
    let mut live = availability_distribution::collections::VecSet::new();
    live.insert(candidate(CANDIDATE, HEAD));
    subsystem.state.record_live_candidates(HEAD, live);
    let action = deliver(&mut subsystem, 'a', &message(0));
    expect_report(action, 'a', ReputationChange::CostNotInView);
}

#[test]
fn candidates_that_are_not_live_cost() {
    let mut subsystem = listening();
    // the lookup leads to our head, where the candidate is not live
    subsystem.state.reverse.insert(H256([99; 32]), HEAD);
    let mut stray = message(0);
    stray.candidate_hash = H256([99; 32]);
    let action = deliver(&mut subsystem, 'a', &stray);
    expect_report(action, 'a', ReputationChange::CostNotALiveCandidate);
}

#[test]
fn invalid_branches_cost() {
    let mut subsystem = listening();
    assert!(matches!(deliver(&mut subsystem, 'a', &message(0)), Action::BranchHash(_, _, 0)));
    let action = reply(&mut subsystem, Reply::BranchHash(None));
    expect_report(action, 'a', ReputationChange::CostMerkleProofInvalid);
    assert!(matches!(reply(&mut subsystem, Reply::Sent), Action::Receive));

    assert!(matches!(deliver(&mut subsystem, 'a', &message(0)), Action::BranchHash(_, _, 0)));
    let action = reply(&mut subsystem, Reply::BranchHash(Some(message(1).chunk_hash())));
    expect_report(action, 'a', ReputationChange::CostMerkleProofInvalid);
}

#[test]
fn nothing_is_done_without_work_on_the_relay_parent() {
    let mut subsystem = AvailabilityDistributionSubsystem::new();
    reply(&mut subsystem, Reply::Sent);
    let mut live = availability_distribution::collections::VecSet::new();
    live.insert(candidate(CANDIDATE, HEAD));
    subsystem.state.record_live_candidates(HEAD, live);
    subsystem.state.view = RelayView(vec![HEAD]);
    assert!(matches!(deliver_valid(&mut subsystem, 'a', &message(0)), Action::Receive));
}

#[test]
fn valid_messages_are_rewarded_and_gossiped_on() {
    let mut subsystem = listening();
    for name in ['a', 'b', 'c'] {
        assert!(matches!(views(&mut subsystem, name, vec![HEAD]), Action::Receive));
    }
    views(&mut subsystem, 'd', vec![H256([2; 32])]);

    let action = deliver_valid(&mut subsystem, 'a', &message(1));
    expect_report(action, 'a', ReputationChange::BenefitValidMessageFirst);
    let action = reply(&mut subsystem, Reply::Sent);
    expect_message(action, &['b', 'c'], &message(1));
    assert!(matches!(reply(&mut subsystem, Reply::Sent), Action::Receive));

    // from another peer it is no news, and nobody is sent it twice
    let action = deliver_valid(&mut subsystem, 'b', &message(1));
    expect_report(action, 'b', ReputationChange::BenefitValidMessage);
    let action = reply(&mut subsystem, Reply::Sent);
    expect_message(action, &['a'], &message(1));
    assert!(matches!(reply(&mut subsystem, Reply::Sent), Action::Receive));

    let action = deliver_valid(&mut subsystem, 'c', &message(1));
    expect_report(action, 'c', ReputationChange::BenefitValidMessage);
    let action = reply(&mut subsystem, Reply::Sent);
    expect_message(action, &[], &message(1));
}

#[test]
fn duplicates_cost() {
    let mut subsystem = listening();
    let action = deliver_valid(&mut subsystem, 'a', &message(1));
    expect_report(action, 'a', ReputationChange::BenefitValidMessageFirst);
    reply(&mut subsystem, Reply::Sent);
    reply(&mut subsystem, Reply::Sent);
    let action = deliver_valid(&mut subsystem, 'a', &message(1));
    expect_report(action, 'a', ReputationChange::CostPeerDuplicateMessage);
    reply(&mut subsystem, Reply::Sent);
    // another chunk of the candidate is another message
    let action = deliver_valid(&mut subsystem, 'a', &message(2));
    expect_report(action, 'a', ReputationChange::BenefitValidMessageFirst);
}

#[test]
fn a_failed_report_ends_the_update() {
    let mut subsystem = listening();
    views(&mut subsystem, 'b', vec![HEAD]);
    deliver_valid(&mut subsystem, 'a', &message(1));
    assert!(matches!(reply(&mut subsystem, Reply::Failed), Action::Receive));
    let known = subsystem.state.per_relay_parent.get(&HEAD).unwrap();
    assert!(known.was_received(&peer('a'), (CANDIDATE, 1)));
    assert!(!known.was_sent(&peer('b'), (CANDIDATE, 1)));
}

#[test]
fn peers_catch_up_on_the_heads_they_add() {
    let mut subsystem = listening();
    for index in 0..3 {
        deliver_valid(&mut subsystem, 'a', &message(index));
        reply(&mut subsystem, Reply::Sent);
        reply(&mut subsystem, Reply::Sent);
    }
    // an index beyond the validator set is not distributed later
    deliver_valid(&mut subsystem, 'a', &message(4));
    reply(&mut subsystem, Reply::Sent);
    reply(&mut subsystem, Reply::Sent);

    let action = views(&mut subsystem, 'b', vec![H256([2; 32]), HEAD]);
    expect_message(action, &['b'], &message(0));
    let action = reply(&mut subsystem, Reply::Sent);
    expect_message(action, &['b'], &message(1));
    let action = reply(&mut subsystem, Reply::Sent);
    expect_message(action, &['b'], &message(2));
    assert!(matches!(reply(&mut subsystem, Reply::Sent), Action::Receive));

    // nothing is owed any more, whatever the peer looks at
    assert!(matches!(views(&mut subsystem, 'b', vec![]), Action::Receive));
    assert!(matches!(views(&mut subsystem, 'b', vec![HEAD]), Action::Receive));

    // a failure ends the catching up
    let action = views(&mut subsystem, 'c', vec![HEAD]);
    expect_message(action, &['c'], &message(0));
    assert!(matches!(reply(&mut subsystem, Reply::Failed), Action::Receive));
    let known = subsystem.state.per_relay_parent.get(&HEAD).unwrap();
    assert!(known.was_sent(&peer('c'), (CANDIDATE, 0)));
    assert!(!known.was_sent(&peer('c'), (CANDIDATE, 1)));
}

/// A validator with index 2 that has asked for the proof of validity.
fn validating() -> AvailabilityDistributionSubsystem {
    let mut subsystem = working(vec![ValidatorId([2; 32])]);
    views(&mut subsystem, 'a', vec![HEAD]);
    views(&mut subsystem, 'b', vec![]);
    views(&mut subsystem, 'c', vec![HEAD]);
    match look_at_head(&mut subsystem) {
        Action::QueryPoV(hash) => assert_eq!(hash, CANDIDATE),
        other => panic!("{:?}", other),
    }
    subsystem
}

fn encode_pov(subsystem: &mut AvailabilityDistributionSubsystem) {
    let pov = PoV { block_data: BlockData(vec![6, 7]) };
    match reply(subsystem, Reply::PoV(Some(pov.clone()))) {
        Action::QueryHeadData(head, para) => {
            assert_eq!(head, HEAD);
            assert_eq!(para, PARA);
        }
        other => panic!("{:?}", other),
    }
    match reply(subsystem, Reply::HeadData(HeadData(vec![7, 8, 9]))) {
        Action::ObtainChunks(n, data) => {
            assert_eq!(n, 4);
            assert_eq!(data.pov, pov);
            let global = data.omitted_validation.global_validation;
            assert_eq!(global.max_code_size, 0);
            assert_eq!(global.max_head_data_size, 0);
            assert_eq!(global.block_number, 0);
            let local = data.omitted_validation.local_validation;
            assert_eq!(local.parent_head, HeadData(vec![]));
            assert_eq!(local.balance, 0);
            assert_eq!(local.validation_code_hash, H256([0; 32]));
            assert_eq!(local.code_upgrade_allowed, None);
        }
        other => panic!("{:?}", other),
    }
}

fn branches(n: u8) -> Vec<(Vec<Vec<u8>>, Vec<u8>)> {
    (0..n).map(|i| (vec![vec![i, i]], vec![i])).collect()
}

fn our_message(i: u8) -> AvailabilityGossipMessage {
    AvailabilityGossipMessage {
        candidate_hash: CANDIDATE,
        erasure_chunk: ErasureChunk { chunk: vec![i], index: i as u32, proof: vec![vec![i, i]] },
    }
}

#[test]
fn validators_store_and_distribute_their_chunks() {
    let mut subsystem = validating();
    encode_pov(&mut subsystem);
    match reply(&mut subsystem, Reply::Chunks(Some(branches(4)))) {
        Action::StoreChunk(hash, index, chunk) => {
            assert_eq!(hash, CANDIDATE);
            assert_eq!(index, 2);
            assert_eq!(chunk, our_message(2).erasure_chunk);
        }
        other => panic!("{:?}", other),
    }
    // each chunk goes to all interested peers, under its own index
    let action = reply(&mut subsystem, Reply::Stored(true));
    expect_message(action, &['a', 'c'], &our_message(0));
    for i in 1..4 {
        let action = reply(&mut subsystem, Reply::Sent);
        expect_message(action, &['a', 'c'], &our_message(i));
    }
    assert!(matches!(reply(&mut subsystem, Reply::Sent), Action::Receive));
    let known = subsystem.state.per_relay_parent.get(&HEAD).unwrap();
    assert_eq!(known.message_vault.len(), 4);
    for i in 0..4 {
        let id = (CANDIDATE, i as u32);
        assert_eq!(known.message_vault.get(&id).unwrap(), &our_message(i));
        assert!(known.was_sent(&peer('a'), id));
        assert!(!known.was_sent(&peer('b'), id));
        assert!(known.was_sent(&peer('c'), id));
    }

    // a peer that takes the head up later is sent all of them
    let action = views(&mut subsystem, 'b', vec![HEAD]);
    expect_message(action, &['b'], &our_message(0));
    for i in 1..4 {
        let action = reply(&mut subsystem, Reply::Sent);
        expect_message(action, &['b'], &our_message(i));
    }
    assert!(matches!(reply(&mut subsystem, Reply::Sent), Action::Receive));
}

#[test]
fn chunks_that_a_peer_was_sent_are_not_sent_again() {
    let mut subsystem = working(vec![ValidatorId([2; 32])]);
    views(&mut subsystem, 'a', vec![HEAD]);
    look_at_head(&mut subsystem);
    // the first chunk came from another peer and was gossiped on before
    let mut known = subsystem.state.per_relay_parent.remove(&HEAD).unwrap();
    known.track(&vec![peer('a')], our_message(0));
    subsystem.state.per_relay_parent.insert(HEAD, known);
    encode_pov(&mut subsystem);
    reply(&mut subsystem, Reply::Chunks(Some(branches(3))));
    let action = reply(&mut subsystem, Reply::Stored(true));
    expect_message(action, &[], &our_message(0));
    let action = reply(&mut subsystem, Reply::Sent);
    expect_message(action, &['a'], &our_message(1));
    let action = reply(&mut subsystem, Reply::Sent);
    expect_message(action, &['a'], &our_message(2));
}

#[test]
fn chunks_are_distributed_even_if_they_are_not_stored() {
    for outcome in [Reply::Stored(false), Reply::Failed] {
        let mut subsystem = validating();
        encode_pov(&mut subsystem);
        reply(&mut subsystem, Reply::Chunks(Some(branches(3))));
        let action = reply(&mut subsystem, outcome);
        expect_message(action, &['a', 'c'], &our_message(0));
        assert!(matches!(reply(&mut subsystem, Reply::Failed), Action::Receive));
    }
}

#[test]
fn without_a_proof_of_validity_nothing_is_distributed() {
    let mut subsystem = validating();
    assert!(matches!(reply(&mut subsystem, Reply::PoV(None)), Action::Receive));
    assert_eq!(subsystem.state.cached_relay_parents(), vec![HEAD]);
}

#[test]
fn without_chunks_the_change_ends() {
    let old_head = H256([8; 32]);
    let old_candidate = H256([81; 32]);
    for chunks in [None, Some(branches(2))] {
        let mut subsystem = working(vec![ValidatorId([2; 32])]);
        let event = NetworkBridgeEvent::OurViewChange(RelayView(vec![old_head]));
        update(&mut subsystem, event);
        reply(&mut subsystem, Reply::AvailabilityCores(vec![]));
        let mut live = availability_distribution::collections::VecSet::new();
        live.insert(candidate(old_candidate, old_head));
        subsystem.state.record_live_candidates(old_head, live);
        look_at_head(&mut subsystem);
        encode_pov(&mut subsystem);
        assert!(subsystem.state.cache.contains_key(&old_head));
        assert!(matches!(reply(&mut subsystem, Reply::Chunks(chunks)), Action::Receive));
        // the head that was left is forgotten all the same
        assert_eq!(subsystem.state.cached_relay_parents(), vec![HEAD]);
        assert!(subsystem.state.reverse.get(&old_candidate).is_none());
        assert_eq!(subsystem.state.reverse.get(&CANDIDATE), Some(&HEAD));
    }
}

#[test]
fn candidates_of_left_heads_are_found_under_others() {
    let mut subsystem = listening();
    let next = H256([2; 32]);
    let leaves = ActiveLeavesUpdate { activated: vec![next], deactivated: vec![] };
    let signal = FromOverseer::Signal(OverseerSignal::ActiveLeaves(leaves));
    reply(&mut subsystem, Reply::Received(signal));
    reply(&mut subsystem, Reply::Validators(vec![], vec![]));

    // the candidate is live at the next head, too
    update(&mut subsystem, NetworkBridgeEvent::OurViewChange(RelayView(vec![next])));
    reply(&mut subsystem, Reply::AvailabilityCores(vec![CoreState::Occupied(PARA)]));
    let live = Reply::CandidatePendingAvailability(Some(candidate(CANDIDATE, next)));
    assert!(matches!(reply(&mut subsystem, live), Action::Receive));
    assert_eq!(subsystem.state.cached_relay_parents(), vec![next]);
    assert_eq!(subsystem.state.reverse.get(&CANDIDATE), Some(&next));
    let action = deliver_valid(&mut subsystem, 'a', &message(0));
    expect_report(action, 'a', ReputationChange::BenefitValidMessageFirst);
}

#[test]
fn candidates_without_a_started_relay_parent_end_the_subsystem() {
    let mut subsystem = AvailabilityDistributionSubsystem::new();
    reply(&mut subsystem, Reply::Sent);
    let action = look_at_head(&mut subsystem);
    assert!(matches!(action, Action::Stop(Exit::MissingRelayParent)));
}

#[test]
fn left_heads_are_forgotten() {
    let mut subsystem = listening();
    let next = H256([2; 32]);
    let action =
        update(&mut subsystem, NetworkBridgeEvent::OurViewChange(RelayView(vec![next])));
    assert!(matches!(action, Action::QueryAvailabilityCores(head) if head == next));
    let action = reply(&mut subsystem, Reply::AvailabilityCores(vec![]));
    assert!(matches!(action, Action::Receive));
    assert_eq!(subsystem.state.cached_relay_parents(), vec![next]);
    assert!(subsystem.state.reverse.get(&CANDIDATE).is_none());
    let action = deliver(&mut subsystem, 'a', &message(0));
    expect_report(action, 'a', ReputationChange::CostNotInView);
}

#[test]
fn the_same_view_changes_nothing() {
    let mut subsystem = listening();
    let action =
        update(&mut subsystem, NetworkBridgeEvent::OurViewChange(RelayView(vec![HEAD])));
    assert!(matches!(action, Action::Receive));
    assert_eq!(subsystem.state.reverse.get(&CANDIDATE), Some(&HEAD));

    // nor does a view with the same heads
    let view = RelayView(vec![HEAD, HEAD]);
    let action = update(&mut subsystem, NetworkBridgeEvent::OurViewChange(view.clone()));
    assert!(matches!(action, Action::Receive));
    assert_eq!(subsystem.state.view, view);
    assert_eq!(subsystem.state.cache.len(), 1);
    assert_eq!(subsystem.state.reverse.get(&CANDIDATE), Some(&HEAD));
}

#[test]
fn a_failed_lookup_ends_the_change() {
    let mut subsystem = listening();
    let (x, y) = (H256([2; 32]), H256([3; 32]));
    update(&mut subsystem, NetworkBridgeEvent::OurViewChange(RelayView(vec![x, y])));
    reply(&mut subsystem, Reply::AvailabilityCores(vec![]));
    assert!(matches!(reply(&mut subsystem, Reply::Failed), Action::Receive));
    assert!(subsystem.state.cache.contains_key(&HEAD));
    assert!(subsystem.state.cache.contains_key(&x));
    assert!(!subsystem.state.cache.contains_key(&y));
}
