//! The values that the protocol works with.

use availability_distribution::collections::{Key, VecMap, VecSet};
use availability_distribution::message::ErasureChunk;
use availability_distribution::primitives::{
    candidate_hash_of, obtain_our_validator_index, occupied_para_ids, CandidateCommitments,
    CandidateDescriptor, CommittedCandidateReceipt, CoreState, ParaId, RelayView, ValidatorId, H256,
};
use availability_distribution::reputation::ReputationChange;
use availability_distribution::state::ProtocolState;
use availability_distribution::AvailabilityGossipMessage;

fn head(i: u8) -> H256 {
    H256([i; 32])
}

fn receipt(para: u32, relay_parent: H256, hash: H256) -> CommittedCandidateReceipt {
    CommittedCandidateReceipt {
        descriptor: CandidateDescriptor {
            para_id: ParaId(para),
            relay_parent,
            validation_data_hash: hash,
        },
        commitments: CandidateCommitments { erasure_root: H256::zero() },
    }
}

#[test]
fn messages_have_their_wire_format() {
    let message = AvailabilityGossipMessage {
        candidate_hash: H256([0xab; 32]),
        erasure_chunk: ErasureChunk {
            chunk: vec![1, 2, 3],
            index: 5,
            proof: vec![vec![3, 4, 5], vec![]],
        },
    };
    let mut expected = vec![0xab; 32];
    expected.extend_from_slice(&[12, 1, 2, 3]);
    expected.extend_from_slice(&[5, 0, 0, 0]);
    expected.extend_from_slice(&[8, 12, 3, 4, 5, 0]);
    assert_eq!(message.encode(), expected);
    assert_eq!(AvailabilityGossipMessage::decode(&expected), Some(message.clone()));

    // what follows a message is not looked at
    expected.push(77);
    assert_eq!(AvailabilityGossipMessage::decode(&expected), Some(message));
}

#[test]
fn garbage_is_no_message() {
    assert_eq!(AvailabilityGossipMessage::decode(&b"I am garbage".to_vec()), None);
    assert_eq!(AvailabilityGossipMessage::decode(&vec![]), None);
    // a chunk that is longer than the bytes
    let mut bytes = vec![0; 32];
    bytes.push(200);
    assert_eq!(AvailabilityGossipMessage::decode(&bytes), None);
}

#[test]
fn chunks_are_hashed() {
    let message = AvailabilityGossipMessage {
        candidate_hash: H256::zero(),
        erasure_chunk: ErasureChunk { chunk: b"abc".to_vec(), index: 0, proof: vec![] },
    };
    let expected = [
        0xbd, 0xdd, 0x81, 0x3c, 0x63, 0x42, 0x39, 0x72, 0x31, 0x71, 0xef, 0x3f, 0xee, 0x98, 0x57,
        0x9b, 0x94, 0x96, 0x4e, 0x3b, 0xb1, 0xcb, 0x3e, 0x42, 0x72, 0x62, 0xc8, 0xc0, 0x68, 0xd5,
        0x23, 0x19,
    ];
    assert_eq!(message.chunk_hash(), H256(expected));
}

#[test]
fn reputation_changes_have_their_values() {
    let changes = [
        (ReputationChange::CostMerkleProofInvalid, -100, "Bitfield signature invalid"),
        (
            ReputationChange::CostNotALiveCandidate,
            -51,
            "Candidate is not part of the live candidates",
        ),
        (ReputationChange::CostNotInView, -51, "Not interested in that parent hash"),
        (ReputationChange::CostMessageNotDecodable, -100, "Not interested in that parent hash"),
        (
            ReputationChange::CostPeerDuplicateMessage,
            -500,
            "Peer sent the same message multiple times",
        ),
        (ReputationChange::BenefitValidMessageFirst, 15, "Valid message with new information"),
        (ReputationChange::BenefitValidMessage, 10, "Valid message"),
    ];
    for (change, value, reason) in changes {
        assert_eq!(change.value(), value);
        assert_eq!(change.reason(), reason);
    }
}

#[test]
fn views_differ() {
    let a = RelayView(vec![head(3), head(1), head(2), head(1)]);
    let b = RelayView(vec![head(2), head(4)]);
    assert_eq!(a.difference(&b), vec![head(3), head(1), head(1)]);
    assert_eq!(b.difference(&a), vec![head(4)]);
    assert_eq!(a.difference(&a), vec![]);
    assert!(a.contains(&head(2)));
    assert!(!a.contains(&head(4)));
}

#[test]
fn only_occupied_cores_count() {
    let cores = vec![
        CoreState::Occupied(ParaId(81)),
        CoreState::Free,
        CoreState::Scheduled(ParaId(4)),
        CoreState::Occupied(ParaId(27)),
        CoreState::Occupied(ParaId(81)),
    ];
    assert_eq!(occupied_para_ids(&cores), vec![ParaId(81), ParaId(27), ParaId(81)]);
}

#[test]
fn validators_find_their_index() {
    let validators = vec![ValidatorId([1; 32]), ValidatorId([2; 32]), ValidatorId([2; 32])];
    assert_eq!(obtain_our_validator_index(&validators, &vec![]), None);
    assert_eq!(obtain_our_validator_index(&validators, &vec![ValidatorId([3; 32])]), None);
    assert_eq!(obtain_our_validator_index(&validators, &vec![ValidatorId([2; 32])]), Some(1));
    assert_eq!(obtain_our_validator_index(&vec![], &vec![ValidatorId([2; 32])]), None);
}

#[test]
fn unions_take_the_last_relay_parent() {
    let mut state = ProtocolState::new();
    let shared = head(40);
    let mut live = VecSet::new();
    assert!(live.insert(receipt(1, head(1), shared)));
    assert!(live.insert(receipt(2, head(1), head(41))));
    assert!(!live.insert(receipt(2, head(1), head(41))));
    state.record_live_candidates(head(1), live);
    let mut live = VecSet::new();
    live.insert(receipt(3, head(2), shared));
    state.record_live_candidates(head(2), live);

    // unknown relay parents add nothing
    let union =
        state.cached_relay_parents_to_live_candidates_unioned(&vec![head(9), head(1), head(2)]);
    assert_eq!(union.len(), 2);
    assert_eq!(union.get(&shared).unwrap().descriptor.para_id, ParaId(3));
    assert_eq!(union.get(&head(41)).unwrap().descriptor.para_id, ParaId(2));
    let union = state.cached_relay_parents_to_live_candidates_unioned(&vec![head(2), head(1)]);
    assert_eq!(union.get(&shared).unwrap().descriptor.para_id, ParaId(1));
    assert_eq!(state.cached_relay_parents_to_live_candidates_unioned(&vec![head(9)]).len(), 0);

    assert_eq!(state.reverse.get(&shared), Some(&head(2)));
    assert_eq!(state.reverse.get(&head(41)), Some(&head(1)));
    state.forget_relay_parents(&vec![head(1), head(9)]);
    assert!(!state.cache.contains_key(&head(1)));
    assert!(state.reverse.get(&head(41)).is_none());
    // the other head has a candidate with the hash
    assert_eq!(state.reverse.get(&shared), Some(&head(2)));
    state.forget_relay_parent(&head(2));
    assert!(state.reverse.get(&shared).is_none());
    assert_eq!(state.reverse.len(), 0);
}

#[test]
fn hashes_are_led_on_to_another_relay_parent() {
    let mut state = ProtocolState::new();
    let shared = head(40);
    for i in 1..4 {
        let mut live = VecSet::new();
        live.insert(receipt(i as u32, head(i), if i == 2 { head(42) } else { shared }));
        state.record_live_candidates(head(i), live);
    }
    assert_eq!(state.reverse.get(&shared), Some(&head(3)));
    state.forget_relay_parent(&head(3));
    assert_eq!(state.reverse.get(&shared), Some(&head(1)));
    assert_eq!(state.reverse.get(&head(42)), Some(&head(2)));
    state.forget_relay_parents(&vec![head(2), head(1)]);
    assert_eq!(state.reverse.len(), 0);
    assert_eq!(state.cache.len(), 0);
}

#[test]
fn candidates_are_known_by_their_validation_data() {
    assert_eq!(candidate_hash_of(&receipt(1, head(1), head(2))), head(2));
}

#[test]
fn maps_replace_and_remove() {
    let mut map: VecMap<H256, H256> = VecMap::new();
    assert!(map.insert(head(1), head(10)).is_none());
    assert!(map.insert(head(2), head(20)).is_none());
    assert!(map.insert(head(3), head(30)).is_none());
    assert_eq!(map.insert(head(1), head(11)), Some(head(10)));
    assert_eq!(map.len(), 3);
    assert_eq!(map.get(&head(1)), Some(&head(11)));
    assert_eq!(map.get(&head(2)), Some(&head(20)));
    assert_eq!(map.get(&head(3)), Some(&head(30)));
    assert_eq!(map.remove(&head(2)), Some(head(20)));
    assert_eq!(map.remove(&head(2)), None);
    assert_eq!(map.len(), 2);
    assert!(!map.contains_key(&head(2)));
    assert!(map.contains_key(&head(3)));
}

#[test]
fn keys_compare_by_all_they_hold() {
    assert!(head(1).same(&head(1)));
    let mut other = [1; 32];
    other[31] = 2;
    assert!(!head(1).same(&H256(other)));
    let a = receipt(1, head(1), head(2));
    assert!(a.same(&a.duplicate()));
    assert!(!a.same(&receipt(2, head(1), head(2))));
    assert!(!a.same(&receipt(1, head(3), head(2))));
    assert!(!a.same(&receipt(1, head(1), head(3))));
    let mut b = a;
    b.commitments.erasure_root = head(5);
    assert!(!a.same(&b));
}
