//! What a peer's behaviour earns or costs it.

use vstd::prelude::*;

verus! {

/// A change of a peer's reputation.
#[derive(Clone, Copy, Debug, PartialEq, Eq)]
pub enum ReputationChange {
    /// The chunk does not belong to the candidate's erasure root.
    CostMerkleProofInvalid,
    /// The candidate is not among the live candidates.
    CostNotALiveCandidate,
    /// The candidate's relay parent is not in our view.
    CostNotInView,
    /// The bytes are not a gossip message.
    CostMessageNotDecodable,
    /// The peer has sent this message before.
    CostPeerDuplicateMessage,
    /// The message is valid and was not known before.
    BenefitValidMessageFirst,
    /// The message is valid and was known before.
    BenefitValidMessage,
}

impl ReputationChange {
    /// By how much the reputation changes.
    pub open spec fn amount(self) -> int {
        match self {
            ReputationChange::CostMerkleProofInvalid => -100,
            ReputationChange::CostNotALiveCandidate => -51,
            ReputationChange::CostNotInView => -51,
            ReputationChange::CostMessageNotDecodable => -100,
            ReputationChange::CostPeerDuplicateMessage => -500,
            ReputationChange::BenefitValidMessageFirst => 15,
            ReputationChange::BenefitValidMessage => 10,
        }
    }

    /// Why the reputation changes.
    pub open spec fn wording(self) -> Seq<char> {
        match self {
            ReputationChange::CostMerkleProofInvalid => "Bitfield signature invalid"@,
            ReputationChange::CostNotALiveCandidate =>
                "Candidate is not part of the live candidates"@,
            ReputationChange::CostNotInView => "Not interested in that parent hash"@,
            ReputationChange::CostMessageNotDecodable => "Not interested in that parent hash"@,
            ReputationChange::CostPeerDuplicateMessage =>
                "Peer sent the same message multiple times"@,
            ReputationChange::BenefitValidMessageFirst => "Valid message with new information"@,
            ReputationChange::BenefitValidMessage => "Valid message"@,
        }
    }

    /// By how much the reputation changes.
    pub fn value(&self) -> (value: i32)
        ensures
            value == self.amount(),
    {
        match self {
            ReputationChange::CostMerkleProofInvalid => -100,
            ReputationChange::CostNotALiveCandidate => -51,
            ReputationChange::CostNotInView => -51,
            ReputationChange::CostMessageNotDecodable => -100,
            ReputationChange::CostPeerDuplicateMessage => -500,
            ReputationChange::BenefitValidMessageFirst => 15,
            ReputationChange::BenefitValidMessage => 10,
        }
    }

    /// Why the reputation changes.
    pub fn reason(&self) -> (reason: &'static str)
        ensures
            reason@ == self.wording(),
    {
        match self {
            ReputationChange::CostMerkleProofInvalid => "Bitfield signature invalid",
            ReputationChange::CostNotALiveCandidate =>
                "Candidate is not part of the live candidates",
            ReputationChange::CostNotInView => "Not interested in that parent hash",
            ReputationChange::CostMessageNotDecodable => "Not interested in that parent hash",
            ReputationChange::CostPeerDuplicateMessage =>
                "Peer sent the same message multiple times",
            ReputationChange::BenefitValidMessageFirst => "Valid message with new information",
            ReputationChange::BenefitValidMessage => "Valid message",
        }
    }
}

} // verus!
