//! What the protocol keeps track of: peers and their views, the live
//! candidates of the relay parents, and the messages of each relay parent.

use vstd::prelude::*;

use crate::collections::{Key, VecMap, VecSet};
use crate::message::{AvailabilityGossipMessage, MessageId, MessageModel, carries};
use crate::primitives::{
    CommittedCandidateReceipt, H256, PeerId, RelayView, ValidatorId, ValidatorIndex, candidate_hash,
    candidate_hash_of, peer_keys,
};

verus! {

impl Key for (H256, ValidatorIndex) {
    fn same(&self, other: &Self) -> (equal: bool) {
        self.0.same(&other.0) && self.1 == other.1
    }

    fn duplicate(&self) -> (copy: Self) {
        *self
    }
}

/// What is tracked of one relay parent.
pub struct PerRelayParent {
    /// The messages that each peer has sent to us.
    pub received_messages: VecMap<PeerId, VecSet<MessageId>>,
    /// The messages that we have sent to each peer.
    pub sent_messages: VecMap<PeerId, VecSet<MessageId>>,
    /// The validator set.
    pub validators: Vec<ValidatorId>,
    /// Our index in the validator set, if this node is a validator.
    pub validator_index: Option<ValidatorIndex>,
    /// All messages that are known, to be sent to peers whose view wants them.
    pub message_vault: VecMap<MessageId, AvailabilityGossipMessage>,
}

/// The contents of a `PerRelayParent`; peers are known by their identity.
#[verifier::ext_equal]
pub struct RelayParentModel {
    pub received_messages: Map<Seq<u8>, Set<MessageId>>,
    pub sent_messages: Map<Seq<u8>, Set<MessageId>>,
    pub validators: Seq<ValidatorId>,
    pub validator_index: Option<ValidatorIndex>,
    pub message_vault: Map<MessageId, MessageModel>,
}

impl View for PerRelayParent {
    type V = RelayParentModel;

    open spec fn view(&self) -> RelayParentModel {
        RelayParentModel {
            received_messages: self.received_messages@,
            sent_messages: self.sent_messages@,
            validators: self.validators@,
            validator_index: self.validator_index,
            message_vault: self.message_vault@,
        }
    }
}

/// The messages that `messages` holds for a peer.
pub open spec fn messages_of(
    messages: Map<Seq<u8>, Set<MessageId>>,
    peer: Seq<u8>,
) -> Set<MessageId> {
    if messages.contains_key(peer) {
        messages[peer]
    } else {
        Set::empty()
    }
}

/// `messages` with `id` added for each of the peers.
pub open spec fn marked(
    messages: Map<Seq<u8>, Set<MessageId>>,
    peers: Seq<Seq<u8>>,
    id: MessageId,
) -> Map<Seq<u8>, Set<MessageId>> {
    Map::new(
        |p: Seq<u8>| messages.contains_key(p) || peers.contains(p),
        |p: Seq<u8>|
            if peers.contains(p) {
                messages_of(messages, p).insert(id)
            } else {
                messages[p]
            },
    )
}

impl RelayParentModel {
    /// What is tracked of a relay parent at first.
    pub open spec fn fresh() -> RelayParentModel {
        RelayParentModel {
            received_messages: Map::empty(),
            sent_messages: Map::empty(),
            validators: Seq::empty(),
            validator_index: None,
            message_vault: Map::empty(),
        }
    }

    /// Whether each message of the vault stands at its own identity and can go
    /// over the wire.
    pub open spec fn well_formed(self) -> bool {
        forall|id: MessageId| #[trigger]
            self.message_vault.contains_key(id) ==> self.message_vault[id].id() == id
                && self.message_vault[id].encodable()
    }

    /// Whether the message was sent to the peer.
    pub open spec fn was_sent(self, peer: Seq<u8>, id: MessageId) -> bool {
        messages_of(self.sent_messages, peer).contains(id)
    }

    /// Whether the peer has sent the message to us.
    pub open spec fn was_received(self, peer: Seq<u8>, id: MessageId) -> bool {
        messages_of(self.received_messages, peer).contains(id)
    }

    /// After a message was sent to some peers.
    pub open spec fn after_send(self, peers: Seq<Seq<u8>>, message: MessageModel) -> RelayParentModel {
        RelayParentModel {
            sent_messages: marked(self.sent_messages, peers, message.id()),
            message_vault: self.message_vault.insert(message.id(), message),
            ..self
        }
    }

    /// After a message was accepted from a peer.
    pub open spec fn accepted(self, origin: Seq<u8>, message: MessageModel) -> RelayParentModel {
        RelayParentModel {
            received_messages: self.received_messages.insert(
                origin,
                messages_of(self.received_messages, origin).insert(message.id()),
            ),
            message_vault: self.message_vault.insert(message.id(), message),
            ..self
        }
    }

    /// Whether the vault holds a message of the candidate, for one of the
    /// validators, that was not sent to the peer.
    pub open spec fn owed(self, peer: Seq<u8>, candidate: H256, index: ValidatorIndex) -> bool {
        &&& index < self.validators.len() as ValidatorIndex
        &&& !self.was_sent(peer, (candidate, index))
        &&& self.message_vault.contains_key((candidate, index))
    }

    /// Whether `messages` are the messages of the candidate that are owed to
    /// the peer, each of them once.
    pub open spec fn all_owed(
        self,
        peer: Seq<u8>,
        candidate: H256,
        messages: Seq<MessageModel>,
    ) -> bool {
        &&& forall|i: int|
            0 <= i < messages.len() ==> {
                let m = #[trigger] messages[i];
                &&& m.candidate_hash == candidate
                &&& self.owed(peer, candidate, m.erasure_chunk.index)
                &&& m == self.message_vault[m.id()]
            }
        &&& forall|index: ValidatorIndex| #[trigger]
            self.owed(peer, candidate, index) ==> exists|i: int|
                0 <= i < messages.len() && (#[trigger] messages[i]).id() == (candidate, index)
        &&& forall|i: int, j: int|
            0 <= i < j < messages.len() ==> (#[trigger] messages[i]).id() != (
            #[trigger] messages[j]).id()
    }
}

/// Adds a message to those that are held for a peer; says whether it was new.
fn note(
    messages: &mut VecMap<PeerId, VecSet<MessageId>>,
    peer: &PeerId,
    id: MessageId,
) -> (added: bool)
    ensures
        added == !messages_of(old(messages)@, peer@).contains(id),
        final(messages)@ == old(messages)@.insert(
            peer@,
            messages_of(old(messages)@, peer@).insert(id),
        ),
{
    let mut set = match messages.remove(peer) {
        Some(set) => set,
        None => VecSet::new(),
    };
    let added = set.insert(id);
    messages.insert(peer.duplicate(), set);
    assert(messages@ =~= old(messages)@.insert(
        peer@,
        messages_of(old(messages)@, peer@).insert(id),
    ));
    added
}

/// Whether a message is among those that are held for a peer.
fn has_note(messages: &VecMap<PeerId, VecSet<MessageId>>, peer: &PeerId, id: MessageId) -> (found:
    bool)
    ensures
        found == messages_of(messages@, peer@).contains(id),
{
    match messages.get(peer) {
        Some(set) => set.contains(&id),
        None => false,
    }
}

impl PerRelayParent {
    /// What is tracked of a relay parent at first.
    pub fn new() -> (fresh: PerRelayParent)
        ensures
            fresh@ == RelayParentModel::fresh(),
    {
        PerRelayParent {
            received_messages: VecMap::new(),
            sent_messages: VecMap::new(),
            validators: Vec::new(),
            validator_index: None,
            message_vault: VecMap::new(),
        }
    }

    /// Whether the message was sent to the peer.
    pub fn was_sent(&self, peer: &PeerId, id: MessageId) -> (sent: bool)
        ensures
            sent == self@.was_sent(peer@, id),
    {
        has_note(&self.sent_messages, peer, id)
    }

    /// Whether the peer has sent the message to us.
    pub fn was_received(&self, peer: &PeerId, id: MessageId) -> (received: bool)
        ensures
            received == self@.was_received(peer@, id),
    {
        has_note(&self.received_messages, peer, id)
    }

    /// The peers of a list to which a message was not sent.
    pub fn unsent(&self, peers: &Vec<PeerId>, id: MessageId) -> (targets: Vec<PeerId>)
        requires
            peer_keys(peers@).no_duplicates(),
        ensures
            peer_keys(targets@).no_duplicates(),
            forall|p: Seq<u8>| #[trigger]
                peer_keys(targets@).contains(p) <==> peer_keys(peers@).contains(p) && !self@.was_sent(
                    p,
                    id,
                ),
    {
        let ghost keys = peer_keys(peers@);
        let mut targets: Vec<PeerId> = Vec::new();
        let mut i: usize = 0;
        while i < peers.len()
            invariant
                i <= peers.len(),
                keys == peer_keys(peers@),
                keys.no_duplicates(),
                peer_keys(targets@).no_duplicates(),
                forall|p: Seq<u8>| #[trigger]
                    peer_keys(targets@).contains(p) <==> keys.take(i as int).contains(p)
                        && !self@.was_sent(p, id),
            decreases peers.len() - i,
        {
            let ghost before = peer_keys(targets@);
            let ghost key = keys[i as int];
            let sent = self.was_sent(&peers[i], id);
            if !sent {
                targets.push(peers[i].duplicate());
                assert(peer_keys(targets@) =~= before.push(key));
            }
            proof {
                lemma_take_next(keys, i as int);
                lemma_take_distinct(keys, i as int);
                if !sent {
                    lemma_push_contains(before, key);
                    assert(!before.contains(key));
                    assert(before.push(key).no_duplicates());
                }
            }
            i = i + 1;
        }
        assert(keys.take(keys.len() as int) =~= keys);
        targets
    }

    /// Keeps track of a message that goes to `peers` and returns its bytes.
    pub fn track(&mut self, peers: &Vec<PeerId>, message: AvailabilityGossipMessage) -> (bytes: Vec<
        u8,
    >)
        requires
            message@.encodable(),
            old(self)@.well_formed(),
        ensures
            final(self)@ == old(self)@.after_send(peer_keys(peers@), message@),
            final(self)@.well_formed(),
            carries(bytes@, message@),
    {
        let id = message.id();
        let ghost before = self@.sent_messages;
        let ghost keys = peer_keys(peers@);
        let mut i: usize = 0;
        assert(marked(before, keys.take(0), id) =~= before);
        while i < peers.len()
            invariant
                i <= peers.len(),
                keys == peer_keys(peers@),
                self@ == (RelayParentModel {
                    sent_messages: marked(before, keys.take(i as int), id),
                    ..old(self)@
                }),
            decreases peers.len() - i,
        {
            let ghost current = self@.sent_messages;
            note(&mut self.sent_messages, &peers[i], id);
            proof {
                let key = keys[i as int];
                lemma_take_next(keys, i as int);
                assert(self@.sent_messages =~= marked(before, keys.take(i + 1), id)) by {
                    assert(messages_of(current, key).insert(id) =~= messages_of(before, key).insert(
                        id,
                    ));
                }
            }
            i = i + 1;
        }
        assert(keys.take(keys.len() as int) =~= keys);
        let bytes = message.encode();
        self.message_vault.insert(id, message);
        bytes
    }

    /// Takes note of a message from a peer, and of the message itself; says
    /// whether it was known before.
    pub fn accept(&mut self, origin: &PeerId, message: AvailabilityGossipMessage) -> (known: bool)
        requires
            message@.encodable(),
            old(self)@.well_formed(),
        ensures
            final(self)@ == old(self)@.accepted(origin@, message@),
            final(self)@.well_formed(),
            known == old(self)@.message_vault.contains_key(message@.id()),
    {
        let id = message.id();
        note(&mut self.received_messages, origin, id);
        match self.message_vault.insert(id, message) {
            Some(_) => true,
            None => false,
        }
    }

    /// The messages of a candidate that are owed to a peer.
    pub fn owed_messages(&self, peer: &PeerId, candidate: H256) -> (messages: Vec<
        AvailabilityGossipMessage,
    >)
        requires
            self@.well_formed(),
        ensures
            self@.all_owed(peer@, candidate, message_models(messages@)),
    {
        let mut messages: Vec<AvailabilityGossipMessage> = Vec::new();
        let count: ValidatorIndex = self.validators.len() as ValidatorIndex;
        let mut index: ValidatorIndex = 0;
        while index < count
            invariant
                index <= count,
                self@.well_formed(),
                count == self@.validators.len() as ValidatorIndex,
                forall|i: int|
                    0 <= i < messages.len() ==> {
                        let m = (#[trigger] messages[i])@;
                        &&& m.candidate_hash == candidate
                        &&& m.erasure_chunk.index < index
                        &&& self@.owed(peer@, candidate, m.erasure_chunk.index)
                        &&& m == self@.message_vault[m.id()]
                    },
                forall|k: ValidatorIndex|
                    k < index && #[trigger] self@.owed(peer@, candidate, k) ==> exists|i: int|
                        0 <= i < messages.len() && (#[trigger] messages[i])@.id() == (candidate, k),
                forall|i: int, j: int|
                    0 <= i < j < messages.len() ==> (#[trigger] messages[i])@.id() != (
                    #[trigger] messages[j])@.id(),
            decreases count - index,
        {
            let ghost before = messages@;
            if !self.was_sent(peer, (candidate, index)) {
                if let Some(message) = self.message_vault.get(&(candidate, index)) {
                    assert(self@.owed(peer@, candidate, index));
                    messages.push(message.duplicate());
                    assert(messages[messages.len() - 1]@.id() == (candidate, index));
                }
            }
            assert forall|k: ValidatorIndex|
                k < index + 1 && #[trigger] self@.owed(peer@, candidate, k) implies exists|i: int|
                0 <= i < messages.len() && (#[trigger] messages[i])@.id() == (candidate, k) by {
                if k < index {
                    let i = choose|i: int|
                        0 <= i < before.len() && (#[trigger] before[i])@.id() == (candidate, k);
                    assert(messages[i] == before[i]);
                }
            }
            index = index + 1;
        }
        let ghost models = message_models(messages@);
        assert forall|k: ValidatorIndex| #[trigger]
            self@.owed(peer@, candidate, k) implies exists|i: int|
            0 <= i < models.len() && (#[trigger] models[i]).id() == (candidate, k) by {
            let i = choose|i: int|
                0 <= i < messages.len() && (#[trigger] messages[i])@.id() == (candidate, k);
            assert(models[i] == messages[i]@);
        }
        messages
    }
}

/// The contents of a list of messages.
pub open spec fn message_models(messages: Seq<AvailabilityGossipMessage>) -> Seq<MessageModel> {
    messages.map_values(|m: AvailabilityGossipMessage| m@)
}

/// What the protocol keeps track of.
pub struct ProtocolState {
    /// The connected peers and their views.
    pub peer_views: VecMap<PeerId, RelayView>,
    /// Our own view.
    pub view: RelayView,
    /// The live candidates of each relay parent that is worked on.
    pub cache: VecMap<H256, VecSet<CommittedCandidateReceipt>>,
    /// The relay parent of each live candidate, by the candidate's hash.
    pub reverse: VecMap<H256, H256>,
    /// What is tracked of each relay parent.
    pub per_relay_parent: VecMap<H256, PerRelayParent>,
}

/// The contents of a `ProtocolState`; peers are known by their identity.
#[verifier::ext_equal]
pub struct StateModel {
    pub peer_views: Map<Seq<u8>, Seq<H256>>,
    pub view: Seq<H256>,
    pub cache: Map<H256, Set<CommittedCandidateReceipt>>,
    pub reverse: Map<H256, H256>,
    pub per_relay_parent: Map<H256, RelayParentModel>,
}

impl View for ProtocolState {
    type V = StateModel;

    open spec fn view(&self) -> StateModel {
        StateModel {
            peer_views: self.peer_views@,
            view: self.view@,
            cache: self.cache@,
            reverse: self.reverse@,
            per_relay_parent: self.per_relay_parent@,
        }
    }
}

/// Whether the receipt is a live candidate of the relay parent at position `j`.
pub open spec fn live_at(
    cache: Map<H256, Set<CommittedCandidateReceipt>>,
    relay_parents: Seq<H256>,
    j: int,
    receipt: CommittedCandidateReceipt,
) -> bool {
    &&& 0 <= j < relay_parents.len()
    &&& cache.contains_key(relay_parents[j])
    &&& cache[relay_parents[j]].contains(receipt)
}

/// Whether the receipt is what the union over the relay parents holds for its
/// hash: no later relay parent has a live candidate with the same hash.
pub open spec fn unioned(
    cache: Map<H256, Set<CommittedCandidateReceipt>>,
    relay_parents: Seq<H256>,
    receipt: CommittedCandidateReceipt,
) -> bool {
    exists|j: int|
        #![trigger live_at(cache, relay_parents, j, receipt)]
        live_at(cache, relay_parents, j, receipt) && forall|k: int, r: CommittedCandidateReceipt|
            j < k && #[trigger] live_at(cache, relay_parents, k, r) ==> candidate_hash(r)
                != candidate_hash(receipt)
}

/// Whether `candidates` is the union of the live candidates of the relay
/// parents, by hash. Relay parents that are not in the cache add nothing.
pub open spec fn is_union(
    candidates: Map<H256, CommittedCandidateReceipt>,
    cache: Map<H256, Set<CommittedCandidateReceipt>>,
    relay_parents: Seq<H256>,
) -> bool {
    &&& forall|j: int, r: CommittedCandidateReceipt| #[trigger]
        live_at(cache, relay_parents, j, r) ==> candidates.contains_key(candidate_hash(r))
    &&& forall|h: H256| #[trigger]
        candidates.contains_key(h) ==> candidate_hash(candidates[h]) == h && unioned(
            cache,
            relay_parents,
            candidates[h],
        )
}

/// Whether one of the receipts has the hash.
pub open spec fn names(receipts: Set<CommittedCandidateReceipt>, hash: H256) -> bool {
    exists|r: CommittedCandidateReceipt| #[trigger]
        receipts.contains(r) && candidate_hash(r) == hash
}

/// Whether `peers` are the peers of a set, each of them once.
pub open spec fn lists(peers: Seq<Seq<u8>>, set: Set<Seq<u8>>) -> bool {
    &&& peers.no_duplicates()
    &&& forall|p: Seq<u8>| #[trigger] peers.contains(p) <==> set.contains(p)
}

impl StateModel {
    /// The state at first: no peers, no heads, nothing tracked.
    pub open spec fn initial() -> StateModel {
        StateModel {
            peer_views: Map::empty(),
            view: Seq::empty(),
            cache: Map::empty(),
            reverse: Map::empty(),
            per_relay_parent: Map::empty(),
        }
    }

    /// Whether what is tracked of each relay parent is well formed.
    pub open spec fn well_formed(self) -> bool {
        forall|h: H256| #[trigger]
            self.per_relay_parent.contains_key(h) ==> self.per_relay_parent[h].well_formed()
    }

    /// The peers that have the relay parent in their view.
    pub open spec fn interested(self, relay_parent: H256) -> Set<Seq<u8>> {
        Set::new(
            |p: Seq<u8>|
                self.peer_views.contains_key(p) && self.peer_views[p].contains(relay_parent),
        )
    }

    /// The peers that have the relay parent in their view and were not sent the
    /// message.
    pub open spec fn audience(self, relay_parent: H256, id: MessageId) -> Set<Seq<u8>> {
        Set::new(
            |p: Seq<u8>|
                self.interested(relay_parent).contains(p)
                    && !self.per_relay_parent[relay_parent].was_sent(p, id),
        )
    }

    /// The view of a peer; nothing for a peer that is not connected.
    pub open spec fn view_of(self, peer: Seq<u8>) -> Seq<H256> {
        if self.peer_views.contains_key(peer) {
            self.peer_views[peer]
        } else {
            Seq::empty()
        }
    }

    /// What is tracked of a relay parent, or what is tracked at first.
    pub open spec fn relay_parent_or_fresh(self, relay_parent: H256) -> RelayParentModel {
        if self.per_relay_parent.contains_key(relay_parent) {
            self.per_relay_parent[relay_parent]
        } else {
            RelayParentModel::fresh()
        }
    }

    /// With something else tracked of a relay parent.
    pub open spec fn with_relay_parent(
        self,
        relay_parent: H256,
        contents: RelayParentModel,
    ) -> StateModel {
        StateModel {
            per_relay_parent: self.per_relay_parent.insert(relay_parent, contents),
            ..self
        }
    }

    /// With another view of a peer.
    pub open spec fn with_peer_view(self, peer: Seq<u8>, view: Seq<H256>) -> StateModel {
        StateModel { peer_views: self.peer_views.insert(peer, view), ..self }
    }

    /// With the live candidates of a relay parent recorded.
    pub open spec fn recorded(
        self,
        relay_parent: H256,
        live: Set<CommittedCandidateReceipt>,
    ) -> StateModel {
        StateModel {
            cache: self.cache.insert(relay_parent, live),
            reverse: Map::new(
                |h: H256| self.reverse.contains_key(h) || names(live, h),
                |h: H256|
                    if names(live, h) {
                        relay_parent
                    } else {
                        self.reverse[h]
                    },
            ),
            ..self
        }
    }

}

/// Whether one of the live candidates of a cached relay parent has the hash.
pub open spec fn live_under(
    cache: Map<H256, Set<CommittedCandidateReceipt>>,
    relay_parent: H256,
    hash: H256,
) -> bool {
    cache.contains_key(relay_parent) && names(cache[relay_parent], hash)
}

/// Whether a hash leads to a cached relay parent with such a live candidate, if
/// there is one: to the same as before, where that is one of them.
pub open spec fn led_on(
    cache: Map<H256, Set<CommittedCandidateReceipt>>,
    before: Map<H256, H256>,
    after: Map<H256, H256>,
    hash: H256,
) -> bool {
    &&& after.contains_key(hash) <==> exists|p: H256| #[trigger] live_under(cache, p, hash)
    &&& after.contains_key(hash) ==> live_under(cache, after[hash], hash)
    &&& before.contains_key(hash) && live_under(cache, before[hash], hash) ==> after[hash]
        == before[hash]
}

/// Whether a hash leads to the same relay parent as before, or to none as
/// before.
pub open spec fn led_as_before(
    before: Map<H256, H256>,
    after: Map<H256, H256>,
    hash: H256,
) -> bool {
    &&& after.contains_key(hash) <==> before.contains_key(hash)
    &&& after.contains_key(hash) ==> after[hash] == before[hash]
}

/// Whether one of the relay parents is cached with a live candidate that has
/// the hash.
pub open spec fn live_under_any(
    cache: Map<H256, Set<CommittedCandidateReceipt>>,
    relay_parents: Seq<H256>,
    hash: H256,
) -> bool {
    exists|p: H256| relay_parents.contains(p) && #[trigger] live_under(cache, p, hash)
}

/// Relay parents and their live candidates are forgotten. A candidate that is
/// live under another cached relay parent is still found, and leads to such a
/// one.
pub open spec fn forgets(pre: StateModel, relay_parents: Seq<H256>, post: StateModel) -> bool {
    &&& post == (StateModel {
        cache: pre.cache.remove_keys(relay_parents.to_set()),
        reverse: post.reverse,
        ..pre
    })
    &&& forall|h: H256|
        if #[trigger] live_under_any(pre.cache, relay_parents, h) {
            led_on(post.cache, pre.reverse, post.reverse, h)
        } else {
            led_as_before(pre.reverse, post.reverse, h)
        }
}

impl ProtocolState {
    /// The state at first: no peers, no heads, nothing tracked.
    pub fn new() -> (state: ProtocolState)
        ensures
            state@ == StateModel::initial(),
    {
        ProtocolState {
            peer_views: VecMap::new(),
            view: RelayView::empty(),
            cache: VecMap::new(),
            reverse: VecMap::new(),
            per_relay_parent: VecMap::new(),
        }
    }

    /// The relay parents that are worked on, in some order.
    ///
    /// They should be those of our view.
    pub fn cached_relay_parents(&self) -> (relay_parents: Vec<H256>)
        requires
            self@.cache.len() == self@.view.len(),
        ensures
            relay_parents@.no_duplicates(),
            forall|h: H256| #[trigger]
                relay_parents@.contains(h) <==> self@.cache.contains_key(h),
    {
        let n: usize = self.cache.len();
        let mut relay_parents: Vec<H256> = Vec::new();
        let mut i: usize = 0;
        while i < n
            invariant
                i <= n,
                n == self.cache.order().len(),
                relay_parents@ == self.cache.order().take(i as int),
            decreases n - i,
        {
            relay_parents.push(*self.cache.key_at(i));
            assert(relay_parents@ =~= self.cache.order().take(i + 1));
            i = i + 1;
        }
        assert(relay_parents@ =~= self.cache.order());
        relay_parents
    }

    /// The union of the live candidates of the relay parents, by hash. Relay
    /// parents that are not in the cache add nothing, so this can be used with
    /// the view of a peer.
    pub fn cached_relay_parents_to_live_candidates_unioned(
        &self,
        relay_parents: &Vec<H256>,
    ) -> (candidates: VecMap<H256, CommittedCandidateReceipt>)
        ensures
            is_union(candidates@, self@.cache, relay_parents@),
            candidates.order().no_duplicates(),
    {
        let ghost cache = self@.cache;
        let ghost heads = relay_parents@;
        let mut candidates: VecMap<H256, CommittedCandidateReceipt> = VecMap::new();
        let mut j: usize = 0;
        assert(is_union(candidates@, cache, heads.take(0)));
        while j < relay_parents.len()
            invariant
                j <= relay_parents.len(),
                heads == relay_parents@,
                cache == self@.cache,
                is_union(candidates@, cache, heads.take(j as int)),
                candidates.order().no_duplicates(),
            decreases relay_parents.len() - j,
        {
            let ghost before = candidates@;
            match self.cache.get(&relay_parents[j]) {
                Some(live) => {
                    add_receipts(&mut candidates, live);
                    proof {
                        lemma_union_step(before, candidates@, cache, heads, j as int);
                    }
                },
                None => {
                    proof {
                        lemma_union_skip(before, cache, heads, j as int);
                    }
                },
            }
            j = j + 1;
        }
        assert(heads.take(heads.len() as int) =~= heads);
        candidates
    }

    /// The peers that have the relay parent in their view, in some order.
    pub fn interested_peers(&self, relay_parent: &H256) -> (peers: Vec<PeerId>)
        ensures
            lists(peer_keys(peers@), self@.interested(*relay_parent)),
    {
        let n: usize = self.peer_views.len();
        let ghost order = self.peer_views.order();
        let mut peers: Vec<PeerId> = Vec::new();
        let mut i: usize = 0;
        while i < n
            invariant
                i <= n,
                n == order.len(),
                order == self.peer_views.order(),
                order.no_duplicates(),
                peer_keys(peers@).no_duplicates(),
                forall|p: Seq<u8>| #[trigger]
                    peer_keys(peers@).contains(p) <==> order.take(i as int).contains(p)
                        && self@.interested(*relay_parent).contains(p),
            decreases n - i,
        {
            let ghost before = peer_keys(peers@);
            let ghost key = order[i as int];
            let view = self.peer_views.value_at(i);
            let wants = view.contains(relay_parent);
            assert(wants == self@.interested(*relay_parent).contains(key));
            if wants {
                peers.push(self.peer_views.key_at(i).duplicate());
                assert(peer_keys(peers@) =~= before.push(key));
            }
            proof {
                lemma_take_next(order, i as int);
                assert(!order.take(i as int).contains(key)) by {
                    lemma_take_distinct(order, i as int);
                }
                if wants {
                    lemma_push_contains(before, key);
                    assert(!before.contains(key));
                    assert(before.push(key).no_duplicates());
                }
            }
            i = i + 1;
        }
        assert(order.take(n as int) =~= order);
        peers
    }

    /// Records the live candidates of a relay parent.
    pub fn record_live_candidates(
        &mut self,
        relay_parent: H256,
        live: VecSet<CommittedCandidateReceipt>,
    )
        ensures
            final(self)@ == old(self)@.recorded(relay_parent, live@),
    {
        let n: usize = live.len();
        let ghost order = live.order();
        let ghost before = self@.reverse;
        let mut i: usize = 0;
        while i < n
            invariant
                i <= n,
                n == order.len(),
                order == live.order(),
                self@ == (StateModel { reverse: self@.reverse, ..old(self)@ }),
                forall|h: H256| #[trigger]
                    self@.reverse.contains_key(h) <==> before.contains_key(h) || names(
                        order.take(i as int).to_set(),
                        h,
                    ),
                forall|h: H256| #[trigger]
                    self@.reverse.contains_key(h) ==> self@.reverse[h] == if names(
                        order.take(i as int).to_set(),
                        h,
                    ) {
                        relay_parent
                    } else {
                        before[h]
                    },
            decreases n - i,
        {
            self.reverse.insert(candidate_hash_of(live.at(i)), relay_parent);
            proof {
                lemma_names_next(order, i as int);
            }
            i = i + 1;
        }
        assert(order.take(n as int) =~= order);
        self.cache.insert(relay_parent, live);
        assert(self@ =~= old(self)@.recorded(relay_parent, live@));
    }

    /// Whether one of the live candidates of a cached relay parent has the hash.
    fn is_live_under(&self, relay_parent: &H256, hash: &H256) -> (found: bool)
        ensures
            found == live_under(self@.cache, *relay_parent, *hash),
    {
        match self.cache.get(relay_parent) {
            Some(live) => has_hash(live, hash),
            None => false,
        }
    }

    /// A cached relay parent with a live candidate that has the hash, if there
    /// is one.
    fn relay_parent_with(&self, hash: &H256) -> (found: Option<H256>)
        ensures
            match found {
                Some(p) => live_under(self@.cache, p, *hash),
                None => forall|p: H256| !#[trigger] live_under(self@.cache, p, *hash),
            },
    {
        let n: usize = self.cache.len();
        let mut i: usize = 0;
        while i < n
            invariant
                i <= n,
                n == self.cache.order().len(),
                forall|j: int|
                    0 <= j < i ==> !live_under(
                        self@.cache,
                        #[trigger] self.cache.order()[j],
                        *hash,
                    ),
            decreases n - i,
        {
            if has_hash(self.cache.value_at(i), hash) {
                let relay_parent = *self.cache.key_at(i);
                return Some(relay_parent);
            }
            i = i + 1;
        }
        assert forall|p: H256| !#[trigger] live_under(self@.cache, p, *hash) by {
            if self@.cache.contains_key(p) {
                assert(self.cache.order().contains(p));
            }
        }
        None
    }

    /// Leads a hash on to a cached relay parent that has a live candidate with
    /// it, or to none.
    fn lead_on(&mut self, hash: H256)
        ensures
            final(self)@ == (StateModel { reverse: final(self)@.reverse, ..old(self)@ }),
            led_on(old(self)@.cache, old(self)@.reverse, final(self)@.reverse, hash),
            forall|h: H256|
                h != hash ==> #[trigger] led_as_before(
                    old(self)@.reverse,
                    final(self)@.reverse,
                    h,
                ),
    {
        let stays = match self.reverse.get(&hash) {
            Some(relay_parent) => self.is_live_under(relay_parent, &hash),
            None => false,
        };
        if !stays {
            match self.relay_parent_with(&hash) {
                Some(relay_parent) => {
                    self.reverse.insert(hash, relay_parent);
                },
                None => {
                    self.reverse.remove(&hash);
                },
            }
        }
    }

    /// Forgets a relay parent and its live candidates.
    pub fn forget_relay_parent(&mut self, relay_parent: &H256)
        ensures
            forgets(old(self)@, seq![*relay_parent], final(self)@),
    {
        let ghost one = seq![*relay_parent];
        let ghost cache = old(self)@.cache;
        assert(one.contains(*relay_parent)) by {
            assert(one[0] == *relay_parent);
        }
        if let Some(live) = self.cache.remove(relay_parent) {
            let n: usize = live.len();
            let ghost order = live.order();
            let ghost before = self@.reverse;
            let mut i: usize = 0;
            while i < n
                invariant
                    i <= n,
                    n == order.len(),
                    order == live.order(),
                    cache == old(self)@.cache,
                    self@ == (StateModel {
                        cache: cache.remove(*relay_parent),
                        reverse: self@.reverse,
                        ..old(self)@
                    }),
                    forall|h: H256|
                        if #[trigger] names(order.take(i as int).to_set(), h) {
                            led_on(cache.remove(*relay_parent), before, self@.reverse, h)
                        } else {
                            led_as_before(before, self@.reverse, h)
                        },
                decreases n - i,
            {
                let ghost current = self@.reverse;
                let hash = candidate_hash_of(live.at(i));
                self.lead_on(hash);
                proof {
                    lemma_names_next(order, i as int);
                    assert forall|h: H256|
                        if #[trigger] names(order.take(i + 1).to_set(), h) {
                            led_on(cache.remove(*relay_parent), before, self@.reverse, h)
                        } else {
                            led_as_before(before, self@.reverse, h)
                        } by {
                        let earlier = names(order.take(i as int).to_set(), h);
                        if h != hash {
                            assert(led_as_before(current, self@.reverse, h));
                        }
                    }
                }
                i = i + 1;
            }
            assert(order.take(n as int) =~= order);
            assert(self@.cache =~= cache.remove_keys(one.to_set()));
            assert forall|h: H256|
                if #[trigger] live_under_any(cache, one, h) {
                    led_on(self@.cache, before, self@.reverse, h)
                } else {
                    led_as_before(before, self@.reverse, h)
                } by {
                assert(live_under_any(cache, one, h) <==> names(live@, h)) by {
                    assert(live_under(cache, *relay_parent, h) <==> names(live@, h));
                }
            }
        } else {
            assert(self@.cache =~= cache.remove_keys(one.to_set()));
        }
    }

    /// Forgets each of the relay parents.
    pub fn forget_relay_parents(&mut self, relay_parents: &Vec<H256>)
        ensures
            forgets(old(self)@, relay_parents@, final(self)@),
    {
        let mut i: usize = 0;
        proof {
            lemma_forgets_nothing(self@);
            assert(relay_parents@.take(0) =~= Seq::<H256>::empty());
        }
        while i < relay_parents.len()
            invariant
                i <= relay_parents.len(),
                forgets(old(self)@, relay_parents@.take(i as int), self@),
            decreases relay_parents.len() - i,
        {
            let ghost mid = self@;
            self.forget_relay_parent(&relay_parents[i]);
            proof {
                assert(relay_parents@.take(i + 1) =~= relay_parents@.take(i as int).push(
                    relay_parents@[i as int],
                ));
                lemma_forgets_next(
                    old(self)@,
                    relay_parents@.take(i as int),
                    mid,
                    relay_parents@[i as int],
                    self@,
                );
            }
            i = i + 1;
        }
        assert(relay_parents@.take(relay_parents@.len() as int) =~= relay_parents@);
    }
}

/// Whether one of the receipts has the hash.
fn has_hash(receipts: &VecSet<CommittedCandidateReceipt>, hash: &H256) -> (found: bool)
    ensures
        found == names(receipts@, *hash),
{
    let n: usize = receipts.len();
    let ghost order = receipts.order();
    let mut i: usize = 0;
    while i < n
        invariant
            i <= n,
            n == order.len(),
            order == receipts.order(),
            !names(order.take(i as int).to_set(), *hash),
        decreases n - i,
    {
        let receipt = receipts.at(i);
        if candidate_hash_of(receipt).same(hash) {
            assert(receipts@.contains(*receipt));
            return true;
        }
        proof {
            lemma_names_next(order, i as int);
        }
        i = i + 1;
    }
    assert(order.take(n as int) =~= order);
    false
}

/// Forgetting no relay parents changes nothing, and nothing else does.
pub(crate) proof fn lemma_forgets_nothing(state: StateModel)
    ensures
        forgets(state, Seq::empty(), state),
        forall|post: StateModel| #[trigger]
            forgets(state, Seq::empty(), post) ==> post == state,
{
    let none = Seq::<H256>::empty();
    assert(state.cache.remove_keys(none.to_set()) =~= state.cache);
    assert forall|post: StateModel| #[trigger] forgets(state, none, post) implies post
        == state by {
        assert forall|h: H256| #[trigger] led_as_before(state.reverse, post.reverse, h) by {
            assert(!live_under_any(state.cache, none, h));
        }
        assert forall|h: H256| #[trigger]
            post.reverse.contains_key(h) <==> state.reverse.contains_key(h) by {
            assert(led_as_before(state.reverse, post.reverse, h));
        }
        assert forall|h: H256| #[trigger] post.reverse.contains_key(h) implies post.reverse[h]
            == state.reverse[h] by {
            assert(led_as_before(state.reverse, post.reverse, h));
        }
        assert(post.reverse =~= state.reverse);
    }
}

/// Forgetting one more relay parent.
proof fn lemma_forgets_next(
    pre: StateModel,
    relay_parents: Seq<H256>,
    mid: StateModel,
    next: H256,
    post: StateModel,
)
    requires
        forgets(pre, relay_parents, mid),
        forgets(mid, seq![next], post),
    ensures
        forgets(pre, relay_parents.push(next), post),
{
    let one = seq![next];
    let all = relay_parents.push(next);
    lemma_push_contains(relay_parents, next);
    assert(one.contains(next)) by {
        assert(one[0] == next);
    }
    assert(post.cache =~= pre.cache.remove_keys(all.to_set())) by {
        assert forall|p: H256| all.to_set().contains(p) <==> relay_parents.to_set().contains(p)
            || one.to_set().contains(p) by {
            assert(all.contains(p) <==> relay_parents.contains(p) || p == next);
        }
    }
    assert forall|h: H256|
        if #[trigger] live_under_any(pre.cache, all, h) {
            led_on(post.cache, pre.reverse, post.reverse, h)
        } else {
            led_as_before(pre.reverse, post.reverse, h)
        } by {
        let first = live_under_any(pre.cache, relay_parents, h);
        let second = live_under_any(mid.cache, one, h);
        assert forall|p: H256| #[trigger] live_under(post.cache, p, h) implies live_under(
            mid.cache,
            p,
            h,
        ) by {}
        if second {
            let p = choose|p: H256| one.contains(p) && #[trigger] live_under(mid.cache, p, h);
            assert(live_under(pre.cache, p, h));
            assert(all.contains(p));
        } else {
            assert forall|p: H256| #[trigger] live_under(mid.cache, p, h) implies live_under(
                post.cache,
                p,
                h,
            ) by {
                assert(p != next);
            }
        }
        if first {
            let p = choose|p: H256|
                relay_parents.contains(p) && #[trigger] live_under(pre.cache, p, h);
            assert(all.contains(p));
        }
        if live_under_any(pre.cache, all, h) && !first {
            let p = choose|p: H256| all.contains(p) && #[trigger] live_under(pre.cache, p, h);
            assert(p == next);
            assert(live_under(mid.cache, p, h));
        }
    }
}

/// Adds receipts to a map by hash.
fn add_receipts(
    candidates: &mut VecMap<H256, CommittedCandidateReceipt>,
    live: &VecSet<CommittedCandidateReceipt>,
)
    requires
        old(candidates).order().no_duplicates(),
    ensures
        final(candidates).order().no_duplicates(),
        forall|h: H256| #[trigger]
            final(candidates)@.contains_key(h) <==> old(candidates)@.contains_key(h) || names(
                live@,
                h,
            ),
        forall|h: H256| #[trigger]
            final(candidates)@.contains_key(h) ==> if names(live@, h) {
                live@.contains(final(candidates)@[h]) && candidate_hash(final(candidates)@[h]) == h
            } else {
                final(candidates)@[h] == old(candidates)@[h]
            },
{
    let n: usize = live.len();
    let ghost order = live.order();
    let ghost before = candidates@;
    let mut i: usize = 0;
    while i < n
        invariant
            i <= n,
            n == order.len(),
            order == live.order(),
            candidates.order().no_duplicates(),
            forall|h: H256| #[trigger]
                candidates@.contains_key(h) <==> before.contains_key(h) || names(
                    order.take(i as int).to_set(),
                    h,
                ),
            forall|h: H256| #[trigger]
                candidates@.contains_key(h) ==> if names(order.take(i as int).to_set(), h) {
                    live@.contains(candidates@[h]) && candidate_hash(candidates@[h]) == h
                } else {
                    candidates@[h] == before[h]
                },
        decreases n - i,
    {
        let receipt = *live.at(i);
        candidates.insert(candidate_hash_of(&receipt), receipt);
        proof {
            lemma_names_next(order, i as int);
        }
        i = i + 1;
    }
    assert(order.take(n as int) =~= order);
}

/// What the first `i + 1` items contain.
pub(crate) proof fn lemma_take_next<A>(s: Seq<A>, i: int)
    requires
        0 <= i < s.len(),
    ensures
        forall|x: A| #[trigger]
            s.take(i + 1).contains(x) <==> s.take(i).contains(x) || x == s[i],
{
    assert forall|x: A| #[trigger] s.take(i + 1).contains(x) <==> s.take(i).contains(x) || x
        == s[i] by {
        if s.take(i).contains(x) {
            let j = choose|j: int| 0 <= j < i && s.take(i)[j] == x;
            assert(s.take(i + 1)[j] == x);
        }
        assert(s.take(i + 1)[i] == s[i]);
        let next = s.take(i + 1);
        if next.contains(x) {
            let j = choose|j: int| 0 <= j < next.len() && next[j] == x;
            if j < i {
                assert(s.take(i)[j] == x);
            }
        }
    }
}

/// Where nothing occurs twice, an item is not among those before it.
pub(crate) proof fn lemma_take_distinct<A>(s: Seq<A>, i: int)
    requires
        0 <= i < s.len(),
        s.no_duplicates(),
    ensures
        !s.take(i).contains(s[i]),
{
    if s.take(i).contains(s[i]) {
        let j = choose|j: int| 0 <= j < i && s.take(i)[j] == s[i];
        assert(s[j] == s[i]);
    }
}

/// What a sequence contains after a push.
pub(crate) proof fn lemma_push_contains<A>(s: Seq<A>, a: A)
    ensures
        forall|x: A| #[trigger] s.push(a).contains(x) <==> s.contains(x) || x == a,
{
    assert forall|x: A| #[trigger] s.push(a).contains(x) <==> s.contains(x) || x == a by {
        if s.contains(x) {
            let j = choose|j: int| 0 <= j < s.len() && s[j] == x;
            assert(s.push(a)[j] == x);
        }
        assert(s.push(a)[s.len() as int] == a);
        if s.push(a).contains(x) {
            let j = choose|j: int| 0 <= j < s.push(a).len() && s.push(a)[j] == x;
            if j < s.len() {
                assert(s[j] == x);
            }
        }
    }
}

/// The hashes among the first `i + 1` receipts.
proof fn lemma_names_next(order: Seq<CommittedCandidateReceipt>, i: int)
    requires
        0 <= i < order.len(),
    ensures
        forall|h: H256| #[trigger]
            names(order.take(i + 1).to_set(), h) <==> names(order.take(i).to_set(), h) || h
                == candidate_hash(order[i]),
{
    lemma_take_next(order, i);
    assert forall|h: H256| #[trigger]
        names(order.take(i + 1).to_set(), h) <==> names(order.take(i).to_set(), h) || h
            == candidate_hash(order[i]) by {
        if names(order.take(i).to_set(), h) {
            let r = choose|r: CommittedCandidateReceipt| #[trigger]
                order.take(i).to_set().contains(r) && candidate_hash(r) == h;
            assert(order.take(i + 1).contains(r));
            assert(order.take(i + 1).to_set().contains(r));
        }
        if h == candidate_hash(order[i]) {
            assert(order.take(i + 1).contains(order[i]));
            assert(order.take(i + 1).to_set().contains(order[i]));
        }
        if names(order.take(i + 1).to_set(), h) {
            let r = choose|r: CommittedCandidateReceipt| #[trigger]
                order.take(i + 1).to_set().contains(r) && candidate_hash(r) == h;
            assert(order.take(i + 1).contains(r));
            if order.take(i).contains(r) {
                assert(order.take(i).to_set().contains(r));
            }
        }
    }
}

/// Adding a cached relay parent to a union.
proof fn lemma_union_step(
    before: Map<H256, CommittedCandidateReceipt>,
    after: Map<H256, CommittedCandidateReceipt>,
    cache: Map<H256, Set<CommittedCandidateReceipt>>,
    heads: Seq<H256>,
    j: int,
)
    requires
        0 <= j < heads.len(),
        cache.contains_key(heads[j]),
        is_union(before, cache, heads.take(j)),
        forall|h: H256| #[trigger]
            after.contains_key(h) <==> before.contains_key(h) || names(cache[heads[j]], h),
        forall|h: H256| #[trigger]
            after.contains_key(h) ==> if names(cache[heads[j]], h) {
                cache[heads[j]].contains(after[h]) && candidate_hash(after[h]) == h
            } else {
                after[h] == before[h]
            },
    ensures
        is_union(after, cache, heads.take(j + 1)),
{
    let short = heads.take(j);
    let long = heads.take(j + 1);
    assert forall|k: int, r: CommittedCandidateReceipt| #[trigger]
        live_at(cache, long, k, r) implies after.contains_key(candidate_hash(r)) by {
        if k < j {
            assert(live_at(cache, short, k, r));
        }
    }
    assert forall|h: H256| #[trigger] after.contains_key(h) implies candidate_hash(after[h]) == h
        && unioned(cache, long, after[h]) by {
        if names(cache[heads[j]], h) {
            assert(live_at(cache, long, j, after[h]));
        } else {
            assert(before.contains_key(h));
            let r = before[h];
            let k = choose|k: int|
                #![trigger live_at(cache, short, k, r)]
                live_at(cache, short, k, r) && forall|k2: int, r2: CommittedCandidateReceipt|
                    k < k2 && #[trigger] live_at(cache, short, k2, r2) ==> candidate_hash(r2)
                        != candidate_hash(r);
            assert(live_at(cache, long, k, r));
            assert forall|k2: int, r2: CommittedCandidateReceipt|
                k < k2 && #[trigger] live_at(cache, long, k2, r2) implies candidate_hash(r2)
                != candidate_hash(r) by {
                if k2 < j {
                    assert(live_at(cache, short, k2, r2));
                }
            }
        }
    }
}

/// Adding a relay parent that is not cached to a union.
proof fn lemma_union_skip(
    candidates: Map<H256, CommittedCandidateReceipt>,
    cache: Map<H256, Set<CommittedCandidateReceipt>>,
    heads: Seq<H256>,
    j: int,
)
    requires
        0 <= j < heads.len(),
        !cache.contains_key(heads[j]),
        is_union(candidates, cache, heads.take(j)),
    ensures
        is_union(candidates, cache, heads.take(j + 1)),
{
    let short = heads.take(j);
    let long = heads.take(j + 1);
    assert forall|k: int, r: CommittedCandidateReceipt| #[trigger]
        live_at(cache, long, k, r) implies live_at(cache, short, k, r) by {
        assert(long[k] == heads[k]);
    }
    assert forall|h: H256| #[trigger] candidates.contains_key(h) implies unioned(
        cache,
        long,
        candidates[h],
    ) by {
        let r = candidates[h];
        let k = choose|k: int|
            #![trigger live_at(cache, short, k, r)]
            live_at(cache, short, k, r) && forall|k2: int, r2: CommittedCandidateReceipt|
                k < k2 && #[trigger] live_at(cache, short, k2, r2) ==> candidate_hash(r2)
                    != candidate_hash(r);
        assert(live_at(cache, long, k, r));
    }
}

} // verus!
