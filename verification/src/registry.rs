//! The peers that speak the `bsc` protocol, with the version that each negotiated.

use tokio::sync::mpsc::UnboundedSender;
use vstd::prelude::*;

use crate::channel::BscCommand;
use crate::peer_map::PeerMap;
use crate::primitives;
use crate::primitives::PeerId;

verus! {

/// The first version of the protocol that knows `GetBlocksByRange`.
pub const RANGE_VERSION: u8 = 2;

/// What the registry knows of a peer.
#[verifier::reject_recursive_types(V)]
#[verifier::reject_recursive_types(R)]
pub struct PeerEntry<V, R> {
    pub tx: UnboundedSender<BscCommand<V, R>>,
    /// Negotiated version of the protocol.
    pub version: u8,
}

/// The active peers.
#[verifier::reject_recursive_types(V)]
#[verifier::reject_recursive_types(R)]
pub struct Registry<V, R> {
    peers: PeerMap<PeerEntry<V, R>>,
}

impl<V, R> View for Registry<V, R> {
    type V = Map<PeerId, PeerEntry<V, R>>;

    closed spec fn view(&self) -> Map<PeerId, PeerEntry<V, R>> {
        self.peers@
    }
}

impl<V, R> Registry<V, R> {
    /// No peer is listed twice.
    pub closed spec fn wf(&self) -> bool {
        self.peers.wf()
    }

    /// Whether `peer` is registered with a version that knows `GetBlocksByRange`.
    pub open spec fn is_v2(&self, peer: PeerId) -> bool {
        self@.contains_key(peer) && self@[peer].version >= RANGE_VERSION
    }

    /// The peers of a list that are registered with a version that knows `GetBlocksByRange`.
    pub open spec fn v2_among(&self, list: Seq<PeerId>) -> Seq<PeerId> {
        list.filter(|peer: PeerId| self.is_v2(peer))
    }

    /// A registry without peers.
    pub fn new() -> (registry: Self)
        ensures
            registry.wf(),
            registry@ == Map::<PeerId, PeerEntry<V, R>>::empty(),
    {
        Registry { peers: PeerMap::new() }
    }

    /// What is known of `peer`.
    pub fn get(&self, peer: &PeerId) -> (entry: Option<&PeerEntry<V, R>>)
        requires
            self.wf(),
        ensures
            entry is Some == self@.contains_key(*peer),
            entry matches Some(e) ==> *e == self@[*peer],
    {
        self.peers.get(peer)
    }

    /// Takes in a peer. One that was registered before has its entry replaced.
    pub fn insert(&mut self, peer: PeerId, entry: PeerEntry<V, R>)
        requires
            old(self).wf(),
        ensures
            final(self).wf(),
            final(self)@ == old(self)@.insert(peer, entry),
    {
        self.peers.insert(peer, entry);
    }

    /// Forgets a peer.
    pub fn remove(&mut self, peer: &PeerId)
        requires
            old(self).wf(),
        ensures
            final(self).wf(),
            final(self)@ == old(self)@.remove(*peer),
    {
        let _ = self.peers.remove(peer);
    }

    /// The registered peers.
    pub fn peers(&self) -> (peers: &Vec<PeerId>)
        requires
            self.wf(),
        ensures
            peers@.no_duplicates(),
            peers@.to_set() == self@.dom(),
    {
        proof {
            self.peers.lemma_order();
        }
        self.peers.ids()
    }

    /// The registered peers, each with a handle of the channel to its stream.
    pub fn snapshot(&self) -> (targets: Vec<(PeerId, UnboundedSender<BscCommand<V, R>>)>)
        requires
            self.wf(),
        ensures
            forall|i: int, j: int|
                0 <= i < j < targets@.len() ==> (#[trigger] targets@[i]).0 != (
                #[trigger] targets@[j]).0,
            forall|i: int|
                0 <= i < targets@.len() ==> self@.contains_key((#[trigger] targets@[i]).0)
                    && self@[targets@[i].0].tx == targets@[i].1,
            forall|peer: PeerId| #[trigger]
                self@.contains_key(peer) ==> exists|i: int|
                    0 <= i < targets@.len() && (#[trigger] targets@[i]).0 == peer,
    {
        let ids = self.peers.ids();
        let mut targets: Vec<(PeerId, UnboundedSender<BscCommand<V, R>>)> = Vec::new();
        let mut i: usize = 0;
        proof {
            self.peers.lemma_order();
        }
        while i < ids.len()
            invariant
                self.wf(),
                ids@ == self.peers.order(),
                i <= ids@.len(),
                targets@.len() == i,
                forall|j: int|
                    0 <= j < i ==> (#[trigger] targets@[j]).0 == ids@[j] && self@.contains_key(
                        targets@[j].0,
                    ) && self@[targets@[j].0].tx == targets@[j].1,
            decreases ids.len() - i,
        {
            let entry = self.peers.value_at(i);
            targets.push((ids[i], entry.tx.clone()));
            i = i + 1;
        }
        proof {
            assert forall|peer: PeerId| #[trigger] self@.contains_key(peer) implies exists|i: int|
                0 <= i < targets@.len() && (#[trigger] targets@[i]).0 == peer by {
                assert(self.peers.order().contains(peer));
                let k = ids@.index_of(peer);
                assert(targets@[k].0 == peer);
            }
        }
        targets
    }
}

/// Whether `peer` negotiated a version that knows `GetBlocksByRange`.
pub fn is_v2_peer<V, R>(registry: &Registry<V, R>, peer: PeerId) -> (v2: bool)
    requires
        registry.wf(),
    ensures
        v2 == registry.is_v2(peer),
        v2 == (registry@.contains_key(peer) && registry@[peer].version >= 2),
{
    match registry.get(&peer) {
        Some(entry) => entry.version >= RANGE_VERSION,
        None => false,
    }
}

/// The peers that negotiated a version that knows `GetBlocksByRange`, each once.
pub fn list_v2_peers<V, R>(registry: &Registry<V, R>) -> (list: Vec<PeerId>)
    requires
        registry.wf(),
    ensures
        list@.no_duplicates(),
        forall|peer: PeerId| #[trigger] list@.contains(peer) == registry.is_v2(peer),
        forall|peer: PeerId| #[trigger]
            list@.contains(peer) == (registry@.contains_key(peer) && registry@[peer].version >= 2),
{
    let peers = registry.peers();
    let mut list: Vec<PeerId> = Vec::new();
    let mut i: usize = 0;
    while i < peers.len()
        invariant
            registry.wf(),
            peers@.no_duplicates(),
            peers@.to_set() == registry@.dom(),
            i <= peers@.len(),
            list@.no_duplicates(),
            forall|peer: PeerId| #[trigger]
                list@.contains(peer) == (peers@.take(i as int).contains(peer) && registry.is_v2(
                    peer,
                )),
        decreases peers.len() - i,
    {
        broadcast use vstd::seq_lib::lemma_seq_contains_after_push;

        let peer = peers[i];
        let ghost seen = peers@.take(i as int);
        proof {
            assert(!seen.contains(peer)) by {
                if seen.contains(peer) {
                    let j = seen.index_of(peer);
                    assert(peers@[j] == peers@[i as int]);
                }
            }
            assert(peers@.take(i + 1) =~= seen.push(peer));
        }
        if is_v2_peer(registry, peer) {
            proof {
                primitives::lemma_push_keeps_distinct(list@, peer);
            }
            list.push(peer);
        }
        i = i + 1;
    }
    proof {
        assert(peers@.take(i as int) =~= peers@);
        assert forall|peer: PeerId| #[trigger] list@.contains(peer) == registry.is_v2(peer) by {
            assert(peers@.to_set().contains(peer) == peers@.contains(peer));
        }
    }
    list
}

/// The peers of a list that can be asked are those that are registered with version two or later,
/// each as often as it is listed, and in the order of the list.
pub proof fn law_v2_among_keeps_what_can_be_asked<V, R>(registry: &Registry<V, R>, list: Seq<PeerId>)
    ensures
        registry.v2_among(list) == list.filter(
            |peer: PeerId| registry@.contains_key(peer) && registry@[peer].version >= 2,
        ),
        registry.v2_among(list).len() <= list.len(),
        forall|peer: PeerId| #[trigger]
            registry.v2_among(list).contains(peer) <==> list.contains(peer)
                && registry@.contains_key(peer) && registry@[peer].version >= 2,
    decreases list.len(),
{
    broadcast use vstd::seq_lib::lemma_seq_contains_after_push;

    reveal(Seq::filter);
    if list.len() > 0 {
        law_v2_among_keeps_what_can_be_asked(registry, list.drop_last());
        assert(list =~= list.drop_last().push(list.last()));
    }
}

}
