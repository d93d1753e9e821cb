//! The peers that this node stands in for.

use vstd::prelude::*;

use crate::primitives;
use crate::primitives::{contains_id, PeerId};

verus! {

/// A set of proxyed peers.
pub struct ProxyedPeers {
    ids: Vec<PeerId>,
}

impl View for ProxyedPeers {
    type V = Set<PeerId>;

    closed spec fn view(&self) -> Set<PeerId> {
        self.ids@.to_set()
    }
}

impl ProxyedPeers {
    /// No peer is listed twice.
    pub closed spec fn wf(&self) -> bool {
        self.ids@.no_duplicates()
    }

    /// A set without peers.
    pub fn new() -> (peers: Self)
        ensures
            peers.wf(),
            peers@ == Set::<PeerId>::empty(),
    {
        let peers = ProxyedPeers { ids: Vec::new() };
        assert(peers@ =~= Set::<PeerId>::empty());
        peers
    }

    /// How many peers there are.
    pub fn count(&self) -> (n: usize)
        requires
            self.wf(),
        ensures
            n == self@.len(),
    {
        proof {
            self.ids@.unique_seq_to_set();
        }
        self.ids.len()
    }
}

/// Makes the set hold the peers of `peer_ids` and no others.
pub fn initialize_proxyed_peers(peers: &mut ProxyedPeers, peer_ids: Vec<PeerId>)
    ensures
        final(peers).wf(),
        final(peers)@ == peer_ids@.to_set(),
{
    let mut ids: Vec<PeerId> = Vec::new();
    let mut i: usize = 0;
    while i < peer_ids.len()
        invariant
            i <= peer_ids@.len(),
            ids@.no_duplicates(),
            forall|id: PeerId| #[trigger]
                ids@.contains(id) == peer_ids@.take(i as int).contains(id),
        decreases peer_ids.len() - i,
    {
        broadcast use vstd::seq_lib::lemma_seq_contains_after_push;

        let id = peer_ids[i];
        assert(peer_ids@.take(i + 1) =~= peer_ids@.take(i as int).push(id));
        if !contains_id(&ids, &id) {
            proof {
                primitives::lemma_push_keeps_distinct(ids@, id);
            }
            ids.push(id);
        }
        i = i + 1;
    }
    assert(peer_ids@.take(i as int) =~= peer_ids@);
    assert(ids@.to_set() =~= peer_ids@.to_set());
    *peers = ProxyedPeers { ids };
}

/// Whether `peer_id` is a proxyed peer.
pub fn is_proxyed_peer(peers: &ProxyedPeers, peer_id: &PeerId) -> (proxyed: bool)
    ensures
        proxyed == peers@.contains(*peer_id),
{
    contains_id(&peers.ids, peer_id)
}

}
