//! Which peers announced which block.

use vstd::prelude::*;

use crate::lru;
use crate::lru::{
    get_announcers, get_or_insert_announcers, new_announcer_map, AnnouncerMap,
};
use crate::primitives;
use crate::primitives::{contains_id, BlockHash, PeerId};
use crate::registry;
use crate::registry::{is_v2_peer, Registry};

verus! {

/// Distinct hashes tracked for announcers, about six minutes of announcements on mainnet.
pub const ANNOUNCER_LRU_CAP: u32 = 256;

/// Most announcers that are tracked for a hash. Later ones are not: the earlier ones are more
/// likely to have committed the block already.
pub const MAX_ANNOUNCERS_PER_HASH: usize = 16;

/// Announcers by block hash. The hashes that were not used for longest are forgotten first.
pub struct Announcers {
    map: AnnouncerMap,
}

/// The announcers of a hash after `peer` announced it: `peer` comes last, unless it is there
/// already or the list is full.
pub open spec fn with_announcer(list: Seq<PeerId>, peer: PeerId) -> Seq<PeerId> {
    if list.contains(peer) || list.len() >= MAX_ANNOUNCERS_PER_HASH {
        list
    } else {
        list.push(peer)
    }
}

/// A list of announcers holds no peer twice, and not more than its share.
pub open spec fn is_announcer_list(list: Seq<PeerId>) -> bool {
    &&& list.no_duplicates()
    &&& list.len() <= MAX_ANNOUNCERS_PER_HASH
}

impl Announcers {
    /// The tracked hashes with their announcers, the most recently used hash first.
    pub closed spec fn entries(&self) -> Seq<(BlockHash, Seq<PeerId>)> {
        lru::announcer_entries(self.map)
    }

    /// No hash is tracked twice, not too many are, and their lists are in order.
    pub closed spec fn wf(&self) -> bool {
        &&& lru::announcer_limit(self.map) == ANNOUNCER_LRU_CAP
        &&& self.entries().len() <= ANNOUNCER_LRU_CAP
        &&& lru::distinct(self.entries())
        &&& forall|i: int|
            0 <= i < self.entries().len() ==> is_announcer_list((#[trigger] self.entries()[i]).1)
    }

    /// The announcers of `hash` in the order in which they came.
    pub open spec fn announced(&self, hash: BlockHash) -> Seq<PeerId> {
        if lru::holds(self.entries(), hash) {
            lru::value_of(self.entries(), hash)
        } else {
            seq![]
        }
    }

    /// Nothing announced yet.
    pub fn new() -> (announcers: Self)
        ensures
            announcers.wf(),
            announcers.entries() == Seq::<(BlockHash, Seq<PeerId>)>::empty(),
    {
        Announcers { map: new_announcer_map(ANNOUNCER_LRU_CAP) }
    }

    /// At most `ANNOUNCER_LRU_CAP` hashes are tracked, none of them twice, each with at most
    /// `MAX_ANNOUNCERS_PER_HASH` announcers, none of them twice.
    pub proof fn law_tracking_is_bounded(&self)
        requires
            self.wf(),
        ensures
            self.entries().len() <= ANNOUNCER_LRU_CAP,
            lru::distinct(self.entries()),
            forall|hash: BlockHash| is_announcer_list(#[trigger] self.announced(hash)),
            self.entries().len() <= 256,
            forall|hash: BlockHash|
                (#[trigger] self.announced(hash)).len() <= 16 && self.announced(
                    hash,
                ).no_duplicates(),
    {
        assert forall|hash: BlockHash| is_announcer_list(#[trigger] self.announced(hash)) by {
            if lru::holds(self.entries(), hash) {
                let i = choose|i: int|
                    0 <= i < self.entries().len() && (#[trigger] self.entries()[i]).0 == hash;
                lru::lemma_value_at(self.entries(), i);
            }
        }
    }
}

/// Records that `peer` announced `hash`, which becomes the most recently used one. Where too many
/// hashes are tracked for a new one to come in, the one that was not used for longest is forgotten.
pub fn record_announcer(announcers: &mut Announcers, hash: BlockHash, peer: PeerId)
    requires
        old(announcers).wf(),
    ensures
        final(announcers).wf(),
        final(announcers).entries() == lru::put(
            old(announcers).entries(),
            ANNOUNCER_LRU_CAP as nat,
            hash,
            with_announcer(old(announcers).announced(hash), peer),
        ),
        final(announcers).announced(hash) == with_announcer(
            old(announcers).announced(hash),
            peer,
        ),
        final(announcers).announced(hash) == (if old(announcers).announced(hash).contains(peer)
            || old(announcers).announced(hash).len() >= 16 {
            old(announcers).announced(hash)
        } else {
            old(announcers).announced(hash).push(peer)
        }),
        final(announcers).entries() == lru::put(
            old(announcers).entries(),
            256,
            hash,
            final(announcers).announced(hash),
        ),
{
    proof {
        old(announcers).law_tracking_is_bounded();
    }
    let ghost before = announcers.entries();
    let ghost was = announcers.announced(hash);
    let list = get_or_insert_announcers(&mut announcers.map, hash);
    assert(list@ == was);
    if !contains_id(list, &peer) && list.len() < MAX_ANNOUNCERS_PER_HASH {
        proof {
            primitives::lemma_push_keeps_distinct(list@, peer);
        }
        list.push(peer);
    }
    proof {
        let now = with_announcer(was, peer);
        let after = announcers.entries();
        assert(after == lru::put(before, ANNOUNCER_LRU_CAP as nat, hash, now));
        lru::lemma_stored(before, ANNOUNCER_LRU_CAP as nat, hash, now, after);
        lru::law_stored_is_found(before, ANNOUNCER_LRU_CAP as nat, hash, now, after);
        assert forall|i: int| 0 <= i < after.len() implies is_announcer_list(
            (#[trigger] after[i]).1,
        ) by {
            if before.contains(after[i]) {
                let m = before.index_of(after[i]);
                assert(before[m] == after[i]);
            }
        }
    }
}

/// The peers that announced `hash` and can be asked for it, in the order in which they announced
/// it. The hash counts as used.
pub fn list_announcers_for<V, R>(
    announcers: &mut Announcers,
    registry: &Registry<V, R>,
    hash: BlockHash,
) -> (list: Vec<PeerId>)
    requires
        old(announcers).wf(),
        registry.wf(),
    ensures
        final(announcers).wf(),
        list@ == registry.v2_among(old(announcers).announced(hash)),
        forall|peer: PeerId| #[trigger]
            list@.contains(peer) <==> old(announcers).announced(hash).contains(peer)
                && registry@.contains_key(peer) && registry@[peer].version >= 2,
        final(announcers).entries() == if lru::holds(old(announcers).entries(), hash) {
            seq![(hash, old(announcers).announced(hash))] + lru::others(
                old(announcers).entries(),
                hash,
            )
        } else {
            old(announcers).entries()
        },
{
    let ghost before = announcers.entries();
    let ghost was = announcers.announced(hash);
    let mut list: Vec<PeerId> = Vec::new();
    match get_announcers(&mut announcers.map, &hash) {
        Some(raw) => {
            let mut i: usize = 0;
            assert(registry.v2_among(raw@.take(0)) =~= list@) by {
                reveal(Seq::filter);
            }
            while i < raw.len()
                invariant
                    registry.wf(),
                    i <= raw@.len(),
                    list@ == registry.v2_among(raw@.take(i as int)),
                decreases raw.len() - i,
            {
                let peer = raw[i];
                proof {
                    assert(raw@.take(i + 1).drop_last() =~= raw@.take(i as int));
                    reveal(Seq::filter);
                }
                if is_v2_peer(registry, peer) {
                    list.push(peer);
                }
                i = i + 1;
            }
            assert(raw@.take(i as int) =~= raw@);
            proof {
                let after = announcers.entries();
                lru::lemma_renewed(before, hash, was);
                lru::lemma_others(before, hash);
                old(announcers).law_tracking_is_bounded();
                assert forall|i: int| 0 <= i < after.len() implies is_announcer_list(
                    (#[trigger] after[i]).1,
                ) by {
                    if i > 0 {
                        let e = lru::others(before, hash)[i - 1];
                        assert(after[i] == e);
                        let m = before.index_of(e);
                        assert(before[m] == e);
                    }
                }
            }
        },
        None => {
            assert(registry.v2_among(was) =~= list@) by {
                reveal(Seq::filter);
            }
        },
    }
    proof {
        registry::law_v2_among_keeps_what_can_be_asked(registry, was);
    }
    list
}

/// A hash that is tracked stays so, with the announcers that it has, when another one is recorded,
/// unless all places are taken, the other hash is new, and it was not used for longest.
pub proof fn law_other_hashes_stay(
    before: &Announcers,
    after: &Announcers,
    hash: BlockHash,
    list: Seq<PeerId>,
    other: BlockHash,
)
    requires
        before.wf(),
        after.entries() == lru::put(before.entries(), ANNOUNCER_LRU_CAP as nat, hash, list),
        other != hash,
        lru::holds(before.entries(), hash) || before.entries().len() < ANNOUNCER_LRU_CAP
            || before.entries().last().0 != other,
    ensures
        after.announced(other) == before.announced(other),
{
    before.law_tracking_is_bounded();
    lru::law_only_the_oldest_is_forgotten(
        before.entries(),
        ANNOUNCER_LRU_CAP as nat,
        hash,
        list,
        other,
    );
}

/// A peer that announces a hash again changes nothing.
pub proof fn law_recording_is_idempotent(list: Seq<PeerId>, peer: PeerId)
    ensures
        with_announcer(with_announcer(list, peer), peer) == with_announcer(list, peer),
{
    broadcast use vstd::seq_lib::lemma_seq_contains_after_push;

}

/// The announcers that came first stay first.
pub proof fn law_earlier_announcers_stay_first(list: Seq<PeerId>, peer: PeerId)
    ensures
        list.is_prefix_of(with_announcer(list, peer)),
{
    assert(list =~= with_announcer(list, peer).take(list.len() as int));
}

/// An announcer is on the list of its hash, as long as there was room for it.
pub proof fn law_announcer_is_listed(list: Seq<PeerId>, peer: PeerId)
    requires
        list.len() < MAX_ANNOUNCERS_PER_HASH,
    ensures
        with_announcer(list, peer).contains(peer),
{
    broadcast use vstd::seq_lib::lemma_seq_contains_after_push;

}

/// An announcer comes at the end of the list of its hash and nothing else happens to the list, unless
/// it is there already or the list has sixteen announcers: then it stays as it is.
pub proof fn law_announcer_comes_last(list: Seq<PeerId>, peer: PeerId)
    ensures
        !list.contains(peer) && list.len() < 16 ==> with_announcer(list, peer) == list.push(peer),
        list.contains(peer) || list.len() >= 16 ==> with_announcer(list, peer) == list,
{
}

/// The announcers of a hash are the value that is tracked for it; of a hash that is not tracked there
/// are none.
pub proof fn law_untracked_hash_has_no_announcers(announcers: &Announcers, hash: BlockHash, at: int)
    requires
        announcers.wf(),
    ensures
        0 <= at < announcers.entries().len() && announcers.entries()[at].0 == hash
            ==> announcers.announced(hash) == announcers.entries()[at].1,
        (forall|i: int|
            0 <= i < announcers.entries().len() ==> (#[trigger] announcers.entries()[i]).0 != hash)
            ==> announcers.announced(hash).len() == 0,
{
    announcers.law_tracking_is_bounded();
    if 0 <= at < announcers.entries().len() && announcers.entries()[at].0 == hash {
        lru::lemma_value_at(announcers.entries(), at);
    }
}

}
