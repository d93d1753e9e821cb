//! How long fetches from a peer take.
//!
//! A duration is held as the 64 bits of its IEEE 754 double-precision representation, in seconds.
//! The bits say whether it is a duration at all and how two of them compare; the weighted mean of
//! two is worked out where they are numbers.

use vstd::prelude::*;

use crate::peer_map::PeerMap;
use crate::primitives::PeerId;
use crate::registry::{list_v2_peers, Registry};

verus! {

/// Fetches needed before the mean of a peer is worth acting on.
pub const MIN_LATENCY_SAMPLES: u32 = 5;

/// The bits of negative zero: the sign bit alone.
pub const SIGN_BIT: u64 = 0x8000_0000_0000_0000;

/// The bits of positive infinity. Those of every positive finite number are less.
pub const INFINITY_BITS: u64 = 0x7ff0_0000_0000_0000;

/// Whether bits stand for a finite number that is not less than zero.
pub open spec fn is_duration(bits: u64) -> bool {
    bits < INFINITY_BITS || bits == SIGN_BIT
}

/// The place of a number in the total order of all double-precision numbers: positive numbers go by
/// their bits, and negative ones come before them in the reverse order of theirs.
pub open spec fn total_order(bits: u64) -> int {
    if bits < SIGN_BIT {
        bits as int
    } else {
        SIGN_BIT - bits - 1
    }
}

fn total_order_key(bits: u64) -> (key: i64)
    ensures
        key == total_order(bits),
{
    if bits < SIGN_BIT {
        bits as i64
    } else {
        -1 - ((bits - SIGN_BIT) as i64)
    }
}

/// Whether the number of `a` comes before that of `b` in the total order of IEEE 754: a negative one
/// before a positive one, of two positive ones that with the smaller bits, and of two negative ones
/// that with the larger bits.
pub open spec fn is_faster(a: u64, b: u64) -> bool {
    ||| a >> 63 == 1 && b >> 63 == 0
    ||| a >> 63 == 0 && b >> 63 == 0 && a < b
    ||| a >> 63 == 1 && b >> 63 == 1 && a > b
}

/// The places of numbers are in the order of IEEE 754: negative before positive, positive ones by
/// their bits, negative ones by the reverse of theirs, and no two numbers at one place.
pub proof fn law_total_order_is_that_of_the_numbers(a: u64, b: u64)
    ensures
        total_order(a) < total_order(b) <==> {
            ||| a >> 63 == 1 && b >> 63 == 0
            ||| a >> 63 == 0 && b >> 63 == 0 && a < b
            ||| a >> 63 == 1 && b >> 63 == 1 && a > b
        },
        total_order(a) < total_order(b) <==> is_faster(a, b),
        total_order(a) == total_order(b) <==> a == b,
{
    assert(a >> 63 == (if a < 0x8000_0000_0000_0000u64 {
        0u64
    } else {
        1u64
    })) by (bit_vector);
    assert(b >> 63 == (if b < 0x8000_0000_0000_0000u64 {
        0u64
    } else {
        1u64
    })) by (bit_vector);
}

/// Bits stand for a duration just where their exponent is not the highest, which infinities and what
/// is no number have, and their sign is positive or everything else is zero.
pub proof fn law_durations_are_finite_and_not_negative(bits: u64)
    ensures
        is_duration(bits) <==> (bits >> 52) & 0x7ff != 0x7ff && (bits >> 63 == 0 || bits << 1 == 0),
{
    assert((bits < 0x7ff0_0000_0000_0000u64 || bits == 0x8000_0000_0000_0000u64) <==> (bits >> 52)
        & 0x7ff != 0x7ff && (bits >> 63 == 0 || bits << 1 == 0)) by (bit_vector);
}

/// What is known of the fetches from a peer.
#[derive(Debug, Clone, Copy)]
pub struct PeerLatency {
    /// Bits of the exponentially weighted mean duration.
    pub ewma: u64,
    pub samples: u32,
}

impl PeerLatency {
    /// Enough fetches were timed for the mean to mean anything.
    pub open spec fn is_trusted(self) -> bool {
        self.samples >= MIN_LATENCY_SAMPLES
    }
}

/// The latencies of all peers.
pub struct FetchLatencies {
    peers: PeerMap<PeerLatency>,
}

impl View for FetchLatencies {
    type V = Map<PeerId, PeerLatency>;

    closed spec fn view(&self) -> Map<PeerId, PeerLatency> {
        self.peers@
    }
}

impl FetchLatencies {
    /// No peer is listed twice.
    pub closed spec fn wf(&self) -> bool {
        self.peers.wf()
    }

    /// Whether enough is known of `peer` to act on.
    pub open spec fn trusts(&self, peer: PeerId) -> bool {
        self@.contains_key(peer) && self@[peer].is_trusted()
    }

    /// What is known of `peer`, if anything is.
    pub open spec fn known_of(&self, peer: PeerId) -> Option<PeerLatency> {
        if self@.contains_key(peer) {
            Some(self@[peer])
        } else {
            None
        }
    }

    /// Nothing measured yet.
    pub fn new() -> (latencies: Self)
        ensures
            latencies.wf(),
            latencies@ == Map::<PeerId, PeerLatency>::empty(),
    {
        FetchLatencies { peers: PeerMap::new() }
    }

    /// The mean so far, with which the next duration is to be blended.
    pub fn current_ewma(&self, peer: &PeerId) -> (ewma: Option<u64>)
        requires
            self.wf(),
        ensures
            ewma == if self@.contains_key(*peer) {
                Some(self@[*peer].ewma)
            } else {
                None
            },
    {
        match self.peers.get(peer) {
            Some(latency) => Some(latency.ewma),
            None => None,
        }
    }
}

/// What is known of a peer after a fetch that took `secs`. The samples are counted as far as they
/// can be.
pub open spec fn after_fetch(known: Option<PeerLatency>, secs: u64, blended: u64) -> PeerLatency {
    match known {
        Some(latency) if latency.samples > 0 => PeerLatency {
            ewma: blended,
            samples: if latency.samples == u32::MAX {
                u32::MAX
            } else {
                (latency.samples + 1) as u32
            },
        },
        _ => PeerLatency { ewma: secs, samples: 1 },
    }
}

/// What is known of a peer after some fetches, each with its duration and the mean blended with it.
pub open spec fn after_fetches(fetches: Seq<(u64, u64)>) -> Option<PeerLatency>
    decreases fetches.len(),
{
    if fetches.len() == 0 {
        None
    } else {
        let last = fetches.last();
        Some(after_fetch(after_fetches(fetches.drop_last()), last.0, last.1))
    }
}

/// A peer is acted on just when at least `MIN_LATENCY_SAMPLES` of its fetches were timed.
pub proof fn law_enough_fetches_are_trusted(fetches: Seq<(u64, u64)>)
    ensures
        after_fetches(fetches) matches Some(latency) ==> 0 < latency.samples <= fetches.len() && (
        latency.samples == fetches.len() || latency.samples == u32::MAX),
        (after_fetches(fetches) matches Some(latency) && latency.is_trusted()) == (fetches.len()
            >= MIN_LATENCY_SAMPLES),
    decreases fetches.len(),
{
    if fetches.len() > 0 {
        law_enough_fetches_are_trusted(fetches.drop_last());
    }
}

/// The first duration that is recorded of a peer is its mean, whatever it is blended with.
pub proof fn law_first_fetch_is_the_mean(secs: u64, blended: u64)
    ensures
        after_fetch(None, secs, blended).ewma == secs,
{
}

/// After every fetch but the first that is recorded of a peer, its mean is the blended one that was
/// handed in, however many fetches there were, and one more sample is counted as long as that can be.
pub proof fn law_later_fetches_take_the_blended_mean(known: PeerLatency, secs: u64, blended: u64)
    requires
        known.samples > 0,
    ensures
        after_fetch(Some(known), secs, blended).ewma == blended,
        after_fetch(Some(known), secs, blended).samples == (if known.samples < u32::MAX {
            known.samples + 1
        } else {
            u32::MAX as int
        }),
{
}

/// Before any fetch is counted, the duration itself is the mean, of one sample.
pub proof fn law_first_fetch_counts_as_it_is(known: Option<PeerLatency>, secs: u64, blended: u64)
    requires
        known matches Some(latency) ==> latency.samples == 0,
    ensures
        after_fetch(known, secs, blended).ewma == secs,
        after_fetch(known, secs, blended).samples == 1,
{
}

/// Over two or more fetches the mean is the blended one of the last; over one it is its duration.
pub proof fn law_mean_is_that_of_the_last_fetch(fetches: Seq<(u64, u64)>)
    requires
        fetches.len() >= 1,
    ensures
        after_fetches(fetches) is Some,
        fetches.len() >= 2 ==> after_fetches(fetches)->0.ewma == fetches[fetches.len() - 1].1,
        fetches.len() == 1 ==> after_fetches(fetches)->0.ewma == fetches[0].0,
        fetches.len() <= u32::MAX ==> after_fetches(fetches)->0.samples == fetches.len(),
{
    law_enough_fetches_are_trusted(fetches);
    if fetches.len() >= 2 {
        law_enough_fetches_are_trusted(fetches.drop_last());
    } else {
        assert(fetches.drop_last().len() == 0);
    }
}

/// The mean of a peer is acted on just from its fifth sample on.
pub proof fn law_five_samples_are_enough(latency: PeerLatency)
    ensures
        latency.is_trusted() <==> latency.samples >= 5,
{
}

/// Records how long a completed fetch from `peer` took. The first duration is the mean of its own;
/// later `blended` is, the weighted mean of `secs` and of the mean so far. What is no duration is
/// not recorded.
pub fn record_fetch_latency(
    latencies: &mut FetchLatencies,
    peer: PeerId,
    secs: u64,
    blended: u64,
)
    requires
        old(latencies).wf(),
    ensures
        final(latencies).wf(),
        !is_duration(secs) ==> final(latencies)@ == old(latencies)@,
        is_duration(secs) ==> final(latencies)@ == old(latencies)@.insert(
            peer,
            after_fetch(old(latencies).known_of(peer), secs, blended),
        ),
        secs >= 0x7ff0_0000_0000_0000 && secs != 0x8000_0000_0000_0000 ==> final(latencies)@ == old(
            latencies,
        )@,
        secs < 0x7ff0_0000_0000_0000 || secs == 0x8000_0000_0000_0000 ==> final(latencies)@ == old(
            latencies,
        )@.insert(peer, final(latencies)@[peer]) && final(latencies)@.contains_key(peer),
        (secs < 0x7ff0_0000_0000_0000 || secs == 0x8000_0000_0000_0000) && old(
            latencies,
        )@.contains_key(peer) && old(latencies)@[peer].samples > 0 ==> {
            &&& final(latencies)@[peer].ewma == blended
            &&& final(latencies)@[peer].samples == (if old(latencies)@[peer].samples < u32::MAX {
                old(latencies)@[peer].samples + 1
            } else {
                u32::MAX as int
            })
        },
        (secs < 0x7ff0_0000_0000_0000 || secs == 0x8000_0000_0000_0000) && !(old(
            latencies,
        )@.contains_key(peer) && old(latencies)@[peer].samples > 0) ==> {
            &&& final(latencies)@[peer].ewma == secs
            &&& final(latencies)@[peer].samples == 1
        },
{
    if secs >= INFINITY_BITS && secs != SIGN_BIT {
        return;
    }
    let samples: u32 = match latencies.peers.get(&peer) {
        Some(latency) => latency.samples,
        None => 0,
    };
    let ewma: u64 = if samples == 0 {
        secs
    } else {
        blended
    };
    latencies.peers.insert(peer, PeerLatency { ewma, samples: samples.saturating_add(1) });
}

/// Mean fetch latency of `peer`, once enough samples exist to mean anything.
pub fn peer_fetch_ewma(latencies: &FetchLatencies, peer: PeerId) -> (ewma: Option<u64>)
    requires
        latencies.wf(),
    ensures
        ewma == if latencies.trusts(peer) {
            Some(latencies@[peer].ewma)
        } else {
            None
        },
        ewma is Some <==> latencies@.contains_key(peer) && latencies@[peer].samples >= 5,
        ewma is Some ==> ewma->0 == latencies@[peer].ewma,
{
    match latencies.peers.get(&peer) {
        Some(latency) => {
            if latency.samples >= MIN_LATENCY_SAMPLES {
                Some(latency.ewma)
            } else {
                None
            }
        },
        None => None,
    }
}

/// Whether `peer` can be asked for a range of blocks and enough is known of its latency.
pub open spec fn is_measured<V, R>(
    latencies: &FetchLatencies,
    registry: &Registry<V, R>,
    peer: PeerId,
) -> bool {
    registry.is_v2(peer) && latencies.trusts(peer)
}

/// The fastest peer that can be asked for a range of blocks and of which enough is known. Of peers
/// that are equally fast it is any.
///
/// It is the one measured to be fastest, not just one of the known ones: most peers are slower than
/// the best, so a choice without regard to speed loses.
pub fn fastest_v2_peer<V, R>(
    latencies: &FetchLatencies,
    registry: &Registry<V, R>,
) -> (fastest: Option<PeerId>)
    requires
        latencies.wf(),
        registry.wf(),
    ensures
        fastest is None ==> forall|peer: PeerId| !#[trigger] is_measured(latencies, registry, peer),
        fastest matches Some(best) ==> is_measured(latencies, registry, best) && forall|
            peer: PeerId,
        | #[trigger]
            is_measured(latencies, registry, peer) ==> total_order(latencies@[best].ewma)
                <= total_order(latencies@[peer].ewma),
        fastest matches Some(best) ==> registry@.contains_key(best) && registry@[best].version >= 2
            && latencies@.contains_key(best) && latencies@[best].samples >= 5,
        forall|peer: PeerId| #[trigger]
            registry@.contains_key(peer) && registry@[peer].version >= 2
                && latencies@.contains_key(peer) && latencies@[peer].samples >= 5 ==> (
            fastest matches Some(best) && !is_faster(latencies@[peer].ewma, latencies@[best].ewma)),
{
    let peers = list_v2_peers(registry);
    let mut fastest: Option<(PeerId, i64)> = None;
    let mut i: usize = 0;
    while i < peers.len()
        invariant
            latencies.wf(),
            i <= peers@.len(),
            forall|peer: PeerId| #[trigger] peers@.contains(peer) == registry.is_v2(peer),
            fastest is None ==> forall|j: int|
                0 <= j < i ==> !latencies.trusts(#[trigger] peers@[j]),
            fastest matches Some((best, key)) ==> {
                &&& is_measured(latencies, registry, best)
                &&& key == total_order(latencies@[best].ewma)
                &&& forall|j: int|
                    0 <= j < i && latencies.trusts(#[trigger] peers@[j]) ==> key <= total_order(
                        latencies@[peers@[j]].ewma,
                    )
            },
        decreases peers.len() - i,
    {
        let peer = peers[i];
        assert(peers@.contains(peer));
        if let Some(ewma) = peer_fetch_ewma(latencies, peer) {
            let key: i64 = total_order_key(ewma);
            let better = match fastest {
                Some((_, best)) => key < best,
                None => true,
            };
            if better {
                fastest = Some((peer, key));
            }
        }
        i = i + 1;
    }
    proof {
        assert forall|peer: PeerId| #[trigger]
            is_measured(latencies, registry, peer) implies fastest matches Some((_, key)) && key
            <= total_order(latencies@[peer].ewma) by {
            assert(peers@.contains(peer));
            let j = peers@.index_of(peer);
            assert(latencies.trusts(peers@[j]));
        }
    }
    proof {
        assert forall|peer: PeerId| #[trigger]
            registry@.contains_key(peer) && registry@[peer].version >= 2
                && latencies@.contains_key(peer) && latencies@[peer].samples >= 5 implies (
        fastest matches Some((best, _)) && !is_faster(
            latencies@[peer].ewma,
            latencies@[best].ewma,
        )) by {
            assert(is_measured(latencies, registry, peer));
            let (best, _) = fastest.unwrap();
            law_total_order_is_that_of_the_numbers(latencies@[peer].ewma, latencies@[best].ewma);
        }
    }
    match fastest {
        Some((peer, _)) => Some(peer),
        None => None,
    }
}

/// One line of a snapshot of the latencies: the peer, the bits of its mean, and its samples.
pub type LatencyLine = (PeerId, u64, u32);

/// The lines are in the order of their means.
pub open spec fn is_by_latency(lines: Seq<LatencyLine>) -> bool {
    forall|i: int, j: int|
        0 <= i < j < lines.len() ==> total_order((#[trigger] lines[i]).1) <= total_order(
            (#[trigger] lines[j]).1,
        )
}

/// The line of a peer.
pub open spec fn line_of(latencies: &FetchLatencies, peer: PeerId) -> LatencyLine {
    (peer, latencies@[peer].ewma, latencies@[peer].samples)
}

/// Puts a line where it belongs.
fn insert_line(lines: &mut Vec<LatencyLine>, line: LatencyLine)
    requires
        is_by_latency(old(lines)@),
    ensures
        is_by_latency(final(lines)@),
        exists|at: int|
            0 <= at <= old(lines)@.len() && final(lines)@ == #[trigger] old(lines)@.insert(
                at,
                line,
            ),
{
    let key: i64 = total_order_key(line.1);
    let mut at: usize = 0;
    while at < lines.len() && total_order_key(lines[at].1) <= key
        invariant
            at <= lines@.len(),
            key == total_order(line.1),
            forall|j: int| 0 <= j < at ==> total_order((#[trigger] lines@[j]).1) <= key,
        decreases lines.len() - at,
    {
        at = at + 1;
    }
    let ghost before = lines@;
    lines.insert(at, line);
    proof {
        assert forall|i: int, j: int| 0 <= i < j < lines@.len() implies total_order(
            (#[trigger] lines@[i]).1,
        ) <= total_order((#[trigger] lines@[j]).1) by {
            let a = if i < at {
                i
            } else {
                i - 1
            };
            let b = if j < at {
                j
            } else {
                j - 1
            };
            if i != at {
                assert(lines@[i] == before[a]);
            }
            if j != at {
                assert(lines@[j] == before[b]);
            }
            if i == at && j > at {
                assert(total_order(before[at as int].1) <= total_order(before[b].1));
            }
        }
        assert(lines@ == before.insert(at as int, line));
    }
}

/// The latencies of all peers, fastest first. Peers that are equally fast come in any order.
pub fn fetch_latency_snapshot(latencies: &FetchLatencies) -> (lines: Vec<LatencyLine>)
    requires
        latencies.wf(),
    ensures
        is_by_latency(lines@),
        forall|i: int, j: int|
            0 <= i < j < lines@.len() ==> !is_faster((#[trigger] lines@[j]).1, (#[trigger] lines@[i]).1),
        forall|i: int|
            0 <= i < lines@.len() ==> latencies@.contains_key((#[trigger] lines@[i]).0)
                && lines@[i] == line_of(latencies, lines@[i].0),
        forall|i: int|
            0 <= i < lines@.len() ==> latencies@[(#[trigger] lines@[i]).0].ewma == lines@[i].1
                && latencies@[lines@[i].0].samples == lines@[i].2,
        forall|peer: PeerId| #[trigger]
            latencies@.contains_key(peer) ==> exists|i: int|
                0 <= i < lines@.len() && (#[trigger] lines@[i]).0 == peer,
        forall|i: int, j: int|
            0 <= i < j < lines@.len() ==> (#[trigger] lines@[i]).0 != (#[trigger] lines@[j]).0,
        forall|peer: PeerId| #[trigger]
            latencies@.contains_key(peer) ==> lines@.contains(line_of(latencies, peer)),
{
    let ids = latencies.peers.ids();
    let mut lines: Vec<LatencyLine> = Vec::new();
    let mut i: usize = 0;
    proof {
        latencies.peers.lemma_order();
    }
    while i < ids.len()
        invariant
            latencies.wf(),
            ids@ == latencies.peers.order(),
            ids@.no_duplicates(),
            i <= ids@.len(),
            is_by_latency(lines@),
            forall|j: int|
                0 <= j < lines@.len() ==> latencies@.contains_key((#[trigger] lines@[j]).0)
                    && lines@[j] == line_of(latencies, lines@[j].0) && ids@.take(
                    i as int,
                ).contains(lines@[j].0),
            forall|j: int, k: int|
                0 <= j < k < lines@.len() ==> (#[trigger] lines@[j]).0 != (#[trigger] lines@[k]).0,
            forall|j: int|
                0 <= j < i ==> lines@.contains(line_of(latencies, #[trigger] ids@[j])),
        decreases ids.len() - i,
    {
        let latency = latencies.peers.value_at(i);
        let peer = ids[i];
        let line = (peer, latency.ewma, latency.samples);
        let ghost before = lines@;
        let ghost seen = ids@.take(i as int);
        insert_line(&mut lines, line);
        proof {
            let at = choose|at: int|
                0 <= at <= before.len() && lines@ == #[trigger] before.insert(at, line);
            assert(ids@.take(i + 1) =~= seen.push(peer));
            assert(!seen.contains(peer)) by {
                if seen.contains(peer) {
                    let j = seen.index_of(peer);
                    assert(ids@[j] == ids@[i as int]);
                }
            }
            assert(ids@.take(i + 1)[i as int] == peer);
            assert forall|j: int| 0 <= j < lines@.len() implies latencies@.contains_key(
                (#[trigger] lines@[j]).0,
            ) && lines@[j] == line_of(latencies, lines@[j].0) && ids@.take(i + 1).contains(
                lines@[j].0,
            ) by {
                if j != at {
                    let a = if j < at {
                        j
                    } else {
                        j - 1
                    };
                    assert(lines@[j] == before[a]);
                    let m = seen.index_of(before[a].0);
                    assert(ids@.take(i + 1)[m] == before[a].0);
                }
            }
            assert forall|j: int, k: int| 0 <= j < k < lines@.len() implies (#[trigger] lines@[j]).0
                != (#[trigger] lines@[k]).0 by {
                let a = if j < at {
                    j
                } else {
                    j - 1
                };
                let b = if k < at {
                    k
                } else {
                    k - 1
                };
                if j != at {
                    assert(lines@[j] == before[a]);
                }
                if k != at {
                    assert(lines@[k] == before[b]);
                }
            }
            assert forall|j: int| 0 <= j < i + 1 implies lines@.contains(
                line_of(latencies, #[trigger] ids@[j]),
            ) by {
                if j == i {
                    assert(lines@[at] == line);
                } else {
                    let m = before.index_of(line_of(latencies, ids@[j]));
                    let c = if m < at {
                        m
                    } else {
                        m + 1
                    };
                    assert(lines@[c] == before[m]);
                }
            }
        }
        i = i + 1;
    }
    proof {
        assert forall|peer: PeerId| #[trigger] latencies@.contains_key(peer) implies lines@.contains(
            line_of(latencies, peer),
        ) by {
            assert(latencies.peers.order().contains(peer));
            let j = ids@.index_of(peer);
            assert(ids@[j] == peer);
        }
    }
    proof {
        assert forall|i: int, j: int| 0 <= i < j < lines@.len() implies !is_faster(
            (#[trigger] lines@[j]).1,
            (#[trigger] lines@[i]).1,
        ) by {
            law_total_order_is_that_of_the_numbers(lines@[j].1, lines@[i].1);
        }
        assert forall|peer: PeerId| #[trigger] latencies@.contains_key(peer) implies exists|i: int|
            0 <= i < lines@.len() && (#[trigger] lines@[i]).0 == peer by {
            let i = lines@.index_of(line_of(latencies, peer));
            assert(lines@[i].0 == peer);
        }
    }
    lines
}

}
