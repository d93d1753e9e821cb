//! The order in which peers are asked for a range of blocks, and when to stop asking.

use vstd::prelude::*;

use crate::primitives;
use crate::primitives::{contains_id, PeerId};

verus! {

/// The items of a list, each at the place of its first occurrence.
pub open spec fn first_occurrences(list: Seq<PeerId>) -> Seq<PeerId>
    decreases list.len(),
{
    if list.len() == 0 {
        seq![]
    } else {
        let before = first_occurrences(list.drop_last());
        if before.contains(list.last()) {
            before
        } else {
            before.push(list.last())
        }
    }
}

/// The start of a list, at most `n` items long.
pub open spec fn at_most(list: Seq<PeerId>, n: nat) -> Seq<PeerId> {
    if list.len() <= n {
        list
    } else {
        list.take(n as int)
    }
}

/// The peers that can be asked, in the order of preference, with repetitions.
pub open spec fn candidates(
    preferred: PeerId,
    announcers: Seq<PeerId>,
    v2_peers: Seq<PeerId>,
) -> Seq<PeerId> {
    let head = if v2_peers.contains(preferred) {
        seq![preferred]
    } else {
        seq![]
    };
    head + announcers + v2_peers
}

/// The peers to ask, in order: the preferred one if it can be asked, then those that announced the
/// block, then the others. No peer is asked twice, and at most `max_attempts` are asked.
pub open spec fn failover_plan(
    preferred: PeerId,
    announcers: Seq<PeerId>,
    v2_peers: Seq<PeerId>,
    max_attempts: nat,
) -> Seq<PeerId> {
    at_most(first_occurrences(candidates(preferred, announcers, v2_peers)), max_attempts)
}

/// The items of a list are those of its first occurrences, and none occurs twice there.
pub proof fn lemma_first_occurrences(list: Seq<PeerId>)
    ensures
        first_occurrences(list).no_duplicates(),
        forall|peer: PeerId| #[trigger]
            first_occurrences(list).contains(peer) == list.contains(peer),
    decreases list.len(),
{
    broadcast use vstd::seq_lib::lemma_seq_contains_after_push;

    if list.len() > 0 {
        let init = list.drop_last();
        lemma_first_occurrences(init);
        assert(list =~= init.push(list.last()));
        if !first_occurrences(init).contains(list.last()) {
            primitives::lemma_push_keeps_distinct(first_occurrences(init), list.last());
        }
    }
}

proof fn lemma_extend_at_most(list: Seq<PeerId>, item: PeerId, n: nat)
    ensures
        at_most(first_occurrences(list.push(item)), n) == ({
            let start = at_most(first_occurrences(list), n);
            if start.len() >= n || start.contains(item) {
                start
            } else {
                start.push(item)
            }
        }),
{
    assert(list.push(item).drop_last() =~= list);
    let all = first_occurrences(list);
    let start = at_most(all, n);
    if all.len() > n {
        assert(at_most(first_occurrences(list.push(item)), n) =~= start);
    } else if all.len() == n {
        assert(at_most(first_occurrences(list.push(item)), n) =~= start);
    }
}

fn append_new(
    plan: &mut Vec<PeerId>,
    source: &Vec<PeerId>,
    max_attempts: usize,
    Ghost(before): Ghost<Seq<PeerId>>,
)
    requires
        old(plan)@ == at_most(first_occurrences(before), max_attempts as nat),
    ensures
        final(plan)@ == at_most(first_occurrences(before + source@), max_attempts as nat),
{
    let mut i: usize = 0;
    assert(before + source@.take(0) =~= before);
    while i < source.len()
        invariant
            i <= source@.len(),
            plan@ == at_most(
                first_occurrences(before + source@.take(i as int)),
                max_attempts as nat,
            ),
        decreases source.len() - i,
    {
        let peer = source[i];
        proof {
            let done = before + source@.take(i as int);
            assert(before + source@.take(i + 1) =~= done.push(peer));
            lemma_extend_at_most(done, peer, max_attempts as nat);
        }
        if plan.len() < max_attempts && !contains_id(plan, &peer) {
            plan.push(peer);
        }
        i = i + 1;
    }
    assert(source@.take(i as int) =~= source@);
}

/// Works out which peers to ask, in which order.
///
/// `announcers` should hold peers that can be asked only; where it is empty the plan is made of
/// `v2_peers` alone.
pub fn plan_v2_failover_peers(
    preferred: PeerId,
    announcers: Vec<PeerId>,
    v2_peers: Vec<PeerId>,
    max_attempts: usize,
) -> (plan: Vec<PeerId>)
    ensures
        plan@ == failover_plan(preferred, announcers@, v2_peers@, max_attempts as nat),
{
    let mut plan: Vec<PeerId> = Vec::new();
    if max_attempts == 0 {
        proof {
            let all = first_occurrences(candidates(preferred, announcers@, v2_peers@));
            assert(at_most(all, 0) =~= plan@);
        }
        return plan;
    }
    let ghost mut head: Seq<PeerId> = seq![];
    if contains_id(&v2_peers, &preferred) {
        plan.push(preferred);
        proof {
            head = seq![preferred];
            reveal_with_fuel(first_occurrences, 2);
            assert(first_occurrences(head) =~= seq![preferred]);
        }
    }
    append_new(&mut plan, &announcers, max_attempts, Ghost(head));
    append_new(&mut plan, &v2_peers, max_attempts, Ghost(head + announcers@));
    plan
}

/// No peer is asked twice, and no more than `max_attempts` are asked.
pub proof fn law_plan_is_distinct_and_bounded(
    preferred: PeerId,
    announcers: Seq<PeerId>,
    v2_peers: Seq<PeerId>,
    max_attempts: nat,
)
    ensures
        failover_plan(preferred, announcers, v2_peers, max_attempts).no_duplicates(),
        failover_plan(preferred, announcers, v2_peers, max_attempts).len() <= max_attempts,
{
    let all = first_occurrences(candidates(preferred, announcers, v2_peers));
    lemma_first_occurrences(candidates(preferred, announcers, v2_peers));
    assert forall|i: int, j: int|
        0 <= i < at_most(all, max_attempts).len() && 0 <= j < at_most(all, max_attempts).len()
            && i != j implies at_most(all, max_attempts)[i] != at_most(all, max_attempts)[j] by {
        assert(all[i] != all[j]);
    }
}

/// Only peers that can be asked are asked, provided that the announcers are among them.
pub proof fn law_plan_asks_v2_peers_only(
    preferred: PeerId,
    announcers: Seq<PeerId>,
    v2_peers: Seq<PeerId>,
    max_attempts: nat,
    peer: PeerId,
)
    requires
        forall|p: PeerId| announcers.contains(p) ==> #[trigger] v2_peers.contains(p),
        failover_plan(preferred, announcers, v2_peers, max_attempts).contains(peer),
    ensures
        v2_peers.contains(peer),
{
    let list = candidates(preferred, announcers, v2_peers);
    let all = first_occurrences(list);
    lemma_first_occurrences(list);
    let plan = at_most(all, max_attempts);
    let i = plan.index_of(peer);
    assert(all[i] == peer);
    assert(all.contains(peer));
    let j = list.index_of(peer);
    let h = if v2_peers.contains(preferred) {
        1int
    } else {
        0int
    };
    if j < h {
    } else if j < h + announcers.len() {
        assert(announcers[j - h] == peer);
        assert(announcers.contains(peer));
    } else {
        assert(v2_peers[j - h - announcers.len()] == peer);
    }
}

/// Where there are attempts enough for all peers that can be asked, all of them are asked.
pub proof fn law_plan_is_complete(
    preferred: PeerId,
    announcers: Seq<PeerId>,
    v2_peers: Seq<PeerId>,
    max_attempts: nat,
    peer: PeerId,
)
    requires
        first_occurrences(candidates(preferred, announcers, v2_peers)).len() <= max_attempts,
        announcers.contains(peer) || v2_peers.contains(peer),
    ensures
        failover_plan(preferred, announcers, v2_peers, max_attempts).contains(peer),
{
    let list = candidates(preferred, announcers, v2_peers);
    lemma_first_occurrences(list);
    let h = if v2_peers.contains(preferred) {
        1int
    } else {
        0int
    };
    if announcers.contains(peer) {
        assert(list[h + announcers.index_of(peer)] == peer);
    } else {
        assert(list[h + announcers.len() + v2_peers.index_of(peer)] == peer);
    }
}

proof fn lemma_first_occurrences_start(list: Seq<PeerId>)
    requires
        list.len() > 0,
    ensures
        first_occurrences(list).len() > 0,
        first_occurrences(list)[0] == list[0],
    decreases list.len(),
{
    if list.len() > 1 {
        lemma_first_occurrences_start(list.drop_last());
    } else {
        reveal_with_fuel(first_occurrences, 2);
    }
}

/// A preferred peer that can be asked is asked first. Otherwise an announcer is, if there is one.
pub proof fn law_preferred_peer_leads(
    preferred: PeerId,
    announcers: Seq<PeerId>,
    v2_peers: Seq<PeerId>,
    max_attempts: nat,
)
    requires
        max_attempts > 0,
    ensures
        v2_peers.contains(preferred) ==> ({
            let plan = failover_plan(preferred, announcers, v2_peers, max_attempts);
            plan.len() > 0 && plan[0] == preferred
        }),
        !v2_peers.contains(preferred) && announcers.len() > 0 ==> ({
            let plan = failover_plan(preferred, announcers, v2_peers, max_attempts);
            plan.len() > 0 && plan[0] == announcers[0]
        }),
{
    let list = candidates(preferred, announcers, v2_peers);
    if list.len() > 0 {
        lemma_first_occurrences_start(list);
    }
}

/// The plan is empty only where nothing can be asked, or nothing may be.
pub proof fn law_plan_is_empty_only_without_peers(
    preferred: PeerId,
    announcers: Seq<PeerId>,
    v2_peers: Seq<PeerId>,
    max_attempts: nat,
)
    ensures
        failover_plan(preferred, announcers, v2_peers, max_attempts).len() == 0 <==> max_attempts
            == 0 || announcers.len() == 0 && v2_peers.len() == 0,
{
    let list = candidates(preferred, announcers, v2_peers);
    if list.len() > 0 {
        lemma_first_occurrences_start(list);
    }
    if v2_peers.contains(preferred) {
        assert(v2_peers.len() > 0);
    }
}

proof fn lemma_first_occurrences_prefix(a: Seq<PeerId>, b: Seq<PeerId>)
    ensures
        first_occurrences(a).is_prefix_of(first_occurrences(a + b)),
    decreases b.len(),
{
    if b.len() == 0 {
        assert(a + b =~= a);
    } else {
        assert((a + b).drop_last() =~= a + b.drop_last());
        lemma_first_occurrences_prefix(a, b.drop_last());
    }
}

/// Peers that announced the block are asked before those that did not, but for the preferred one.
pub proof fn law_announcers_come_before_others(
    preferred: PeerId,
    announcers: Seq<PeerId>,
    v2_peers: Seq<PeerId>,
    max_attempts: nat,
    announcer: PeerId,
    at: int,
)
    requires
        announcers.contains(announcer),
        0 <= at < failover_plan(preferred, announcers, v2_peers, max_attempts).len(),
        !announcers.contains(failover_plan(preferred, announcers, v2_peers, max_attempts)[at]),
        failover_plan(preferred, announcers, v2_peers, max_attempts)[at] != preferred,
    ensures
        exists|i: int|
            0 <= i < at && #[trigger] failover_plan(
                preferred,
                announcers,
                v2_peers,
                max_attempts,
            )[i] == announcer,
{
    let head = if v2_peers.contains(preferred) {
        seq![preferred]
    } else {
        seq![]
    };
    let first = head + announcers;
    let all = first_occurrences(first + v2_peers);
    let plan = failover_plan(preferred, announcers, v2_peers, max_attempts);
    lemma_first_occurrences_prefix(first, v2_peers);
    lemma_first_occurrences(first);
    lemma_first_occurrences(first + v2_peers);
    let early = first_occurrences(first);
    assert(first[head.len() + announcers.index_of(announcer)] == announcer);
    assert(early.contains(announcer));
    let i = early.index_of(announcer);
    assert(all[i] == announcer);
    assert(plan[at] == all[at]);
    if at < early.len() {
        assert(early[at] == all[at]);
        assert(early.contains(early[at]));
        let j = first.index_of(early[at]);
        if j >= head.len() {
            assert(announcers[j - head.len()] == early[at]);
        }
        assert(false);
    }
    assert(plan[i] == announcer);
}

/// Peer number `i` of a plan comes up first at place `k` of the way, where everything before it is
/// in the plan already, ahead of it.
pub open spec fn comes_up_at(way: Seq<PeerId>, plan: Seq<PeerId>, i: int, k: int) -> bool {
    &&& 0 <= k < way.len()
    &&& way[k] == plan[i]
    &&& forall|j: int|
        0 <= j < k ==> #[trigger] way[j] != plan[i] && plan.take(i).contains(way[j])
}

/// Peer number `i` of a plan stands where it comes up first on the way.
pub open spec fn stands_in_turn(way: Seq<PeerId>, plan: Seq<PeerId>, i: int) -> bool {
    exists|k: int| #[trigger] comes_up_at(way, plan, i, k)
}

proof fn lemma_first_occurrences_are_greedy(list: Seq<PeerId>, i: int)
    requires
        0 <= i < first_occurrences(list).len(),
    ensures
        exists|k: int| #[trigger] comes_up_at(list, first_occurrences(list), i, k),
    decreases list.len(),
{
    let init = list.drop_last();
    let before = first_occurrences(init);
    let all = first_occurrences(list);
    lemma_first_occurrences(init);
    if i < before.len() {
        lemma_first_occurrences_are_greedy(init, i);
        let k = choose|k: int| #[trigger] comes_up_at(init, before, i, k);
        assert(list[k] == init[k]);
        assert(all[i] == before[i]);
        assert(all.take(i) =~= before.take(i));
        assert forall|j: int| 0 <= j < k implies #[trigger] list[j] != all[i] && all.take(
            i,
        ).contains(list[j]) by {
            assert(list[j] == init[j]);
        }
        assert(comes_up_at(list, all, i, k));
    } else {
        let k = list.len() - 1;
        assert(all.take(i) =~= before);
        assert(list[k] == all[i]);
        assert forall|j: int| 0 <= j < k implies #[trigger] list[j] != all[i] && all.take(
            i,
        ).contains(list[j]) by {
            assert(list[j] == init[j]);
            assert(init.contains(init[j]));
            assert(before.contains(init[j]));
        }
        assert(comes_up_at(list, all, i, k));
    }
}

/// The plan goes through the preferred peer, if it can be asked, then the announcers, then the other
/// peers that can be asked, in this order. Each peer of the plan stands where it comes up first on
/// that way, with everything that came up before it already in the plan; none stands there twice; and
/// the plan stops short of the end only where it has as many peers as may be asked.
pub proof fn law_plan_follows_the_order_of_preference(
    preferred: PeerId,
    announcers: Seq<PeerId>,
    v2_peers: Seq<PeerId>,
    max_attempts: nat,
    way: Seq<PeerId>,
)
    requires
        way == (if v2_peers.contains(preferred) {
            seq![preferred]
        } else {
            seq![]
        }) + announcers + v2_peers,
    ensures
        failover_plan(preferred, announcers, v2_peers, max_attempts).no_duplicates(),
        failover_plan(preferred, announcers, v2_peers, max_attempts).len() <= max_attempts,
        failover_plan(preferred, announcers, v2_peers, max_attempts).len() < max_attempts
            ==> forall|k: int|
            0 <= k < way.len() ==> failover_plan(
                preferred,
                announcers,
                v2_peers,
                max_attempts,
            ).contains(#[trigger] way[k]),
        forall|i: int|
            0 <= i < failover_plan(preferred, announcers, v2_peers, max_attempts).len()
                ==> #[trigger] stands_in_turn(
                way,
                failover_plan(preferred, announcers, v2_peers, max_attempts),
                i,
            ),
{
    let plan = failover_plan(preferred, announcers, v2_peers, max_attempts);
    let all = first_occurrences(way);
    law_plan_is_distinct_and_bounded(preferred, announcers, v2_peers, max_attempts);
    lemma_first_occurrences(way);
    assert forall|i: int| 0 <= i < plan.len() implies #[trigger] stands_in_turn(way, plan, i) by {
        lemma_first_occurrences_are_greedy(way, i);
        let k = choose|k: int| #[trigger] comes_up_at(way, all, i, k);
        assert(plan[i] == all[i]);
        assert(plan.take(i) =~= all.take(i));
        assert(comes_up_at(way, plan, i, k));
    }
    if plan.len() < max_attempts {
        assert forall|k: int| 0 <= k < way.len() implies plan.contains(#[trigger] way[k]) by {
            assert(way.contains(way[k]));
            assert(all.contains(way[k]));
        }
    }
}

/// One plan only goes that way.
pub proof fn law_order_of_preference_leaves_no_choice(
    way: Seq<PeerId>,
    max_attempts: nat,
    first: Seq<PeerId>,
    second: Seq<PeerId>,
)
    requires
        first.no_duplicates(),
        second.no_duplicates(),
        first.len() <= max_attempts,
        second.len() <= max_attempts,
        first.len() < max_attempts ==> forall|k: int|
            0 <= k < way.len() ==> first.contains(#[trigger] way[k]),
        second.len() < max_attempts ==> forall|k: int|
            0 <= k < way.len() ==> second.contains(#[trigger] way[k]),
        forall|i: int|
            0 <= i < first.len() ==> #[trigger] stands_in_turn(way, first, i),
        forall|i: int|
            0 <= i < second.len() ==> #[trigger] stands_in_turn(way, second, i),
    ensures
        first == second,
{
    lemma_same_start(way, first, second, if first.len() <= second.len() {
        first.len()
    } else {
        second.len()
    });
    if first.len() < second.len() {
        lemma_no_longer(way, first, second);
    } else if second.len() < first.len() {
        assert(second.take(second.len() as int) =~= first.take(second.len() as int));
        lemma_no_longer(way, second, first);
    }
    assert(first.take(first.len() as int) =~= first);
    assert(second.take(second.len() as int) =~= second);
}

proof fn lemma_same_start(way: Seq<PeerId>, first: Seq<PeerId>, second: Seq<PeerId>, n: nat)
    requires
        first.no_duplicates(),
        second.no_duplicates(),
        n <= first.len(),
        n <= second.len(),
        forall|i: int|
            0 <= i < first.len() ==> #[trigger] stands_in_turn(way, first, i),
        forall|i: int|
            0 <= i < second.len() ==> #[trigger] stands_in_turn(way, second, i),
    ensures
        first.take(n as int) == second.take(n as int),
    decreases n,
{
    if n > 0 {
        let i = n - 1;
        lemma_same_start(way, first, second, i as nat);
        assert(stands_in_turn(way, first, i) && stands_in_turn(way, second, i));
        let a = choose|k: int| #[trigger] comes_up_at(way, first, i, k);
        let b = choose|k: int| #[trigger] comes_up_at(way, second, i, k);
        if a < b {
            assert(way[a] == first[i]);
            assert(second.take(i).contains(way[a]));
            let m = second.take(i).index_of(way[a]);
            assert(first.take(i)[m] == first[i]);
            assert(first[m] == first[i]);
        } else if b < a {
            assert(way[b] == second[i]);
            assert(first.take(i).contains(way[b]));
            let m = first.take(i).index_of(way[b]);
            assert(second.take(i)[m] == second[i]);
            assert(second[m] == second[i]);
        }
        assert(first[i] == second[i]);
        assert(first.take(n as int) =~= first.take(i).push(first[i]));
        assert(second.take(n as int) =~= second.take(i).push(second[i]));
    }
}

proof fn lemma_no_longer(way: Seq<PeerId>, short: Seq<PeerId>, long: Seq<PeerId>)
    requires
        long.no_duplicates(),
        short.len() <= long.len(),
        short.take(short.len() as int) == long.take(short.len() as int),
        forall|k: int| 0 <= k < way.len() ==> short.contains(#[trigger] way[k]),
        forall|i: int|
            0 <= i < long.len() ==> #[trigger] stands_in_turn(way, long, i),
    ensures
        long.len() == short.len(),
{
    if short.len() < long.len() {
        let i = short.len() as int;
        assert(stands_in_turn(way, long, i));
        let k = choose|k: int| #[trigger] comes_up_at(way, long, i, k);
        assert(short.contains(way[k]));
        let m = short.index_of(way[k]);
        assert(short.take(i)[m] == short[m]);
        assert(long.take(i)[m] == long[m]);
        assert(long[m] == long[i]);
    }
}

}
