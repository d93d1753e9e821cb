//! Votes that go to peers: those pending when a peer comes, and those that are broadcast.

use std::sync::Arc;

use tokio::sync::mpsc::UnboundedSender;
use vstd::prelude::*;

use crate::channel::BscCommand;
use crate::primitives::{contains_id, same_bytes, u256_to_u128, PeerId, U256};
use crate::proxyed::{is_proxyed_peer, ProxyedPeers};
use crate::registry::{PeerEntry, Registry, RANGE_VERSION};

verus! {

/// Most votes that go into one packet for a new peer, so that the encoded packet stays well under
/// the frame limit of the transport whatever the pool holds.
pub const MAX_SYNC_VOTES: usize = 32 * 1024;

/// How far the total difficulty of a peer may be from the local one for votes to go to it.
pub const DELTA_TD_THRESHOLD: u128 = 1000;

/// The votes of a pool that go into one packet: the first `MAX_SYNC_VOTES`.
pub open spec fn packed<V>(votes: Seq<V>) -> Seq<V> {
    if votes.len() <= MAX_SYNC_VOTES {
        votes
    } else {
        votes.take(MAX_SYNC_VOTES as int)
    }
}

/// The packet of pending votes for a new peer. There is none where no votes are pending.
pub fn pending_votes_packet<V>(votes: Vec<V>) -> (packet: Option<Arc<Vec<V>>>)
    ensures
        packet is None == (votes@.len() == 0),
        packet matches Some(p) ==> p@ == packed(votes@),
        packet matches Some(p) ==> p@ == (if votes@.len() <= 32768 {
            votes@
        } else {
            votes@.take(32768)
        }),
{
    let mut votes = votes;
    if votes.is_empty() {
        return None;
    }
    if votes.len() > MAX_SYNC_VOTES {
        votes.truncate(MAX_SYNC_VOTES);
    }
    Some(Arc::new(votes))
}

/// A packet for a new peer is bounded, and what it holds are the first of the pending votes.
pub proof fn law_sync_packet_is_bounded<V>(votes: Seq<V>)
    ensures
        packed(votes).len() <= MAX_SYNC_VOTES,
        packed(votes).is_prefix_of(votes),
        votes.len() <= MAX_SYNC_VOTES ==> packed(votes) == votes,
        packed(votes).len() == (if votes.len() <= 32768 {
            votes.len()
        } else {
            32768
        }),
        forall|i: int| 0 <= i < packed(votes).len() ==> #[trigger] packed(votes)[i] == votes[i],
{
}

/// `command` is what a new peer is to be sent of the pending votes: one packet, or nothing where
/// there are none.
pub open spec fn is_sync_command<V, R>(command: Option<BscCommand<V, R>>, votes: Seq<V>) -> bool {
    match command {
        None => votes.len() == 0,
        Some(BscCommand::Votes(packet)) => votes.len() > 0 && packet@ == packed(votes),
        Some(BscCommand::GetBlocksByRange(_, _)) => false,
    }
}

/// What a new peer is to be sent of the pending votes.
pub fn sync_pending_votes_to_peer<V, R>(votes: Vec<V>) -> (command: Option<BscCommand<V, R>>)
    ensures
        is_sync_command(command, votes@),
        command is None <==> votes@.len() == 0,
        command matches Some(c) ==> c matches BscCommand::Votes(packet) && packet@ == (
        if votes@.len() <= 32768 {
            votes@
        } else {
            votes@.take(32768)
        }),
{
    match pending_votes_packet(votes) {
        None => None,
        Some(packet) => Some(BscCommand::Votes(packet)),
    }
}

/// Registers a peer with the channel to its stream and the version that it negotiated, and says
/// what it is to be sent, on that channel, of the votes that are pending. One that was registered
/// before has its entry replaced, as a reconnect may negotiate another version.
pub fn register_peer<V, R>(
    registry: &mut Registry<V, R>,
    peer: PeerId,
    tx: UnboundedSender<BscCommand<V, R>>,
    version: u8,
    pending_votes: Vec<V>,
) -> (sync: Option<(UnboundedSender<BscCommand<V, R>>, BscCommand<V, R>)>)
    requires
        old(registry).wf(),
    ensures
        final(registry).wf(),
        final(registry)@ == old(registry)@.insert(peer, (PeerEntry { tx, version })),
        final(registry).is_v2(peer) == (version >= RANGE_VERSION),
        match sync {
            Some((channel, command)) => channel == tx && is_sync_command(
                Some(command),
                pending_votes@,
            ),
            None => is_sync_command::<V, R>(None, pending_votes@),
        },
        sync is None <==> pending_votes@.len() == 0,
        sync matches Some((channel, command)) ==> channel == tx && (command matches BscCommand::Votes(
            packet,
        ) && packet@ == (if pending_votes@.len() <= 32768 {
            pending_votes@
        } else {
            pending_votes@.take(32768)
        })),
{
    let tx_for_sync = tx.clone();
    registry.insert(peer, PeerEntry { tx, version });
    match sync_pending_votes_to_peer(pending_votes) {
        Some(command) => Some((tx_for_sync, command)),
        None => None,
    }
}

/// Whether votes go to a peer. They go to validator and proxyed peers in any case, and to a peer
/// whose total difficulty is within the threshold of the local one. A total difficulty that is not
/// known, or too large to be compared, keeps no votes back.
pub open spec fn allows_votes(
    is_evn_or_proxyed: bool,
    local_best_td: Option<u128>,
    peer_best_td: Option<U256>,
    delta_td_threshold: u128,
) -> bool {
    ||| is_evn_or_proxyed
    ||| local_best_td is None
    ||| peer_best_td is None
    ||| peer_best_td->0.value() > u128::MAX
    ||| -delta_td_threshold <= local_best_td->0 - peer_best_td->0.value() <= delta_td_threshold
}

/// Decides whether votes go to a peer.
pub fn should_allow_vote_broadcast(
    is_evn_or_proxyed: bool,
    local_best_td: Option<u128>,
    peer_best_td: Option<U256>,
    delta_td_threshold: u128,
) -> (allow: bool)
    ensures
        allow == allows_votes(is_evn_or_proxyed, local_best_td, peer_best_td, delta_td_threshold),
        is_evn_or_proxyed ==> allow,
        local_best_td is None ==> allow,
        peer_best_td is None ==> allow,
        peer_best_td matches Some(td) && td.value() > u128::MAX ==> allow,
        !is_evn_or_proxyed ==> (local_best_td matches Some(local) ==> (peer_best_td matches Some(td)
            ==> (td.value() <= u128::MAX ==> allow == (local <= td.value() + delta_td_threshold
            && td.value() <= local + delta_td_threshold)))),
{
    if is_evn_or_proxyed {
        return true;
    }
    let local_td: u128 = match local_best_td {
        Some(td) => td,
        None => return true,
    };
    let peer_td: u128 = match peer_best_td {
        Some(td) => match u256_to_u128(td) {
            Some(td) => td,
            None => return true,
        },
        None => return true,
    };
    let distance: u128 = if local_td > peer_td {
        local_td - peer_td
    } else {
        peer_td - local_td
    };
    distance <= delta_td_threshold
}

/// What a connected peer says of its head.
#[derive(Debug, Clone, Copy)]
pub struct PeerHead {
    pub peer: PeerId,
    pub best_td: Option<U256>,
}

/// The total difficulty that `peer` last gave, if it is connected and gave one.
pub open spec fn best_td_of(heads: Seq<PeerHead>, peer: PeerId) -> Option<U256>
    decreases heads.len(),
{
    if heads.len() == 0 {
        None
    } else if heads.last().peer == peer {
        heads.last().best_td
    } else {
        best_td_of(heads.drop_last(), peer)
    }
}

/// Looks the total difficulty of `peer` up.
pub fn find_best_td(heads: &Vec<PeerHead>, peer: &PeerId) -> (td: Option<U256>)
    ensures
        td == best_td_of(heads@, *peer),
{
    let mut n: usize = heads.len();
    assert(heads@.take(n as int) =~= heads@);
    while n > 0
        invariant
            n <= heads@.len(),
            best_td_of(heads@.take(n as int), *peer) == best_td_of(heads@, *peer),
        decreases n,
    {
        let ghost shorter = heads@.take(n as int);
        assert(shorter.drop_last() =~= heads@.take(n - 1));
        if same_bytes(&heads[n - 1].peer, peer) {
            return heads[n - 1].best_td;
        }
        n = n - 1;
    }
    None
}

/// What decides to which peers votes go.
pub struct VotePolicy<'a> {
    pub evn_peers: &'a Vec<PeerId>,
    pub proxyed: &'a ProxyedPeers,
    pub local_best_td: Option<u128>,
    pub heads: &'a Vec<PeerHead>,
}

impl<'a> VotePolicy<'a> {
    /// Whether votes go to `peer`.
    pub open spec fn allows(self, peer: PeerId) -> bool {
        allows_votes(
            self.evn_peers@.contains(peer) || self.proxyed@.contains(peer),
            self.local_best_td,
            best_td_of(self.heads@, peer),
            DELTA_TD_THRESHOLD,
        )
    }

    /// Decides whether votes go to `peer`.
    pub fn check(&self, peer: &PeerId) -> (allow: bool)
        ensures
            allow == self.allows(*peer),
    {
        should_allow_vote_broadcast(
            contains_id(self.evn_peers, peer) || is_proxyed_peer(self.proxyed, peer),
            self.local_best_td,
            find_best_td(self.heads, peer),
            DELTA_TD_THRESHOLD,
        )
    }
}

/// A command that is to be sent to a peer.
#[verifier::reject_recursive_types(V)]
#[verifier::reject_recursive_types(R)]
pub struct PeerMessage<V, R> {
    pub peer: PeerId,
    pub tx: UnboundedSender<BscCommand<V, R>>,
    pub command: BscCommand<V, R>,
}

impl<V, R> PeerMessage<V, R> {
    /// The peer, with the channel to its stream.
    pub open spec fn target(self) -> (PeerId, UnboundedSender<BscCommand<V, R>>) {
        (self.peer, self.tx)
    }

    /// What is to be sent are `votes`.
    pub open spec fn carries(self, votes: Seq<V>) -> bool {
        self.command matches BscCommand::Votes(packet) && packet@ == votes
    }
}

/// The peers of a snapshot of the registry to which votes go, with their channels.
pub open spec fn recipients<V, R>(
    targets: Seq<(PeerId, UnboundedSender<BscCommand<V, R>>)>,
    policy: VotePolicy,
) -> Seq<(PeerId, UnboundedSender<BscCommand<V, R>>)>
    decreases targets.len(),
{
    if targets.len() == 0 {
        seq![]
    } else {
        let before = recipients(targets.drop_last(), policy);
        if policy.allows(targets.last().0) {
            before.push(targets.last())
        } else {
            before
        }
    }
}

/// The peers of a list of messages, with their channels.
pub open spec fn addressed<V, R>(messages: Seq<PeerMessage<V, R>>) -> Seq<
    (PeerId, UnboundedSender<BscCommand<V, R>>),
> {
    messages.map_values(|m: PeerMessage<V, R>| m.target())
}

/// What is to be sent for votes to reach all peers that the policy allows: one message to each of
/// them, in the order of the snapshot, and none to the others.
pub fn broadcast_votes<V, R>(
    targets: &Vec<(PeerId, UnboundedSender<BscCommand<V, R>>)>,
    votes: Vec<V>,
    policy: &VotePolicy,
) -> (messages: Vec<PeerMessage<V, R>>)
    ensures
        addressed(messages@) == recipients(targets@, *policy),
        forall|i: int| 0 <= i < messages@.len() ==> (#[trigger] messages@[i]).carries(votes@),
        messages@.len() == recipients(targets@, *policy).len(),
        forall|i: int|
            0 <= i < messages@.len() ==> {
                &&& (#[trigger] messages@[i]).peer == recipients(targets@, *policy)[i].0
                &&& messages@[i].tx == recipients(targets@, *policy)[i].1
                &&& messages@[i].command matches BscCommand::Votes(packet) && packet@ == votes@
            },
{
    let packet: Arc<Vec<V>> = Arc::new(votes);
    let mut messages: Vec<PeerMessage<V, R>> = Vec::new();
    let mut i: usize = 0;
    assert(addressed(messages@) =~= recipients(targets@.take(0), *policy));
    while i < targets.len()
        invariant
            i <= targets@.len(),
            packet@ == votes@,
            addressed(messages@) == recipients(targets@.take(i as int), *policy),
            forall|i: int|
                0 <= i < messages@.len() ==> (#[trigger] messages@[i]).carries(votes@),
        decreases targets.len() - i,
    {
        let peer: PeerId = targets[i].0;
        proof {
            let more = targets@.take(i + 1);
            assert(more.drop_last() =~= targets@.take(i as int));
            assert(more.last() == targets@[i as int]);
        }
        if policy.check(&peer) {
            let tx = targets[i].1.clone();
            let command = BscCommand::Votes(Arc::clone(&packet));
            let ghost before = messages@;
            messages.push(PeerMessage { peer, tx, command });
            assert(addressed(messages@) =~= addressed(before).push(targets@[i as int]));
        }
        i = i + 1;
    }
    assert(targets@.take(i as int) =~= targets@);
    proof {
        assert(addressed(messages@).len() == messages@.len());
        assert forall|i: int| 0 <= i < messages@.len() implies (#[trigger] messages@[i]).peer
            == recipients(targets@, *policy)[i].0 && messages@[i].tx == recipients(
            targets@,
            *policy,
        )[i].1 && (messages@[i].command matches BscCommand::Votes(packet) && packet@ == votes@) by {
            assert(addressed(messages@)[i] == messages@[i].target());
            assert(messages@[i].carries(votes@));
        }
    }
    messages
}

/// Votes go to the peers of the snapshot that the policy allows, and to no others.
pub proof fn law_votes_go_to_allowed_peers<V, R>(
    targets: Seq<(PeerId, UnboundedSender<BscCommand<V, R>>)>,
    policy: VotePolicy,
    target: (PeerId, UnboundedSender<BscCommand<V, R>>),
)
    ensures
        recipients(targets, policy).contains(target) <==> policy.allows(target.0)
            && targets.contains(target),
    decreases targets.len(),
{
    broadcast use vstd::seq_lib::lemma_seq_contains_after_push;

    if targets.len() > 0 {
        law_votes_go_to_allowed_peers(targets.drop_last(), policy, target);
        assert(targets =~= targets.drop_last().push(targets.last()));
    }
}

/// Validator and proxyed peers get votes whatever their total difficulty.
pub proof fn law_validators_always_get_votes(policy: VotePolicy, peer: PeerId)
    requires
        policy.evn_peers@.contains(peer) || policy.proxyed@.contains(peer),
    ensures
        policy.allows(peer),
{
}

/// Forgets the peers whose streams turned out to be gone.
pub fn remove_unreachable<V, R>(registry: &mut Registry<V, R>, failed: &Vec<PeerId>)
    requires
        old(registry).wf(),
    ensures
        final(registry).wf(),
        final(registry)@ == old(registry)@.remove_keys(failed@.to_set()),
{
    let mut i: usize = 0;
    assert(failed@.take(0).to_set() =~= Set::<PeerId>::empty());
    assert(registry@ =~= old(registry)@.remove_keys(failed@.take(0).to_set()));
    while i < failed.len()
        invariant
            i <= failed@.len(),
            registry.wf(),
            registry@ == old(registry)@.remove_keys(failed@.take(i as int).to_set()),
        decreases failed.len() - i,
    {
        broadcast use vstd::seq_lib::lemma_seq_contains_after_push;

        let ghost less = failed@.take(i as int);
        registry.remove(&failed[i]);
        proof {
            assert(failed@.take(i + 1) =~= less.push(failed@[i as int]));
            assert(failed@.take(i + 1).to_set() =~= less.to_set().insert(failed@[i as int]));
            assert(registry@ =~= old(registry)@.remove_keys(failed@.take(i + 1).to_set()));
        }
        i = i + 1;
    }
    assert(failed@.take(i as int) =~= failed@);
}

/// A peer that is neither a validator nor proxyed, and whose total difficulty is known and can be
/// compared with the local one, gets votes just where neither of the two is further ahead of the
/// other than the threshold.
pub proof fn law_votes_need_a_near_total_difficulty(local: u128, peer: U256, threshold: u128)
    requires
        peer.value() <= u128::MAX,
    ensures
        allows_votes(false, Some(local), Some(peer), threshold) <==> local <= peer.value() + threshold
            && peer.value() <= local + threshold,
{
}

/// Votes are kept back from a peer only on account of a total difficulty that is known on both sides
/// and can be compared, and never from a validator or proxyed peer.
pub proof fn law_votes_are_kept_back_only_for_distance(
    is_evn_or_proxyed: bool,
    local: Option<u128>,
    peer: Option<U256>,
    threshold: u128,
)
    requires
        !allows_votes(is_evn_or_proxyed, local, peer, threshold),
    ensures
        !is_evn_or_proxyed,
        local is Some,
        peer is Some,
        peer->0.value() <= u128::MAX,
        local->0 > peer->0.value() + threshold || peer->0.value() > local->0 + threshold,
{
}

/// Of the heads that name a peer the last one counts; without one its total difficulty is not known.
pub proof fn law_last_head_of_a_peer_counts(heads: Seq<PeerHead>, peer: PeerId, last: int)
    ensures
        0 <= last < heads.len() && heads[last].peer == peer && (forall|j: int|
            last < j < heads.len() ==> (#[trigger] heads[j]).peer != peer) ==> best_td_of(heads, peer)
            == heads[last].best_td,
        (forall|j: int| 0 <= j < heads.len() ==> (#[trigger] heads[j]).peer != peer) ==> best_td_of(
            heads,
            peer,
        ) is None,
    decreases heads.len(),
{
    if heads.len() > 0 {
        let init = heads.drop_last();
        law_last_head_of_a_peer_counts(init, peer, last);
        assert(heads.last() == heads[heads.len() - 1]);
        assert(forall|j: int| 0 <= j < init.len() ==> #[trigger] init[j] == heads[j]);
    }
}

/// The policy compares total difficulties with a threshold of one thousand: for a peer that is on
/// neither list, with the local total difficulty known and that of the peer in its last head.
pub proof fn law_policy_allows_a_thousand(policy: VotePolicy, peer: PeerId, last: int)
    requires
        !policy.evn_peers@.contains(peer),
        !policy.proxyed@.contains(peer),
        policy.local_best_td is Some,
        0 <= last < policy.heads@.len(),
        policy.heads@[last].peer == peer,
        forall|j: int| last < j < policy.heads@.len() ==> (#[trigger] policy.heads@[j]).peer != peer,
        policy.heads@[last].best_td is Some,
        policy.heads@[last].best_td->0.value() <= u128::MAX,
    ensures
        ({
            let local = policy.local_best_td->0;
            let td = policy.heads@[last].best_td->0.value();
            policy.allows(peer) <==> local <= td + 1000 && td <= local + 1000
        }),
{
    law_last_head_of_a_peer_counts(policy.heads@, peer, last);
}

/// The policy keeps votes back from no peer whose total difficulty, or the local one, is not known or
/// too large.
pub proof fn law_policy_is_permissive_without_knowledge(policy: VotePolicy, peer: PeerId, last: int)
    requires
        ({
            ||| policy.local_best_td is None
            ||| forall|j: int|
                0 <= j < policy.heads@.len() ==> (#[trigger] policy.heads@[j]).peer != peer
            ||| 0 <= last < policy.heads@.len() && policy.heads@[last].peer == peer && (forall|j: int|
                last < j < policy.heads@.len() ==> (#[trigger] policy.heads@[j]).peer != peer) && (
            policy.heads@[last].best_td is None || policy.heads@[last].best_td->0.value()
                > u128::MAX)
        }),
    ensures
        policy.allows(peer),
{
    law_last_head_of_a_peer_counts(policy.heads@, peer, last);
}

/// The recipients are the targets that the policy allows, each as often as it is a target, and in
/// the order of the targets.
pub proof fn law_recipients_are_the_allowed_targets<V, R>(
    targets: Seq<(PeerId, UnboundedSender<BscCommand<V, R>>)>,
    policy: VotePolicy,
)
    ensures
        recipients(targets, policy) == targets.filter(
            |t: (PeerId, UnboundedSender<BscCommand<V, R>>)| policy.allows(t.0),
        ),
    decreases targets.len(),
{
    reveal(Seq::filter);
    if targets.len() > 0 {
        law_recipients_are_the_allowed_targets(targets.drop_last(), policy);
    }
}

}
