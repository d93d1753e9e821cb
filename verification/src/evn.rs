//! Peers that belong to validators, once the validator network is armed.

use vstd::prelude::*;

use crate::primitives::{contains_id, NodeId, PeerId};

verus! {

/// Seconds between two refreshes once the network is armed.
pub const EVN_REFRESH_SECS: u64 = 60;

/// Whether the listener for the armed signal is installed.
#[derive(Debug)]
pub struct EvnRefreshTask {
    pub installed: bool,
}

impl EvnRefreshTask {
    /// Not installed yet.
    pub fn new() -> (task: Self)
        ensures
            !task.installed,
    {
        EvnRefreshTask { installed: false }
    }
}

/// Asks for the listener to be installed. Only the first caller is to do it.
pub fn spawn_evn_refresh_listener(task: &mut EvnRefreshTask) -> (install: bool)
    ensures
        install == !old(task).installed,
        final(task).installed,
{
    let install = !task.installed;
    task.installed = true;
    install
}

/// What the listener hears.
#[derive(Debug, Clone, Copy)]
pub enum EvnSignal {
    /// The network was armed.
    Armed,
    /// Signals were missed.
    Lagged,
    /// There will be no more signals.
    Closed,
    /// Another `EVN_REFRESH_SECS` are over.
    Tick,
}

/// What the listener does.
#[derive(Debug, Clone, Copy)]
pub enum EvnListener {
    /// It waits for the network to be armed.
    Listening,
    /// The network is armed: it refreshes the peers at every tick, for good.
    Refreshing,
    /// It has stopped.
    Stopped,
}

impl EvnListener {
    /// What the listener does after a signal.
    pub open spec fn after(self, signal: EvnSignal) -> EvnListener {
        match (self, signal) {
            (EvnListener::Listening, EvnSignal::Armed) => EvnListener::Refreshing,
            (EvnListener::Listening, EvnSignal::Closed) => EvnListener::Stopped,
            _ => self,
        }
    }

    /// Whether the peers are refreshed at a signal.
    pub open spec fn refreshes(self, signal: EvnSignal) -> bool {
        match (self, signal) {
            (EvnListener::Listening, EvnSignal::Armed) => true,
            (EvnListener::Refreshing, EvnSignal::Tick) => true,
            _ => false,
        }
    }

    /// What the listener does after some signals.
    pub open spec fn after_all(self, signals: Seq<EvnSignal>) -> EvnListener
        decreases signals.len(),
    {
        if signals.len() == 0 {
            self
        } else {
            self.after_all(signals.drop_last()).after(signals.last())
        }
    }

    /// A listener that has heard nothing yet.
    pub fn new() -> (listener: Self)
        ensures
            listener == EvnListener::Listening,
    {
        EvnListener::Listening
    }

    /// Takes a signal, and says whether the peers are to be refreshed now.
    pub fn step(&mut self, signal: EvnSignal) -> (refresh: bool)
        ensures
            *final(self) == old(self).after(signal),
            refresh == old(self).refreshes(signal),
    {
        match (*self, signal) {
            (EvnListener::Listening, EvnSignal::Armed) => {
                *self = EvnListener::Refreshing;
                true
            },
            (EvnListener::Listening, EvnSignal::Closed) => {
                *self = EvnListener::Stopped;
                false
            },
            (EvnListener::Refreshing, EvnSignal::Tick) => true,
            _ => false,
        }
    }

    /// Before the network is armed, nothing is refreshed.
    pub proof fn law_no_refresh_before_armed(signals: Seq<EvnSignal>, next: EvnSignal)
        requires
            forall|i: int| 0 <= i < signals.len() ==> !(#[trigger] signals[i] is Armed),
            !(next is Armed),
        ensures
            !EvnListener::Listening.after_all(signals).refreshes(next),
            !(EvnListener::Listening.after_all(signals) is Refreshing),
        decreases signals.len(),
    {
        if signals.len() > 0 {
            let init = signals.drop_last();
            assert forall|i: int| 0 <= i < init.len() implies !(#[trigger] init[i] is Armed) by {
                assert(init[i] == signals[i]);
            }
            Self::law_no_refresh_before_armed(init, next);
            assert(!(signals[signals.len() - 1] is Armed));
        }
    }

    /// When the network is armed the peers are refreshed at once, and from then on at every tick,
    /// whatever else is heard.
    pub proof fn law_refresh_when_armed_and_at_every_tick(later: Seq<EvnSignal>)
        ensures
            EvnListener::Listening.refreshes(EvnSignal::Armed),
            EvnListener::Listening.after(EvnSignal::Armed).after_all(later).refreshes(
                EvnSignal::Tick,
            ),
            EvnListener::Listening.after(EvnSignal::Armed).after_all(later) is Refreshing,
        decreases later.len(),
    {
        if later.len() > 0 {
            Self::law_refresh_when_armed_and_at_every_tick(later.drop_last());
        }
    }

    /// Missed signals do not stop the listener: it waits on for the network to be armed.
    pub proof fn law_lagging_listener_waits_on(signals: Seq<EvnSignal>)
        requires
            forall|i: int|
                0 <= i < signals.len() ==> (#[trigger] signals[i] is Lagged || signals[i] is Tick),
        ensures
            EvnListener::Listening.after_all(signals) is Listening,
        decreases signals.len(),
    {
        if signals.len() > 0 {
            let init = signals.drop_last();
            assert forall|i: int| 0 <= i < init.len() implies (#[trigger] init[i] is Lagged
                || init[i] is Tick) by {
                assert(init[i] == signals[i]);
            }
            Self::law_lagging_listener_waits_on(init);
            let last = signals[signals.len() - 1];
            assert(last is Lagged || last is Tick);
        }
    }
}

/// The peers whose node identifier a validator has published, in the order of the list.
pub open spec fn validator_peers(
    peers: Seq<(PeerId, NodeId)>,
    onchain: Seq<NodeId>,
) -> Seq<PeerId>
    decreases peers.len(),
{
    if peers.len() == 0 {
        seq![]
    } else {
        let before = validator_peers(peers.drop_last(), onchain);
        if onchain.contains(peers.last().1) {
            before.push(peers.last().0)
        } else {
            before
        }
    }
}

/// Finds the peers that are to be marked as validators and trusted.
pub fn match_evn_peers(peers: &Vec<(PeerId, NodeId)>, onchain: &Vec<NodeId>) -> (marked: Vec<
    PeerId,
>)
    ensures
        marked@ == validator_peers(peers@, onchain@),
{
    let mut marked: Vec<PeerId> = Vec::new();
    let mut i: usize = 0;
    assert(validator_peers(peers@.take(0), onchain@) =~= marked@);
    while i < peers.len()
        invariant
            i <= peers@.len(),
            marked@ == validator_peers(peers@.take(i as int), onchain@),
        decreases peers.len() - i,
    {
        assert(peers@.take(i + 1).drop_last() =~= peers@.take(i as int));
        if contains_id(onchain, &peers[i].1) {
            marked.push(peers[i].0);
        }
        i = i + 1;
    }
    assert(peers@.take(i as int) =~= peers@);
    marked
}

/// A peer is marked just if one of its entries has a published identifier.
pub proof fn law_marked_peers_are_validators(
    peers: Seq<(PeerId, NodeId)>,
    onchain: Seq<NodeId>,
    peer: PeerId,
)
    ensures
        validator_peers(peers, onchain).contains(peer) <==> exists|i: int|
            0 <= i < peers.len() && (#[trigger] peers[i]).0 == peer && onchain.contains(
                peers[i].1,
            ),
    decreases peers.len(),
{
    broadcast use vstd::seq_lib::lemma_seq_contains_after_push;

    if peers.len() > 0 {
        let init = peers.drop_last();
        law_marked_peers_are_validators(init, onchain, peer);
        if exists|i: int|
            0 <= i < init.len() && (#[trigger] init[i]).0 == peer && onchain.contains(init[i].1) {
            let i = choose|i: int|
                0 <= i < init.len() && (#[trigger] init[i]).0 == peer && onchain.contains(
                    init[i].1,
                );
            assert(peers[i] == init[i]);
        }
        if exists|i: int|
            0 <= i < peers.len() && (#[trigger] peers[i]).0 == peer && onchain.contains(
                peers[i].1,
            ) {
            let i = choose|i: int|
                0 <= i < peers.len() && (#[trigger] peers[i]).0 == peer && onchain.contains(
                    peers[i].1,
                );
            if i < init.len() {
                assert(init[i] == peers[i]);
            }
        }
        if onchain.contains(peers.last().1) {
            assert(peers[peers.len() - 1] == peers.last());
        }
    }
}

/// The peers that are marked are those of the list whose identifier is published, each as often as it
/// is listed with one, and in the order of the list.
pub proof fn law_marked_peers_keep_their_order(peers: Seq<(PeerId, NodeId)>, onchain: Seq<NodeId>)
    ensures
        validator_peers(peers, onchain) == peers.filter(
            |p: (PeerId, NodeId)| onchain.contains(p.1),
        ).map_values(|p: (PeerId, NodeId)| p.0),
    decreases peers.len(),
{
    reveal(Seq::filter);
    if peers.len() > 0 {
        law_marked_peers_keep_their_order(peers.drop_last(), onchain);
        let kept = peers.drop_last().filter(|p: (PeerId, NodeId)| onchain.contains(p.1));
        if onchain.contains(peers.last().1) {
            assert(kept.push(peers.last()).map_values(|p: (PeerId, NodeId)| p.0) =~= kept.map_values(
                |p: (PeerId, NodeId)| p.0,
            ).push(peers.last().0));
        }
    } else {
        assert(peers.filter(|p: (PeerId, NodeId)| onchain.contains(p.1)) =~= seq![]);
        assert(validator_peers(peers, onchain) =~= peers.filter(
            |p: (PeerId, NodeId)| onchain.contains(p.1),
        ).map_values(|p: (PeerId, NodeId)| p.0));
    }
}

/// Only arming and, before that, the end of the signals change what the listener does; and it
/// refreshes the peers when the network is armed and at every tick from then on, at nothing else.
pub proof fn law_listener_goes_one_way(listener: EvnListener, signal: EvnSignal)
    ensures
        listener is Listening && signal is Armed ==> listener.after(signal) is Refreshing
            && listener.refreshes(signal),
        listener is Listening && signal is Closed ==> listener.after(signal) is Stopped
            && !listener.refreshes(signal),
        listener is Listening && (signal is Lagged || signal is Tick) ==> listener.after(signal)
            is Listening && !listener.refreshes(signal),
        listener is Refreshing ==> listener.after(signal) is Refreshing && (listener.refreshes(signal)
            <==> signal is Tick),
        listener is Stopped ==> listener.after(signal) is Stopped && !listener.refreshes(signal),
{
}

/// A tick comes every minute.
pub proof fn law_refresh_comes_every_minute()
    ensures
        EVN_REFRESH_SECS == 60,
{
}

}
