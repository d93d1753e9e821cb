use bsc_node::channel::BscCommand;
use bsc_node::evn::{
    match_evn_peers, spawn_evn_refresh_listener, EvnListener, EvnRefreshTask, EvnSignal,
};
use bsc_node::primitives::{u256_to_u128, PeerId, U256};
use bsc_node::proxyed::{initialize_proxyed_peers, ProxyedPeers};
use bsc_node::registry::Registry;
use bsc_node::votes::{
    broadcast_votes, find_best_td, register_peer, remove_unreachable,
    should_allow_vote_broadcast, PeerHead, VotePolicy,
};
use tokio::sync::mpsc::unbounded_channel;

fn pid(byte: u8) -> PeerId {
    [byte; 64]
}

fn td(value: u64) -> U256 {
    U256 { limbs: alloy_primitives::U256::from(value).into_limbs() }
}

#[test]
fn allow_vote_broadcast_for_evn_or_proxyed_peer() {
    assert!(should_allow_vote_broadcast(true, None, None, 1000));
}

#[test]
fn allow_vote_broadcast_when_td_delta_within_threshold() {
    let local_td = Some(10_000u128);
    let peer_td = Some(td(10_500u64));
    assert!(should_allow_vote_broadcast(false, local_td, peer_td, 1000));
}

#[test]
fn reject_vote_broadcast_when_td_delta_exceeds_threshold() {
    let local_td = Some(10_000u128);
    let peer_td = Some(td(11_500u64));
    assert!(!should_allow_vote_broadcast(false, local_td, peer_td, 1000));
}

#[test]
fn allow_vote_broadcast_when_td_missing() {
    assert!(should_allow_vote_broadcast(false, Some(10_000u128), None, 1000));
    assert!(should_allow_vote_broadcast(false, None, Some(td(10_000u64)), 1000));
}

#[test]
fn td_threshold_counts_both_ways_and_includes_its_end() {
    assert!(should_allow_vote_broadcast(false, Some(10_000), Some(td(11_000)), 1000));
    assert!(!should_allow_vote_broadcast(false, Some(10_000), Some(td(11_001)), 1000));
    assert!(should_allow_vote_broadcast(false, Some(10_000), Some(td(9_000)), 1000));
    assert!(!should_allow_vote_broadcast(false, Some(10_000), Some(td(8_999)), 1000));
    let huge = U256 { limbs: alloy_primitives::U256::MAX.into_limbs() };
    assert!(should_allow_vote_broadcast(false, Some(10_000), Some(huge), 1000));
    let top = U256 { limbs: alloy_primitives::U256::from(u128::MAX).into_limbs() };
    assert!(!should_allow_vote_broadcast(false, Some(0), Some(top), 1000));
}

#[test]
fn numbers_of_256_bits_are_narrowed_exactly() {
    let values = [0u128, 1, 255, 256, u64::MAX as u128, 1 << 64, 0x0102_0304 << 90, u128::MAX];
    for value in values {
        let wide = U256 { limbs: alloy_primitives::U256::from(value).into_limbs() };
        assert_eq!(u256_to_u128(wide), Some(value));
    }
    let first_too_large = alloy_primitives::U256::from(u128::MAX) + alloy_primitives::U256::from(1u64);
    assert_eq!(u256_to_u128(U256 { limbs: first_too_large.into_limbs() }), None);
    assert_eq!(u256_to_u128(U256 { limbs: [5, 0, 0, 1 << 63] }), None);
}

#[test]
fn last_head_of_a_peer_counts() {
    let heads = vec![
        PeerHead { peer: pid(1), best_td: Some(td(5)) },
        PeerHead { peer: pid(2), best_td: Some(td(6)) },
        PeerHead { peer: pid(1), best_td: Some(td(7)) },
        PeerHead { peer: pid(3), best_td: None },
    ];
    assert_eq!(find_best_td(&heads, &pid(1)).map(|t| t.limbs[0]), Some(7));
    assert_eq!(find_best_td(&heads, &pid(2)).map(|t| t.limbs[0]), Some(6));
    assert!(find_best_td(&heads, &pid(3)).is_none());
    assert!(find_best_td(&heads, &pid(4)).is_none());
}

#[test]
fn votes_go_to_allowed_peers_and_lost_ones_are_forgotten() {
    let mut registry: Registry<u32, ()> = Registry::new();
    let mut streams = Vec::new();
    for byte in 1..6u8 {
        let (tx, rx) = unbounded_channel();
        register_peer(&mut registry, pid(byte), tx, 1, Vec::new());
        streams.push(rx);
    }
    // Peer 1 is near, 2 is far, 3 is far but a validator, 4 is far but proxyed, 5 is unknown.
    let heads = vec![
        PeerHead { peer: pid(1), best_td: Some(td(50_500)) },
        PeerHead { peer: pid(2), best_td: Some(td(90_000)) },
        PeerHead { peer: pid(3), best_td: Some(td(90_000)) },
        PeerHead { peer: pid(4), best_td: Some(td(90_000)) },
    ];
    let mut proxyed = ProxyedPeers::new();
    initialize_proxyed_peers(&mut proxyed, vec![pid(4)]);
    let evn_peers = vec![pid(3)];
    let policy = VotePolicy {
        evn_peers: &evn_peers,
        proxyed: &proxyed,
        local_best_td: Some(50_000),
        heads: &heads,
    };
    // The stream of peer 5 is gone.
    let gone = streams.pop();
    drop(gone);

    let targets = registry.snapshot();
    assert_eq!(targets.len(), 5);
    let messages = broadcast_votes(&targets, vec![11, 12], &policy);
    let mut addressed: Vec<PeerId> = messages.iter().map(|message| message.peer).collect();
    addressed.sort();
    assert_eq!(addressed, vec![pid(1), pid(3), pid(4), pid(5)]);
    let mut failed = Vec::new();
    for message in messages {
        if message.tx.send(message.command).is_err() {
            failed.push(message.peer);
        }
    }
    assert_eq!(failed, vec![pid(5)]);
    for (i, stream) in streams.iter_mut().enumerate() {
        match stream.try_recv() {
            Ok(BscCommand::Votes(votes)) => {
                assert_ne!(i, 1);
                assert_eq!(*votes, vec![11, 12]);
            }
            _ => assert_eq!(i, 1),
        }
        assert!(stream.try_recv().is_err());
    }
    remove_unreachable(&mut registry, &failed);
    assert!(registry.get(&pid(5)).is_none());
    for byte in 1..5u8 {
        assert!(registry.get(&pid(byte)).is_some());
    }
}

#[test]
fn votes_go_to_all_where_no_td_is_known() {
    let mut registry: Registry<u32, ()> = Registry::new();
    for byte in 1..4u8 {
        let (tx, _rx) = unbounded_channel();
        register_peer(&mut registry, pid(byte), tx, byte, Vec::new());
    }
    let proxyed = ProxyedPeers::new();
    let policy = VotePolicy {
        evn_peers: &Vec::new(),
        proxyed: &proxyed,
        local_best_td: Some(50_000),
        heads: &Vec::new(),
    };
    assert_eq!(broadcast_votes(&registry.snapshot(), vec![1], &policy).len(), 3);
}

#[test]
fn unreachable_peers_alone_are_removed() {
    let mut registry: Registry<u32, ()> = Registry::new();
    for byte in 1..5u8 {
        let (tx, _rx) = unbounded_channel();
        register_peer(&mut registry, pid(byte), tx, 2, Vec::new());
    }
    remove_unreachable(&mut registry, &Vec::new());
    assert_eq!(registry.peers().len(), 4);
    remove_unreachable(&mut registry, &vec![pid(2), pid(9), pid(4), pid(2)]);
    assert_eq!(*registry.peers(), vec![pid(1), pid(3)]);
}

#[test]
fn evn_listener_is_installed_once() {
    let mut task = EvnRefreshTask::new();
    assert!(spawn_evn_refresh_listener(&mut task));
    assert!(!spawn_evn_refresh_listener(&mut task));
    assert!(!spawn_evn_refresh_listener(&mut task));
}

#[test]
fn evn_listener_refreshes_once_armed_and_then_at_every_tick() {
    let mut listener = EvnListener::new();
    assert!(!listener.step(EvnSignal::Lagged));
    assert!(!listener.step(EvnSignal::Tick));
    assert!(matches!(listener, EvnListener::Listening));
    assert!(listener.step(EvnSignal::Armed));
    assert!(matches!(listener, EvnListener::Refreshing));
    for _ in 0..3 {
        assert!(listener.step(EvnSignal::Tick));
    }
    assert!(!listener.step(EvnSignal::Closed));
    assert!(listener.step(EvnSignal::Tick));
}

#[test]
fn evn_listener_stops_where_no_signal_can_come() {
    let mut listener = EvnListener::new();
    assert!(!listener.step(EvnSignal::Closed));
    assert!(matches!(listener, EvnListener::Stopped));
    assert!(!listener.step(EvnSignal::Armed));
    assert!(!listener.step(EvnSignal::Tick));
}

#[test]
fn peers_of_validators_are_found() {
    let peers = vec![(pid(1), [1; 32]), (pid(2), [2; 32]), (pid(3), [3; 32])];
    let onchain = vec![[3; 32], [9; 32], [1; 32]];
    assert_eq!(match_evn_peers(&peers, &onchain), vec![pid(1), pid(3)]);
    assert!(match_evn_peers(&peers, &Vec::new()).is_empty());
}
