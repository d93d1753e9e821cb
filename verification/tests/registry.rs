use bsc_node::announcers::{
    list_announcers_for, record_announcer, Announcers, ANNOUNCER_LRU_CAP, MAX_ANNOUNCERS_PER_HASH,
};
use bsc_node::channel::BscCommand;
use bsc_node::primitives::{BlockHash, PeerId};
use bsc_node::proxyed::{initialize_proxyed_peers, is_proxyed_peer, ProxyedPeers};
use bsc_node::range::{
    evict_stale_peer, request_blocks_by_range, RangeDispatch, RangeRequestError, RangeRequests,
};
use bsc_node::registry::{is_v2_peer, list_v2_peers, Registry};
use bsc_node::votes::{register_peer, sync_pending_votes_to_peer, MAX_SYNC_VOTES};
use tokio::sync::mpsc::{unbounded_channel, UnboundedReceiver, UnboundedSender};

type Command = BscCommand<u32, u8>;
type Peers = Registry<u32, u8>;

fn pid(byte: u8) -> PeerId {
    [byte; 64]
}

fn hash(byte: u8) -> BlockHash {
    [byte; 32]
}

fn channel() -> (UnboundedSender<Command>, UnboundedReceiver<Command>) {
    unbounded_channel()
}

fn add(registry: &mut Peers, peer: PeerId, version: u8) -> UnboundedReceiver<Command> {
    let (tx, rx) = channel();
    register_peer(registry, peer, tx, version, Vec::new());
    rx
}

#[test]
fn v1_peer_is_not_v2() {
    let mut registry = Peers::new();
    let p = pid(0xA1);
    let (tx, _rx) = channel();
    register_peer(&mut registry, p, tx, 1, Vec::new());

    assert!(!is_v2_peer(&registry, p));
    assert!(!list_v2_peers(&registry).contains(&p));
}

#[test]
fn v2_peer_is_v2() {
    let mut registry = Peers::new();
    let p = pid(0xA2);
    let (tx, _rx) = channel();
    register_peer(&mut registry, p, tx, 2, Vec::new());

    assert!(is_v2_peer(&registry, p));
    assert!(list_v2_peers(&registry).contains(&p));
}

#[test]
fn upgrade_v1_to_v2_takes_effect() {
    let mut registry = Peers::new();
    let p = pid(0xA3);
    let (tx1, _rx1) = channel();
    register_peer(&mut registry, p, tx1, 1, Vec::new());
    assert!(!is_v2_peer(&registry, p));

    let (tx2, _rx2) = channel();
    register_peer(&mut registry, p, tx2, 2, Vec::new());
    assert!(is_v2_peer(&registry, p));
}

#[test]
fn downgrade_v2_to_v1_takes_effect() {
    let mut registry = Peers::new();
    let p = pid(0xA4);
    let (tx2, _rx2) = channel();
    register_peer(&mut registry, p, tx2, 2, Vec::new());
    assert!(is_v2_peer(&registry, p));

    let (tx1, _rx1) = channel();
    register_peer(&mut registry, p, tx1, 1, Vec::new());
    assert!(!is_v2_peer(&registry, p));
    assert!(!list_v2_peers(&registry).contains(&p));
}

#[test]
fn request_blocks_by_range_rejects_v1_peer() {
    let mut registry = Peers::new();
    let mut requests = RangeRequests::new(64);
    let p = pid(0xA5);
    let (tx, mut rx) = channel();
    register_peer(&mut registry, p, tx, 1, Vec::new());

    let dispatch = request_blocks_by_range(&registry, &mut requests, p, 1, [0; 32], 1, 0);
    match dispatch {
        RangeDispatch::Rejected(err, _) => {
            assert!(err.message().contains("bsc/2"));
            assert_eq!(err.message(), "peer does not support bsc/2 GetBlocksByRange");
        }
        _ => panic!("a peer of version 1 was asked"),
    }
    assert!(rx.try_recv().is_err());
    assert_eq!(requests.next_id, 1);
}

#[test]
fn versions_after_two_are_v2() {
    let mut registry = Peers::new();
    let _rx = add(&mut registry, pid(1), 3);
    let _ry = add(&mut registry, pid(2), 0);
    assert!(is_v2_peer(&registry, pid(1)));
    assert!(!is_v2_peer(&registry, pid(2)));
    assert!(!is_v2_peer(&registry, pid(3)));
    assert_eq!(list_v2_peers(&registry), vec![pid(1)]);
    assert_eq!(registry.peers().len(), 2);
}

#[test]
fn peers_that_differ_in_one_byte_are_two() {
    let mut registry = Peers::new();
    let mut other = pid(7);
    other[63] = 8;
    let _rx = add(&mut registry, pid(7), 2);
    let _ry = add(&mut registry, other, 1);
    assert!(is_v2_peer(&registry, pid(7)));
    assert!(!is_v2_peer(&registry, other));
    registry.remove(&pid(7));
    assert!(!is_v2_peer(&registry, pid(7)));
    assert!(registry.get(&other).is_some());
}

// ---- votes for a new peer ----

#[test]
fn new_peer_without_pending_votes_gets_nothing() {
    let mut registry = Peers::new();
    let (tx, mut rx) = channel();
    assert!(register_peer(&mut registry, pid(1), tx, 2, Vec::new()).is_none());
    assert!(rx.try_recv().is_err());
}

#[test]
fn new_peer_gets_pending_votes_in_one_packet() {
    let mut registry = Peers::new();
    let (tx, mut rx) = channel();
    let (sync, command) = register_peer(&mut registry, pid(1), tx, 1, vec![4, 5, 6]).unwrap();
    assert!(sync.send(command).is_ok());
    match rx.try_recv() {
        Ok(BscCommand::Votes(votes)) => assert_eq!(*votes, vec![4, 5, 6]),
        _ => panic!("no votes came"),
    }
    assert!(rx.try_recv().is_err());
}

#[test]
fn oversized_pool_is_cut_to_the_first_votes() {
    let pool: Vec<u32> = (0..(MAX_SYNC_VOTES as u32 + 3)).collect();
    let command: Option<Command> = sync_pending_votes_to_peer(pool);
    match command {
        Some(BscCommand::Votes(votes)) => {
            assert_eq!(votes.len(), 32768);
            assert_eq!(votes[0], 0);
            assert_eq!(votes[32767], 32767);
        }
        _ => panic!("no votes are to be sent"),
    }
    let none: Option<Command> = sync_pending_votes_to_peer(Vec::new());
    assert!(none.is_none());
}

// ---- announcers ----

#[test]
fn record_announcer_preserves_insertion_order() {
    let mut registry = Peers::new();
    let mut announcers = Announcers::new();
    let h = hash(0xB1);
    let p1 = pid(0xB1);
    let p2 = pid(0xB2);
    let _rx1 = add(&mut registry, p1, 2);
    let _rx2 = add(&mut registry, p2, 2);

    record_announcer(&mut announcers, h, p1);
    record_announcer(&mut announcers, h, p2);

    assert_eq!(list_announcers_for(&mut announcers, &registry, h), vec![p1, p2]);
}

#[test]
fn record_announcer_dedups_repeat_record() {
    let mut registry = Peers::new();
    let mut announcers = Announcers::new();
    let h = hash(0xB3);
    let p = pid(0xB3);
    let _rx = add(&mut registry, p, 2);

    record_announcer(&mut announcers, h, p);
    record_announcer(&mut announcers, h, p);
    record_announcer(&mut announcers, h, p);

    assert_eq!(list_announcers_for(&mut announcers, &registry, h), vec![p]);
}

#[test]
fn record_announcer_drops_after_cap() {
    let mut registry = Peers::new();
    let mut announcers = Announcers::new();
    let h = hash(0xB4);
    let mut peers = Vec::with_capacity(MAX_ANNOUNCERS_PER_HASH + 2);
    let mut streams = Vec::new();
    for i in 0..(MAX_ANNOUNCERS_PER_HASH + 2) {
        let p = pid(0xC0 + i as u8);
        streams.push(add(&mut registry, p, 2));
        record_announcer(&mut announcers, h, p);
        peers.push(p);
    }

    let listed = list_announcers_for(&mut announcers, &registry, h);
    assert_eq!(listed.len(), MAX_ANNOUNCERS_PER_HASH);
    assert_eq!(listed, peers[..MAX_ANNOUNCERS_PER_HASH]);
    assert_eq!(MAX_ANNOUNCERS_PER_HASH, 16);
}

#[test]
fn list_announcers_for_filters_v1_and_disconnected() {
    let mut registry = Peers::new();
    let mut announcers = Announcers::new();
    let h = hash(0xB5);
    let v2_peer = pid(0xB6);
    let v1_peer = pid(0xB7);
    let _rx_v2 = add(&mut registry, v2_peer, 2);
    let _rx_v1 = add(&mut registry, v1_peer, 1);

    record_announcer(&mut announcers, h, v2_peer);
    record_announcer(&mut announcers, h, v1_peer);

    let ghost_peer = pid(0xB8);
    record_announcer(&mut announcers, h, ghost_peer);

    assert_eq!(list_announcers_for(&mut announcers, &registry, h), vec![v2_peer]);
}

#[test]
fn list_announcers_for_returns_empty_on_lru_miss() {
    let registry = Peers::new();
    let mut announcers = Announcers::new();
    let h = hash(0xB9);
    assert!(list_announcers_for(&mut announcers, &registry, h).is_empty());
}

fn numbered(n: u32) -> BlockHash {
    let mut h = [0u8; 32];
    h[..4].copy_from_slice(&n.to_be_bytes());
    h
}

#[test]
fn hashes_used_longest_ago_are_forgotten_first() {
    let mut registry = Peers::new();
    let mut announcers = Announcers::new();
    let p = pid(1);
    let _rx = add(&mut registry, p, 2);
    for n in 0..ANNOUNCER_LRU_CAP {
        record_announcer(&mut announcers, numbered(n), p);
    }
    // Using hash 0 makes hash 1 the one that was not used for longest.
    assert_eq!(list_announcers_for(&mut announcers, &registry, numbered(0)), vec![p]);
    record_announcer(&mut announcers, numbered(1000), p);
    assert_eq!(list_announcers_for(&mut announcers, &registry, numbered(0)), vec![p]);
    assert!(list_announcers_for(&mut announcers, &registry, numbered(1)).is_empty());
    assert_eq!(list_announcers_for(&mut announcers, &registry, numbered(2)), vec![p]);
    assert_eq!(list_announcers_for(&mut announcers, &registry, numbered(1000)), vec![p]);
}

// ---- requests ----

fn rejected(dispatch: RangeDispatch<u32, u8>) -> String {
    match dispatch {
        RangeDispatch::Rejected(error, _) => error.message(),
        RangeDispatch::Send(_, _) => panic!("the request was not rejected"),
    }
}

fn accepted(dispatch: RangeDispatch<u32, u8>) -> (UnboundedSender<Command>, Command) {
    match dispatch {
        RangeDispatch::Send(tx, command) => (tx, command),
        RangeDispatch::Rejected(error, _) => panic!("{}", error.message()),
    }
}

#[test]
fn request_count_is_bounded() {
    let mut registry = Peers::new();
    let mut requests = RangeRequests::new(64);
    let _rx = add(&mut registry, pid(1), 2);
    let none = request_blocks_by_range(&registry, &mut requests, pid(1), 5, hash(1), 0, 0);
    assert_eq!(rejected(none), "invalid count 0");
    let many = request_blocks_by_range(&registry, &mut requests, pid(1), 5, hash(1), 1065, 0);
    assert_eq!(rejected(many), "invalid count 1065");
    let most = request_blocks_by_range(&registry, &mut requests, pid(1), 5, hash(1), 64, 0);
    accepted(most);
    let unknown = request_blocks_by_range(&registry, &mut requests, pid(9), 5, hash(1), 64, 0);
    assert_eq!(rejected(unknown), "peer not registered for bsc protocol");
    // An invalid count is what is complained of, even to an unknown peer.
    let both = request_blocks_by_range(&registry, &mut requests, pid(9), 5, hash(1), 65, 0);
    assert_eq!(rejected(both), "invalid count 65");
    assert_eq!(requests.next_id, 2);
}

#[test]
fn request_reaches_the_stream_with_its_number() {
    let mut registry = Peers::new();
    let mut requests = RangeRequests::new(64);
    let mut rx = add(&mut registry, pid(1), 2);
    for id in 1..3u64 {
        let dispatch =
            request_blocks_by_range(&registry, &mut requests, pid(1), 40, hash(3), 7, 77);
        let (tx, command) = accepted(dispatch);
        assert!(tx.send(command).is_ok());
        match rx.try_recv() {
            Ok(BscCommand::GetBlocksByRange(packet, reply_to)) => {
                assert_eq!(packet.request_id, id);
                assert_eq!(packet.start_block_height, 40);
                assert_eq!(packet.start_block_hash, hash(3));
                assert_eq!(packet.count, 7);
                assert_eq!(reply_to, 77);
            }
            _ => panic!("no request came"),
        }
    }
}

#[test]
fn request_numbers_wrap_around() {
    let mut registry = Peers::new();
    let mut requests = RangeRequests { next_id: u64::MAX, max_count: 64 };
    let _rx = add(&mut registry, pid(1), 2);
    request_blocks_by_range(&registry, &mut requests, pid(1), 1, hash(1), 1, 0);
    assert_eq!(requests.next_id, 0);
}

#[test]
fn peer_whose_stream_is_gone_is_evicted() {
    let mut registry = Peers::new();
    let mut requests = RangeRequests::new(64);
    drop(add(&mut registry, pid(1), 2));
    let dispatch = request_blocks_by_range(&registry, &mut requests, pid(1), 1, hash(1), 1, 0);
    let (tx, command) = accepted(dispatch);
    assert!(tx.send(command).is_err());
    assert_eq!(requests.next_id, 2);
    assert!(evict_stale_peer(&mut registry, pid(1), &tx));
    assert!(registry.get(&pid(1)).is_none());
    assert!(!evict_stale_peer(&mut registry, pid(1), &tx));
}

#[test]
fn reconnected_peer_is_not_evicted() {
    let mut registry = Peers::new();
    let mut requests = RangeRequests::new(64);
    drop(add(&mut registry, pid(1), 2));
    let dispatch = request_blocks_by_range(&registry, &mut requests, pid(1), 1, hash(1), 1, 0);
    let (tx, command) = accepted(dispatch);
    assert!(tx.send(command).is_err());
    let _rx = add(&mut registry, pid(1), 2);
    assert!(!evict_stale_peer(&mut registry, pid(1), &tx));
    assert!(is_v2_peer(&registry, pid(1)));
}

#[test]
fn rejected_request_gives_the_reply_handle_back() {
    let registry = Peers::new();
    let mut requests = RangeRequests::new(64);
    let dispatch = request_blocks_by_range(&registry, &mut requests, pid(1), 1, hash(1), 1, 42);
    assert!(matches!(dispatch, RangeDispatch::Rejected(RangeRequestError::NotRegistered, 42)));
}

#[test]
fn later_hashes_leave_earlier_ones_listed() {
    let mut registry = Peers::new();
    let mut announcers = Announcers::new();
    let _streams = [
        add(&mut registry, pid(0xB1), 2),
        add(&mut registry, pid(0xB2), 2),
        add(&mut registry, pid(0xB3), 2),
    ];
    record_announcer(&mut announcers, hash(0xB1), pid(0xB1));
    record_announcer(&mut announcers, hash(0xB1), pid(0xB2));
    for _ in 0..3 {
        record_announcer(&mut announcers, hash(0xB3), pid(0xB3));
    }
    let first = list_announcers_for(&mut announcers, &registry, hash(0xB1));
    assert_eq!(first, vec![pid(0xB1), pid(0xB2)]);
    let second = list_announcers_for(&mut announcers, &registry, hash(0xB3));
    assert_eq!(second, vec![pid(0xB3)]);
}

#[test]
fn one_hash_too_many_costs_the_oldest_alone() {
    let mut registry = Peers::new();
    let mut announcers = Announcers::new();
    let p = pid(1);
    let _rx = add(&mut registry, p, 2);
    for n in 0..=ANNOUNCER_LRU_CAP {
        record_announcer(&mut announcers, numbered(n), p);
    }
    assert!(list_announcers_for(&mut announcers, &registry, numbered(0)).is_empty());
    for n in 1..=ANNOUNCER_LRU_CAP {
        assert_eq!(list_announcers_for(&mut announcers, &registry, numbered(n)), vec![p]);
    }
}

#[test]
fn announcing_again_keeps_order_and_list() {
    let mut registry = Peers::new();
    let mut announcers = Announcers::new();
    let _rx1 = add(&mut registry, pid(1), 2);
    let _rx2 = add(&mut registry, pid(2), 2);
    for peer in [1, 2, 1, 2, 2, 1] {
        record_announcer(&mut announcers, hash(4), pid(peer));
    }
    assert_eq!(list_announcers_for(&mut announcers, &registry, hash(4)), vec![pid(1), pid(2)]);
    registry.remove(&pid(1));
    assert_eq!(list_announcers_for(&mut announcers, &registry, hash(4)), vec![pid(2)]);
}

#[test]
fn errors_say_what_happened() {
    let texts = [
        (RangeRequestError::InvalidCount(u64::MAX), "invalid count 18446744073709551615"),
        (RangeRequestError::InvalidCount(9), "invalid count 9"),
        (
            RangeRequestError::UnsupportedVersion,
            "peer does not support bsc/2 GetBlocksByRange",
        ),
        (RangeRequestError::NotRegistered, "peer not registered for bsc protocol"),
        (RangeRequestError::SendFailed, "failed to send GetBlocksByRange command"),
        (RangeRequestError::Failed("went away".to_string()), "went away"),
        (RangeRequestError::Canceled, "request canceled"),
        (RangeRequestError::TimedOut, "request timed out"),
        (RangeRequestError::NoPeers, "no bsc/2 peers available for range request"),
    ];
    for (error, text) in texts {
        assert_eq!(error.message(), text);
    }
}

// ---- proxyed peers ----

#[test]
fn proxyed_peers_are_replaced_as_a_whole() {
    let mut proxyed = ProxyedPeers::new();
    assert!(!is_proxyed_peer(&proxyed, &pid(1)));
    initialize_proxyed_peers(&mut proxyed, vec![pid(1), pid(2), pid(1)]);
    assert!(is_proxyed_peer(&proxyed, &pid(1)));
    assert!(is_proxyed_peer(&proxyed, &pid(2)));
    assert_eq!(proxyed.count(), 2);
    initialize_proxyed_peers(&mut proxyed, vec![pid(3)]);
    assert!(!is_proxyed_peer(&proxyed, &pid(1)));
    assert!(is_proxyed_peer(&proxyed, &pid(3)));
    assert_eq!(proxyed.count(), 1);
}
