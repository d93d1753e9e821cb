use bsc_node::channel::BscCommand;
use bsc_node::latency::{
    fastest_v2_peer, fetch_latency_snapshot, peer_fetch_ewma, record_fetch_latency,
    FetchLatencies, INFINITY_BITS, MIN_LATENCY_SAMPLES, SIGN_BIT,
};
use bsc_node::primitives::PeerId;
use bsc_node::registry::Registry;
use bsc_node::votes::register_peer;
use tokio::sync::mpsc::{unbounded_channel, UnboundedReceiver};

type Peers = Registry<u32, ()>;

fn pid(byte: u8) -> PeerId {
    [byte; 64]
}

fn add(registry: &mut Peers, peer: PeerId, version: u8) -> UnboundedReceiver<BscCommand<u32, ()>> {
    let (tx, rx) = unbounded_channel();
    register_peer(registry, peer, tx, version, Vec::new());
    rx
}

fn record(latencies: &mut FetchLatencies, peer: PeerId, secs: f64) {
    let mean = latencies.current_ewma(&peer).map_or(secs, f64::from_bits);
    let blended = 0.2 * secs + 0.8 * mean;
    record_fetch_latency(latencies, peer, secs.to_bits(), blended.to_bits());
}

fn time(latencies: &mut FetchLatencies, peer: PeerId, secs: f64) {
    for _ in 0..MIN_LATENCY_SAMPLES {
        record(latencies, peer, secs);
    }
}

#[test]
fn bits_are_those_of_the_numbers() {
    assert_eq!(SIGN_BIT, (-0.0f64).to_bits());
    assert_eq!(INFINITY_BITS, f64::INFINITY.to_bits());
}

#[test]
fn mean_is_given_after_five_samples() {
    let mut latencies = FetchLatencies::new();
    for sample in 1..MIN_LATENCY_SAMPLES {
        record(&mut latencies, pid(1), sample as f64);
        assert!(peer_fetch_ewma(&latencies, pid(1)).is_none());
    }
    record(&mut latencies, pid(1), 5.0);
    let mean = f64::from_bits(peer_fetch_ewma(&latencies, pid(1)).unwrap());
    // 1, then 0.2 * next + 0.8 * mean for 2, 3, 4 and 5.
    let mut expected = 1.0;
    for secs in [2.0, 3.0, 4.0, 5.0] {
        expected = 0.2 * secs + 0.8 * expected;
    }
    assert_eq!(mean, expected);
    assert!(peer_fetch_ewma(&latencies, pid(2)).is_none());
}

#[test]
fn first_duration_is_its_own_mean() {
    let mut latencies = FetchLatencies::new();
    record_fetch_latency(&mut latencies, pid(1), 3.5f64.to_bits(), 99.0f64.to_bits());
    assert_eq!(latencies.current_ewma(&pid(1)), Some(3.5f64.to_bits()));
    record_fetch_latency(&mut latencies, pid(1), 3.5f64.to_bits(), 99.0f64.to_bits());
    assert_eq!(latencies.current_ewma(&pid(1)), Some(99.0f64.to_bits()));
}

#[test]
fn what_is_no_duration_is_not_recorded() {
    let mut latencies = FetchLatencies::new();
    for secs in [
        -1.0,
        -f64::MIN_POSITIVE,
        f64::NAN,
        -f64::NAN,
        f64::INFINITY,
        f64::NEG_INFINITY,
        f64::MIN,
    ] {
        record_fetch_latency(&mut latencies, pid(1), secs.to_bits(), 0);
        assert!(latencies.current_ewma(&pid(1)).is_none());
    }
    for secs in [0.0, -0.0, f64::MIN_POSITIVE, 5e-324, f64::MAX] {
        let mut latencies = FetchLatencies::new();
        record_fetch_latency(&mut latencies, pid(1), secs.to_bits(), 0);
        assert_eq!(latencies.current_ewma(&pid(1)), Some(secs.to_bits()));
    }
}

#[test]
fn fastest_is_measured_and_can_be_asked() {
    let mut registry = Peers::new();
    let mut latencies = FetchLatencies::new();
    assert!(fastest_v2_peer(&latencies, &registry).is_none());
    let _streams = [
        add(&mut registry, pid(1), 2),
        add(&mut registry, pid(2), 2),
        add(&mut registry, pid(3), 1),
        add(&mut registry, pid(4), 2),
    ];
    time(&mut latencies, pid(1), 5.63);
    time(&mut latencies, pid(2), 0.12);
    time(&mut latencies, pid(3), 0.01);
    record(&mut latencies, pid(4), 0.01);
    time(&mut latencies, pid(5), 0.01);
    assert_eq!(fastest_v2_peer(&latencies, &registry), Some(pid(2)));
    registry.remove(&pid(2));
    assert_eq!(fastest_v2_peer(&latencies, &registry), Some(pid(1)));
    registry.remove(&pid(1));
    assert!(fastest_v2_peer(&latencies, &registry).is_none());
}

#[test]
fn snapshot_is_sorted_as_numbers_are() {
    let mut latencies = FetchLatencies::new();
    let values: [f64; 6] = [2.0, 0.0, 1e-300, 1e300, -0.0, 0.5];
    for (i, secs) in values.iter().enumerate() {
        record_fetch_latency(&mut latencies, pid(i as u8), secs.to_bits(), 0);
    }
    record_fetch_latency(&mut latencies, pid(0), 2.0f64.to_bits(), 2.5f64.to_bits());
    let lines = fetch_latency_snapshot(&latencies);
    let mut expected = vec![2.5, 0.0, 1e-300, 1e300, -0.0, 0.5];
    expected.sort_by(|a: &f64, b: &f64| a.total_cmp(b));
    let means: Vec<u64> = lines.iter().map(|line| line.1).collect();
    let bits: Vec<u64> = expected.iter().map(|secs| secs.to_bits()).collect();
    assert_eq!(means, bits);
    let first = lines.iter().find(|line| line.0 == pid(0)).unwrap();
    assert_eq!(first.2, 2);
    assert!(lines.iter().filter(|line| line.0 != pid(0)).all(|line| line.2 == 1));
    assert!(fetch_latency_snapshot(&FetchLatencies::new()).is_empty());
}

#[test]
fn blended_mean_may_be_any_number_in_the_order() {
    let mut registry = Peers::new();
    let mut latencies = FetchLatencies::new();
    let _streams = [add(&mut registry, pid(1), 2), add(&mut registry, pid(2), 2)];
    for _ in 0..MIN_LATENCY_SAMPLES {
        record_fetch_latency(&mut latencies, pid(1), 0, (-0.0f64).to_bits());
        record_fetch_latency(&mut latencies, pid(2), 0, (-3.0f64).to_bits());
    }
    assert_eq!(fastest_v2_peer(&latencies, &registry), Some(pid(2)));
}
