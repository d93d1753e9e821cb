use bsc_node::announcers::{record_announcer, Announcers};
use bsc_node::channel::BscCommand;
use bsc_node::failover::plan_v2_failover_peers;
use bsc_node::primitives::PeerId;
use bsc_node::range::{
    range_result, request_blocks_by_range_with_failover, BlocksByRangePacket, Failover,
    FailoverStep, RangeOutcome, RangeRequestError, RangeResult,
};
use bsc_node::registry::Registry;
use bsc_node::votes::register_peer;
use tokio::sync::mpsc::{unbounded_channel, UnboundedReceiver};

type Command = BscCommand<u32, u8>;
type Peers = Registry<u32, u8>;

fn pid(byte: u8) -> PeerId {
    [byte; 64]
}

#[test]
fn plan_v2_zero_attempts_returns_empty() {
    let plan = plan_v2_failover_peers(pid(1), vec![], vec![pid(1), pid(2)], 0);
    assert!(plan.is_empty());
}

#[test]
fn plan_v2_keeps_v2_preferred_at_head() {
    let plan = plan_v2_failover_peers(pid(1), vec![], vec![pid(1), pid(2), pid(3)], 3);
    assert_eq!(plan, vec![pid(1), pid(2), pid(3)]);
}

#[test]
fn plan_v2_drops_non_v2_preferred() {
    let plan = plan_v2_failover_peers(pid(9), vec![], vec![pid(2), pid(3), pid(4)], 3);
    assert_eq!(plan, vec![pid(2), pid(3), pid(4)]);
    assert!(!plan.contains(&pid(9)));
}

#[test]
fn plan_v2_empty_v2_list_yields_empty_plan() {
    let plan = plan_v2_failover_peers(pid(1), vec![], vec![], 3);
    assert!(plan.is_empty());
}

#[test]
fn plan_v2_respects_max_attempts_on_non_v2_path() {
    let plan = plan_v2_failover_peers(pid(9), vec![], vec![pid(2), pid(3), pid(4)], 2);
    assert_eq!(plan, vec![pid(2), pid(3)]);
}

#[test]
fn plan_v2_announcers_come_before_other_v2_peers() {
    let plan = plan_v2_failover_peers(
        pid(1),
        vec![pid(3)],
        vec![pid(1), pid(2), pid(3), pid(4)],
        4,
    );
    assert_eq!(plan, vec![pid(1), pid(3), pid(2), pid(4)]);
}

#[test]
fn plan_v2_preferred_takes_precedence_over_announcers() {
    let plan = plan_v2_failover_peers(
        pid(1),
        vec![pid(2), pid(3)],
        vec![pid(1), pid(2), pid(3)],
        3,
    );
    assert_eq!(plan, vec![pid(1), pid(2), pid(3)]);
}

#[test]
fn plan_v2_dedups_across_preferred_announcers_and_v2() {
    let plan = plan_v2_failover_peers(
        pid(1),
        vec![pid(1), pid(2)],
        vec![pid(1), pid(2), pid(3)],
        3,
    );
    assert_eq!(plan, vec![pid(1), pid(2), pid(3)]);
}

#[test]
fn plan_v2_truncates_to_max_attempts() {
    let plan = plan_v2_failover_peers(
        pid(1),
        vec![pid(2), pid(3)],
        vec![pid(1), pid(2), pid(3), pid(4)],
        2,
    );
    assert_eq!(plan, vec![pid(1), pid(2)]);
}

#[test]
fn plan_v2_announcers_only_when_preferred_not_v2() {
    let plan = plan_v2_failover_peers(
        pid(9),
        vec![pid(3), pid(4)],
        vec![pid(2), pid(3), pid(4)],
        3,
    );
    assert_eq!(plan, vec![pid(3), pid(4), pid(2)]);
}

#[test]
fn plan_may_be_shorter_than_the_attempts() {
    let plan = plan_v2_failover_peers(pid(1), vec![], vec![pid(2), pid(1)], 100);
    assert_eq!(plan, vec![pid(1), pid(2)]);
}

// ---- attempts ----

fn add(registry: &mut Peers, peer: PeerId, version: u8) -> UnboundedReceiver<Command> {
    let (tx, rx) = unbounded_channel();
    register_peer(registry, peer, tx, version, Vec::new());
    rx
}

fn answer(request_id: u64, blocks: Vec<u8>) -> RangeResult<u8> {
    Ok(BlocksByRangePacket { request_id, blocks })
}

fn run(mut attempts: Failover, answers: Vec<RangeResult<u8>>) -> (Vec<PeerId>, RangeResult<u8>) {
    let mut asked = Vec::new();
    for answer in answers {
        asked.push(attempts.peer());
        match attempts.record(answer) {
            FailoverStep::Ask(next) => attempts = next,
            FailoverStep::Finished(result) => return (asked, result),
        }
    }
    panic!("there were too few answers")
}

fn three_peers() -> (Peers, Announcers, Vec<UnboundedReceiver<Command>>) {
    let mut registry = Peers::new();
    let mut announcers = Announcers::new();
    let streams = vec![
        add(&mut registry, pid(1), 2),
        add(&mut registry, pid(2), 2),
        add(&mut registry, pid(3), 2),
        add(&mut registry, pid(4), 1),
    ];
    record_announcer(&mut announcers, [5; 32], pid(4));
    record_announcer(&mut announcers, [5; 32], pid(3));
    (registry, announcers, streams)
}

#[test]
fn attempts_start_with_preferred_then_announcers() {
    let (registry, mut announcers, _streams) = three_peers();
    let attempts = request_blocks_by_range_with_failover(
        &registry,
        &mut announcers,
        pid(2),
        [5; 32],
        8,
    )
    .unwrap();
    let (asked, result) = run(
        attempts,
        vec![answer(1, vec![]), answer(2, vec![]), answer(3, vec![])],
    );
    assert_eq!(asked, vec![pid(2), pid(3), pid(1)]);
    let packet = result.unwrap();
    assert_eq!(packet.request_id, 3);
    assert!(packet.blocks.is_empty());
}

#[test]
fn first_answer_with_blocks_wins() {
    let (registry, mut announcers, _streams) = three_peers();
    let attempts = request_blocks_by_range_with_failover(
        &registry,
        &mut announcers,
        pid(1),
        [5; 32],
        3,
    )
    .unwrap();
    let (asked, result) = run(
        attempts,
        vec![Err(RangeRequestError::TimedOut), answer(2, vec![7, 8]), answer(3, vec![9])],
    );
    assert_eq!(asked, vec![pid(1), pid(3)]);
    assert_eq!(result.unwrap().blocks, vec![7, 8]);
}

#[test]
fn last_error_stands_without_blocks() {
    let (registry, mut announcers, _streams) = three_peers();
    let attempts = request_blocks_by_range_with_failover(
        &registry,
        &mut announcers,
        pid(1),
        [5; 32],
        2,
    )
    .unwrap();
    let (asked, result) =
        run(attempts, vec![answer(1, vec![]), Err(RangeRequestError::Canceled)]);
    assert_eq!(asked.len(), 2);
    assert_eq!(result.unwrap_err().message(), "request canceled");
}

#[test]
fn attempts_need_a_peer() {
    let mut registry = Peers::new();
    let mut announcers = Announcers::new();
    let _rx = add(&mut registry, pid(1), 1);
    let none = request_blocks_by_range_with_failover(
        &registry,
        &mut announcers,
        pid(1),
        [5; 32],
        3,
    );
    assert_eq!(none.unwrap_err().message(), "no bsc/2 peers available for range request");
    let (registry, mut announcers, _streams) = three_peers();
    let no_attempts = request_blocks_by_range_with_failover(
        &registry,
        &mut announcers,
        pid(1),
        [5; 32],
        0,
    );
    assert!(matches!(no_attempts, Err(RangeRequestError::NoPeers)));
}

#[test]
fn outcomes_become_results() {
    let packet = BlocksByRangePacket { request_id: 4, blocks: vec![1u8] };
    assert_eq!(range_result(RangeOutcome::Answered(Ok(packet))).unwrap().request_id, 4);
    let refused: RangeResult<u8> = range_result(RangeOutcome::Answered(Err("no".to_string())));
    assert_eq!(refused.unwrap_err().message(), "no");
    let canceled: RangeResult<u8> = range_result(RangeOutcome::Canceled);
    assert!(matches!(canceled, Err(RangeRequestError::Canceled)));
    let undelivered: RangeResult<u8> = range_result(RangeOutcome::Undelivered);
    assert!(matches!(undelivered, Err(RangeRequestError::SendFailed)));
    let elapsed: RangeResult<u8> = range_result(RangeOutcome::Elapsed);
    assert!(matches!(elapsed, Err(RangeRequestError::TimedOut)));
}
