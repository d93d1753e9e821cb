use bsc_node::rex::{
    next_stream_action, publish_canonical, to_eth_chain, to_eth_notification, BlockHeader,
    BscBlock, BscBlockBody, CanonStateNotification, Chain, ExExNotification, RecoveredBlock,
    RecoveredBscBlock, RecoveredEthBlock, StreamAction, StreamEvent, SubscriptionProgress,
    ENOUGH_NOTIFICATIONS, NOTIFICATION_BUFFER,
};

type BscChain = Chain<RecoveredBscBlock<&'static str, Vec<u8>, Vec<u8>, Vec<u8>>, u32, u16>;
type EthChain = Chain<RecoveredEthBlock<&'static str, Vec<u8>, Vec<u8>>, u32, u16>;

fn chain(numbers: &[u64], sidecars: Vec<u8>) -> BscChain {
    let blocks = numbers
        .iter()
        .map(|n| RecoveredBlock {
            block: BscBlock {
                header: BlockHeader { number: *n, rest: "header" },
                body: BscBlockBody { inner: vec![*n as u8, 1], sidecars: sidecars.clone() },
            },
            senders: vec![*n as u8, 9],
        })
        .collect();
    Chain { blocks, execution_outcome: 7, trie_data: 8 }
}

fn check(eth: &EthChain, numbers: &[u64]) {
    assert_eq!(eth.blocks.len(), numbers.len());
    for (recovered, n) in eth.blocks.iter().zip(numbers) {
        assert_eq!(recovered.block.header.number, *n);
        assert_eq!(recovered.block.header.rest, "header");
        assert_eq!(recovered.block.body, vec![*n as u8, 1]);
        assert_eq!(recovered.senders, vec![*n as u8, 9]);
    }
    assert_eq!(eth.execution_outcome, 7);
    assert_eq!(eth.trie_data, 8);
}

#[test]
fn chain_keeps_all_but_the_sidecars() {
    check(&to_eth_chain(chain(&[3, 4, 6], vec![])), &[3, 4, 6]);
    check(&to_eth_chain(chain(&[], vec![1])), &[]);
}

#[test]
fn sidecars_leave_no_trace() {
    let without = to_eth_chain(chain(&[1, 2], vec![]));
    let with = to_eth_chain(chain(&[1, 2], vec![1, 2, 3]));
    assert_eq!(format!("{without:?}"), format!("{with:?}"));
}

#[test]
fn notifications_keep_their_kind() {
    let committed = ExExNotification::ChainCommitted { new: chain(&[5], vec![2]) };
    match to_eth_notification(committed) {
        ExExNotification::ChainCommitted { new } => check(&new, &[5]),
        _ => panic!("a commit became something else"),
    }
    let reorged = ExExNotification::ChainReorged {
        old_chain: chain(&[5, 6], vec![2]),
        new: chain(&[5, 6, 7], vec![]),
    };
    match to_eth_notification(reorged) {
        ExExNotification::ChainReorged { old_chain, new } => {
            check(&old_chain, &[5, 6]);
            check(&new, &[5, 6, 7]);
        }
        _ => panic!("a reorg became something else"),
    }
    let reverted = ExExNotification::ChainReverted { old_chain: chain(&[8], vec![2]) };
    match to_eth_notification(reverted) {
        ExExNotification::ChainReverted { old_chain } => check(&old_chain, &[8]),
        _ => panic!("a revert became something else"),
    }
}

#[test]
fn canonical_changes_are_published() {
    assert!(matches!(
        publish_canonical(CanonStateNotification::Commit { new: 4 }),
        ExExNotification::ChainCommitted { new: 4 }
    ));
    assert!(matches!(
        publish_canonical(CanonStateNotification::Reorg { old_chain: 3, new: 4 }),
        ExExNotification::ChainReorged { old_chain: 3, new: 4 }
    ));
}

type Event = StreamEvent<ExExNotification<BscChain>>;

fn committed(numbers: &[u64], sidecars: Vec<u8>) -> ExExNotification<BscChain> {
    ExExNotification::ChainCommitted { new: chain(numbers, sidecars) }
}

#[test]
fn stream_goes_round_until_something_fails() {
    let received: Event = StreamEvent::Received(committed(&[5], vec![2]));
    match next_stream_action(received) {
        StreamAction::Encode(ExExNotification::ChainCommitted { new }) => check(&new, &[5]),
        _ => panic!("the notification is not encoded in its Ethereum shape"),
    }
    let encoded: Event = StreamEvent::Encoded(vec![1, 2]);
    match next_stream_action(encoded) {
        StreamAction::Send(data) => assert_eq!(data, vec![1, 2]),
        _ => panic!("the bytes are not sent"),
    }
    let delivered: Event = StreamEvent::Delivered;
    assert!(matches!(next_stream_action(delivered), StreamAction::Receive));
    let ends: [Event; 3] =
        [StreamEvent::SourceEnded, StreamEvent::EncodingFailed, StreamEvent::ClientGone];
    for event in ends {
        assert!(matches!(next_stream_action(event), StreamAction::End));
    }
}

#[test]
fn notifications_come_once_in_order_until_one_fails() {
    let mut source = vec![1u64, 2, 3, 99, 5].into_iter();
    let mut sent: Vec<Vec<u8>> = Vec::new();
    let mut action: StreamAction<ExExNotification<EthChain>> = StreamAction::Receive;
    loop {
        let event: Event = match action {
            StreamAction::Receive => match source.next() {
                Some(number) => StreamEvent::Received(committed(&[number], vec![7])),
                None => StreamEvent::SourceEnded,
            },
            StreamAction::Encode(ExExNotification::ChainCommitted { new }) => {
                let body = new.blocks[0].block.body.clone();
                if body[0] == 99 {
                    StreamEvent::EncodingFailed
                } else {
                    StreamEvent::Encoded(body)
                }
            }
            StreamAction::Encode(_) => panic!("a commit became something else"),
            StreamAction::Send(data) => {
                sent.push(data);
                StreamEvent::Delivered
            }
            StreamAction::End => break,
        };
        action = next_stream_action(event);
    }
    assert_eq!(sent, vec![vec![1, 1], vec![2, 1], vec![3, 1]]);
}

#[test]
fn subscription_works_after_five_notifications() {
    assert_eq!(NOTIFICATION_BUFFER, 32);
    assert_eq!(ENOUGH_NOTIFICATIONS, 5);
    let mut progress = SubscriptionProgress::new();
    for size in [10, 0, 30, 5] {
        assert!(!progress.record(size));
    }
    assert!(progress.record(100));
    assert_eq!(progress.count, 5);
    assert_eq!(progress.bytes, 145);
}
