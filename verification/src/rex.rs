//! Notifications of the canonical chain, in the shape in which subscribers take them.
//!
//! A block of this chain has blob sidecars in its body, which one of Ethereum has not. Subscribers
//! decode Ethereum blocks and have no use for sidecars, so they are dropped on the way.

use vstd::prelude::*;

verus! {

/// Notifications that are held for subscribers that fall behind.
pub const NOTIFICATION_BUFFER: usize = 32;

/// The header of a block: its number, and the rest.
#[derive(Debug, Clone)]
pub struct BlockHeader<H> {
    pub number: u64,
    pub rest: H,
}

/// The body of a block of this chain: the body of an Ethereum block, and sidecars.
#[derive(Debug, Clone)]
pub struct BscBlockBody<B, S> {
    pub inner: B,
    pub sidecars: S,
}

/// A block of this chain.
#[derive(Debug, Clone)]
pub struct BscBlock<H, B, S> {
    pub header: BlockHeader<H>,
    pub body: BscBlockBody<B, S>,
}

/// An Ethereum block.
#[derive(Debug)]
pub struct EthBlock<H, B> {
    pub header: BlockHeader<H>,
    pub body: B,
}

/// A block with the senders of its transactions.
#[derive(Debug, Clone)]
pub struct RecoveredBlock<T, A> {
    pub block: T,
    pub senders: A,
}

/// Consecutive blocks with the outcome of their execution and trie data.
#[derive(Debug, Clone)]
pub struct Chain<T, O, D> {
    /// The blocks by ascending number.
    pub blocks: Vec<T>,
    pub execution_outcome: O,
    pub trie_data: D,
}

/// A recovered block of this chain.
pub type RecoveredBscBlock<H, B, S, A> = RecoveredBlock<BscBlock<H, B, S>, A>;

/// A recovered Ethereum block.
pub type RecoveredEthBlock<H, B, A> = RecoveredBlock<EthBlock<H, B>, A>;

/// The blocks of this chain are ordered by number, and no number occurs twice.
pub open spec fn bsc_in_order<H, B, S, A>(blocks: Seq<RecoveredBscBlock<H, B, S, A>>) -> bool {
    forall|i: int, j: int|
        0 <= i < j < blocks.len() ==> (#[trigger] blocks[i]).block.header.number < (
        #[trigger] blocks[j]).block.header.number
}

/// The Ethereum blocks are ordered by number, and no number occurs twice.
pub open spec fn eth_in_order<H, B, A>(blocks: Seq<RecoveredEthBlock<H, B, A>>) -> bool {
    forall|i: int, j: int|
        0 <= i < j < blocks.len() ==> (#[trigger] blocks[i]).block.header.number < (
        #[trigger] blocks[j]).block.header.number
}

/// The block without its sidecars.
pub open spec fn eth_block<H, B, S, A>(
    recovered: RecoveredBscBlock<H, B, S, A>,
) -> RecoveredEthBlock<H, B, A> {
    RecoveredBlock {
        block: EthBlock { header: recovered.block.header, body: recovered.block.body.inner },
        senders: recovered.senders,
    }
}

/// `eth` is `bsc` without sidecars: the same headers, transactions and senders in the same order,
/// the same outcome and trie data.
pub open spec fn is_eth_chain<H, B, S, A, O, D>(
    bsc: Chain<RecoveredBscBlock<H, B, S, A>, O, D>,
    eth: Chain<RecoveredEthBlock<H, B, A>, O, D>,
) -> bool {
    &&& eth.blocks@.len() == bsc.blocks@.len()
    &&& forall|i: int|
        0 <= i < eth.blocks@.len() ==> #[trigger] eth.blocks@[i] == eth_block(bsc.blocks@[i])
    &&& eth.execution_outcome == bsc.execution_outcome
    &&& eth.trie_data == bsc.trie_data
}

/// Re-shapes a chain as one of Ethereum.
pub fn to_eth_chain<H, B, S, A, O, D>(
    chain: Chain<RecoveredBscBlock<H, B, S, A>, O, D>,
) -> (eth: Chain<RecoveredEthBlock<H, B, A>, O, D>)
    ensures
        is_eth_chain(chain, eth),
        eth.blocks@.len() == chain.blocks@.len(),
        forall|i: int|
            0 <= i < eth.blocks@.len() ==> {
                &&& (#[trigger] eth.blocks@[i]).block.header == chain.blocks@[i].block.header
                &&& eth.blocks@[i].block.body == chain.blocks@[i].block.body.inner
                &&& eth.blocks@[i].senders == chain.blocks@[i].senders
            },
        eth.execution_outcome == chain.execution_outcome,
        eth.trie_data == chain.trie_data,
        bsc_in_order(chain.blocks@) ==> eth_in_order(eth.blocks@),
{
    let ghost bsc = chain;
    let mut blocks: Vec<RecoveredEthBlock<H, B, A>> = Vec::new();
    for recovered in it: chain.blocks
        invariant
            it.seq() == bsc.blocks@,
            blocks@.len() == it.index(),
            forall|i: int|
                0 <= i < blocks@.len() ==> #[trigger] blocks@[i] == eth_block(bsc.blocks@[i]),
    {
        let block = EthBlock {
            header: recovered.block.header,
            body: recovered.block.body.inner,
        };
        blocks.push(RecoveredBlock { block, senders: recovered.senders });
    }
    Chain { blocks, execution_outcome: chain.execution_outcome, trie_data: chain.trie_data }
}

/// A change of the canonical chain, as subscribers get it.
#[derive(Debug, Clone)]
pub enum ExExNotification<C> {
    ChainCommitted { new: C },
    ChainReorged { old_chain: C, new: C },
    ChainReverted { old_chain: C },
}

/// A notification of this chain.
pub type BscNotification<H, B, S, A, O, D> = ExExNotification<
    Chain<RecoveredBscBlock<H, B, S, A>, O, D>,
>;

/// A notification in the shape in which subscribers take it.
pub type EthNotification<H, B, A, O, D> = ExExNotification<
    Chain<RecoveredEthBlock<H, B, A>, O, D>,
>;

/// `eth` is the notification `bsc` with its chains re-shaped as ones of Ethereum.
pub open spec fn is_eth_notification<H, B, S, A, O, D>(
    bsc: BscNotification<H, B, S, A, O, D>,
    eth: EthNotification<H, B, A, O, D>,
) -> bool {
    match (bsc, eth) {
        (
            ExExNotification::ChainCommitted { new },
            ExExNotification::ChainCommitted { new: eth_new },
        ) => is_eth_chain(new, eth_new),
        (
            ExExNotification::ChainReorged { old_chain, new },
            ExExNotification::ChainReorged { old_chain: eth_old, new: eth_new },
        ) => is_eth_chain(old_chain, eth_old) && is_eth_chain(new, eth_new),
        (
            ExExNotification::ChainReverted { old_chain },
            ExExNotification::ChainReverted { old_chain: eth_old },
        ) => is_eth_chain(old_chain, eth_old),
        _ => false,
    }
}

/// Converts a notification into the one that is put on the wire.
pub fn to_eth_notification<H, B, S, A, O, D>(
    notification: BscNotification<H, B, S, A, O, D>,
) -> (eth: EthNotification<H, B, A, O, D>)
    ensures
        is_eth_notification(notification, eth),
{
    match notification {
        ExExNotification::ChainCommitted { new } => ExExNotification::ChainCommitted {
            new: to_eth_chain(new),
        },
        ExExNotification::ChainReorged { old_chain, new } => ExExNotification::ChainReorged {
            old_chain: to_eth_chain(old_chain),
            new: to_eth_chain(new),
        },
        ExExNotification::ChainReverted { old_chain } => ExExNotification::ChainReverted {
            old_chain: to_eth_chain(old_chain),
        },
    }
}

/// A change of the canonical chain, as the node gives it.
#[derive(Debug)]
pub enum CanonStateNotification<C> {
    Commit { new: C },
    Reorg { old_chain: C, new: C },
}

/// The notification that a change of the canonical chain is published as.
pub fn publish_canonical<C>(change: CanonStateNotification<C>) -> (notification: ExExNotification<
    C,
>)
    ensures
        notification == match change {
            CanonStateNotification::Commit { new } => ExExNotification::ChainCommitted { new },
            CanonStateNotification::Reorg { old_chain, new } => ExExNotification::ChainReorged {
                old_chain,
                new,
            },
        },
{
    match change {
        CanonStateNotification::Commit { new } => ExExNotification::ChainCommitted { new },
        CanonStateNotification::Reorg { old_chain, new } => ExExNotification::ChainReorged {
            old_chain,
            new,
        },
    }
}

/// What happens to the stream of a subscriber.
#[derive(Debug)]
pub enum StreamEvent<N> {
    /// There is a notification.
    Received(N),
    /// There are no more notifications, or the subscriber has missed some.
    SourceEnded,
    /// The notification is encoded, in these bytes.
    Encoded(Vec<u8>),
    /// The notification cannot be encoded.
    EncodingFailed,
    /// The subscriber has the bytes.
    Delivered,
    /// The subscriber is gone.
    ClientGone,
}

/// What is done next for a subscriber.
#[derive(Debug)]
pub enum StreamAction<M> {
    /// Wait for a notification.
    Receive,
    /// Encode this notification.
    Encode(M),
    /// Send the bytes.
    Send(Vec<u8>),
    /// End the stream. A subscriber that has fallen behind reconnects and starts from the tip.
    End,
}

/// Whether `action` is what is done next for a subscriber. What is encoded of a notification is its
/// Ethereum shape.
pub open spec fn is_next_action<H, B, S, A, O, D>(
    event: StreamEvent<BscNotification<H, B, S, A, O, D>>,
    action: StreamAction<EthNotification<H, B, A, O, D>>,
) -> bool {
    match event {
        StreamEvent::Received(notification) => action matches StreamAction::Encode(eth)
            && is_eth_notification(notification, eth),
        StreamEvent::Encoded(data) => action == StreamAction::<
            EthNotification<H, B, A, O, D>,
        >::Send(data),
        StreamEvent::Delivered => action is Receive,
        StreamEvent::SourceEnded => action is End,
        StreamEvent::EncodingFailed => action is End,
        StreamEvent::ClientGone => action is End,
    }
}

/// Decides what is done next for a subscriber.
pub fn next_stream_action<H, B, S, A, O, D>(
    event: StreamEvent<BscNotification<H, B, S, A, O, D>>,
) -> (action: StreamAction<EthNotification<H, B, A, O, D>>)
    ensures
        is_next_action(event, action),
{
    match event {
        StreamEvent::Received(notification) => StreamAction::Encode(
            to_eth_notification(notification),
        ),
        StreamEvent::Encoded(data) => StreamAction::Send(data),
        StreamEvent::Delivered => StreamAction::Receive,
        StreamEvent::SourceEnded => StreamAction::End,
        StreamEvent::EncodingFailed => StreamAction::End,
        StreamEvent::ClientGone => StreamAction::End,
    }
}

/// What a subscriber's stream meets with: the notifications that come, what each becomes in the
/// shape of Ethereum, how that is encoded if it can be, and how many the subscriber takes before it
/// is gone.
#[verifier::reject_recursive_types(H)]
#[verifier::reject_recursive_types(B)]
#[verifier::reject_recursive_types(S)]
#[verifier::reject_recursive_types(A)]
#[verifier::reject_recursive_types(O)]
#[verifier::reject_recursive_types(D)]
pub struct Subscription<H, B, S, A, O, D> {
    pub source: Seq<BscNotification<H, B, S, A, O, D>>,
    pub shaped: Seq<EthNotification<H, B, A, O, D>>,
    pub encoding: spec_fn(EthNotification<H, B, A, O, D>) -> Option<Vec<u8>>,
    pub taken: nat,
}

/// How far a subscriber's stream has come: what is done next, how many notifications have come,
/// and what the subscriber has got.
#[verifier::reject_recursive_types(M)]
pub struct Streamed<M> {
    pub action: StreamAction<M>,
    pub received: nat,
    pub delivered: Seq<Vec<u8>>,
}

impl<H, B, S, A, O, D> Subscription<H, B, S, A, O, D> {
    /// Every notification has its Ethereum shape.
    pub open spec fn wf(self) -> bool {
        &&& self.shaped.len() == self.source.len()
        &&& forall|i: int|
            0 <= i < self.source.len() ==> is_eth_notification(
                #[trigger] self.source[i],
                self.shaped[i],
            )
    }

    /// What comes of an action.
    pub open spec fn event(
        self,
        at: Streamed<EthNotification<H, B, A, O, D>>,
    ) -> StreamEvent<BscNotification<H, B, S, A, O, D>> {
        match at.action {
            StreamAction::Receive => if at.received < self.source.len() {
                StreamEvent::Received(self.source[at.received as int])
            } else {
                StreamEvent::SourceEnded
            },
            StreamAction::Encode(eth) => match (self.encoding)(eth) {
                Some(data) => StreamEvent::Encoded(data),
                None => StreamEvent::EncodingFailed,
            },
            StreamAction::Send(_) => if at.delivered.len() < self.taken {
                StreamEvent::Delivered
            } else {
                StreamEvent::ClientGone
            },
            StreamAction::End => StreamEvent::SourceEnded,
        }
    }

    /// One action further.
    pub open spec fn advance(
        self,
        at: Streamed<EthNotification<H, B, A, O, D>>,
    ) -> Streamed<EthNotification<H, B, A, O, D>> {
        let event = self.event(at);
        Streamed {
            action: match event {
                StreamEvent::Received(_) => StreamAction::Encode(self.shaped[at.received as int]),
                StreamEvent::Encoded(data) => StreamAction::Send(data),
                StreamEvent::Delivered => StreamAction::Receive,
                _ => StreamAction::End,
            },
            received: if event is Received {
                at.received + 1
            } else {
                at.received
            },
            delivered: match (at.action, event) {
                (StreamAction::Send(data), StreamEvent::Delivered) => at.delivered.push(data),
                _ => at.delivered,
            },
        }
    }

    /// The stream after `n` actions. It starts by waiting for a notification.
    pub open spec fn run(self, n: nat) -> Streamed<EthNotification<H, B, A, O, D>>
        decreases n,
    {
        if n == 0 {
            Streamed { action: StreamAction::Receive, received: 0, delivered: seq![] }
        } else {
            self.advance(self.run((n - 1) as nat))
        }
    }

    /// Every action of a stream is the one that is decided on for what came of the action before.
    pub proof fn law_stream_does_what_is_decided(
        self,
        at: Streamed<EthNotification<H, B, A, O, D>>,
    )
        requires
            self.wf(),
        ensures
            is_next_action(self.event(at), self.advance(at).action),
    {
    }

    /// What the subscriber has got are the encodings of the first notifications in the shape of
    /// Ethereum, each once and in the order in which they came, and the next one is on its way.
    pub open spec fn in_order(self, at: Streamed<EthNotification<H, B, A, O, D>>) -> bool {
        let n = at.delivered.len();
        &&& n <= at.received <= self.source.len()
        &&& forall|i: int|
            0 <= i < n ==> {
                &&& is_eth_notification(self.source[i], self.shaped[i])
                &&& (self.encoding)(self.shaped[i]) == Some(#[trigger] at.delivered[i])
            }
        &&& match at.action {
            StreamAction::Receive => at.received == n,
            StreamAction::Encode(eth) => at.received == n + 1 && eth == self.shaped[n as int],
            StreamAction::Send(data) => at.received == n + 1 && (self.encoding)(
                self.shaped[n as int],
            ) == Some(data),
            StreamAction::End => at.received <= n + 1,
        }
    }

    /// However long a stream runs, the subscriber has got each of the first notifications once, in
    /// the shape of Ethereum and in the order in which they came, and nothing else.
    pub proof fn law_notifications_come_once_in_order(self, n: nat)
        requires
            self.wf(),
        ensures
            self.in_order(self.run(n)),
        decreases n,
    {
        if n > 0 {
            self.law_notifications_come_once_in_order((n - 1) as nat);
            let at = self.run((n - 1) as nat);
            let next = self.run(n);
            assert forall|i: int| 0 <= i < next.delivered.len() implies is_eth_notification(
                self.source[i],
                self.shaped[i],
            ) && (self.encoding)(self.shaped[i]) == Some(#[trigger] next.delivered[i]) by {
                if i < at.delivered.len() {
                    assert(next.delivered[i] == at.delivered[i]);
                }
            }
        }
    }

    proof fn lemma_round(self, k: nat)
        requires
            self.wf(),
            k <= self.source.len(),
            k <= self.taken,
            forall|i: int|
                0 <= i < k ==> (self.encoding)(#[trigger] self.shaped[i]) is Some,
        ensures
            self.run(3 * k).action is Receive,
            self.run(3 * k).received == k,
            self.run(3 * k).delivered.len() == k,
        decreases k,
    {
        if k > 0 {
            let j = (k - 1) as nat;
            self.lemma_round(j);
            let start = self.run(3 * j);
            assert((self.encoding)(self.shaped[j as int]) is Some);
            assert(self.run(3 * j + 1) == self.advance(start));
            assert(self.run(3 * j + 2) == self.advance(self.run(3 * j + 1)));
            assert(self.run(3 * j + 3) == self.advance(self.run(3 * j + 2)));
            assert(3 * k == 3 * j + 3);
        }
    }

    /// A subscriber that stays gets every notification, where all of them can be encoded, before
    /// its stream ends.
    pub proof fn law_subscriber_gets_every_notification(self)
        requires
            self.wf(),
            self.source.len() <= self.taken,
            forall|i: int|
                0 <= i < self.shaped.len() ==> (self.encoding)(#[trigger] self.shaped[i]) is Some,
        ensures
            exists|n: nat|
                (#[trigger] self.run(n)).action is End && self.run(n).delivered.len()
                    == self.source.len(),
    {
        let n = 3 * self.source.len();
        self.lemma_round(self.source.len());
        assert(self.run(n + 1) == self.advance(self.run(n)));
        assert(self.run(n + 1).action is End);
        assert(self.run(n + 1).delivered.len() == self.source.len());
    }

    /// At the first notification that cannot be encoded the stream ends, and the subscriber has got
    /// those before it.
    pub proof fn law_unencodable_notification_ends_the_stream(self, k: nat)
        requires
            self.wf(),
            k < self.source.len(),
            k <= self.taken,
            forall|i: int|
                0 <= i < k ==> (self.encoding)(#[trigger] self.shaped[i]) is Some,
            (self.encoding)(self.shaped[k as int]) is None,
        ensures
            self.run(3 * k + 2).action is End,
            self.run(3 * k + 2).delivered.len() == k,
    {
        self.lemma_round(k);
        assert(self.run(3 * k + 1) == self.advance(self.run(3 * k)));
        assert(self.run(3 * k + 2) == self.advance(self.run(3 * k + 1)));
    }

    /// A stream that has ended does nothing more.
    pub proof fn law_ended_stream_stays_ended(self, n: nat, more: nat)
        requires
            self.run(n).action is End,
        ensures
            self.run(n + more) == self.run(n),
        decreases more,
    {
        if more > 0 {
            self.law_ended_stream_stays_ended(n, (more - 1) as nat);
            let at = self.run((n + more - 1) as nat);
            assert(self.run(n + more) == self.advance(at));
        }
    }
}

/// Sidecars leave no trace: chains that differ in nothing else become chains that differ in
/// nothing.
pub proof fn law_sidecars_leave_no_trace<H, B, S, A, O, D>(
    first: Chain<RecoveredBscBlock<H, B, S, A>, O, D>,
    second: Chain<RecoveredBscBlock<H, B, S, A>, O, D>,
    eth_first: Chain<RecoveredEthBlock<H, B, A>, O, D>,
    eth_second: Chain<RecoveredEthBlock<H, B, A>, O, D>,
)
    requires
        is_eth_chain(first, eth_first),
        is_eth_chain(second, eth_second),
        first.blocks@.len() == second.blocks@.len(),
        forall|i: int|
            0 <= i < first.blocks@.len() ==> {
                &&& (#[trigger] first.blocks@[i]).block.header == second.blocks@[i].block.header
                &&& first.blocks@[i].block.body.inner == second.blocks@[i].block.body.inner
                &&& first.blocks@[i].senders == second.blocks@[i].senders
            },
        first.execution_outcome == second.execution_outcome,
        first.trie_data == second.trie_data,
    ensures
        eth_first.blocks@ == eth_second.blocks@,
        eth_first.execution_outcome == eth_second.execution_outcome,
        eth_first.trie_data == eth_second.trie_data,
{
    assert(eth_first.blocks@ =~= eth_second.blocks@) by {
        assert forall|i: int| 0 <= i < eth_first.blocks@.len() implies eth_first.blocks@[i]
            == eth_second.blocks@[i] by {
            assert(first.blocks@[i].block.header == second.blocks@[i].block.header);
        }
    }
}

/// How many notifications show that a subscription works.
pub const ENOUGH_NOTIFICATIONS: usize = 5;

/// What a subscriber has received.
#[derive(Debug)]
pub struct SubscriptionProgress {
    pub count: usize,
    pub bytes: usize,
}

impl SubscriptionProgress {
    /// Nothing received yet.
    pub fn new() -> (progress: Self)
        ensures
            progress.count == 0,
            progress.bytes == 0,
    {
        SubscriptionProgress { count: 0, bytes: 0 }
    }

    /// Counts a notification of `size` bytes, and says whether enough were received.
    pub fn record(&mut self, size: usize) -> (enough: bool)
        requires
            old(self).count < usize::MAX,
            old(self).bytes + size <= usize::MAX,
        ensures
            final(self).count == old(self).count + 1,
            final(self).bytes == old(self).bytes + size,
            enough == (final(self).count >= ENOUGH_NOTIFICATIONS),
            enough == (old(self).count + 1 >= 5),
    {
        self.count = self.count + 1;
        self.bytes = self.bytes + size;
        self.count >= ENOUGH_NOTIFICATIONS
    }
}

/// A chain in the shape of Ethereum has as many blocks, and each of them the header, the body without
/// sidecars and the senders of the block at its place; outcome and trie data are the same.
pub proof fn law_eth_chain_keeps_headers_bodies_and_senders<H, B, S, A, O, D>(
    bsc: Chain<RecoveredBscBlock<H, B, S, A>, O, D>,
    eth: Chain<RecoveredEthBlock<H, B, A>, O, D>,
)
    ensures
        is_eth_chain(bsc, eth) <==> {
            &&& eth.blocks@.len() == bsc.blocks@.len()
            &&& forall|i: int|
                0 <= i < eth.blocks@.len() ==> {
                    &&& (#[trigger] eth.blocks@[i]).block.header == bsc.blocks@[i].block.header
                    &&& eth.blocks@[i].block.body == bsc.blocks@[i].block.body.inner
                    &&& eth.blocks@[i].senders == bsc.blocks@[i].senders
                }
            &&& eth.execution_outcome == bsc.execution_outcome
            &&& eth.trie_data == bsc.trie_data
        },
{
    if eth.blocks@.len() == bsc.blocks@.len() && (forall|i: int|
        0 <= i < eth.blocks@.len() ==> {
            &&& (#[trigger] eth.blocks@[i]).block.header == bsc.blocks@[i].block.header
            &&& eth.blocks@[i].block.body == bsc.blocks@[i].block.body.inner
            &&& eth.blocks@[i].senders == bsc.blocks@[i].senders
        }) {
        assert forall|i: int| 0 <= i < eth.blocks@.len() implies #[trigger] eth.blocks@[i]
            == eth_block(bsc.blocks@[i]) by {}
    }
}

/// A notification stays what it is: a commit a commit, a reorganisation one of the old chain to the
/// new one, a revert a revert, with each chain re-shaped in its place.
pub proof fn law_notification_keeps_its_kind<H, B, S, A, O, D>(
    bsc: BscNotification<H, B, S, A, O, D>,
    eth: EthNotification<H, B, A, O, D>,
)
    requires
        is_eth_notification(bsc, eth),
    ensures
        bsc is ChainCommitted <==> eth is ChainCommitted,
        bsc is ChainReorged <==> eth is ChainReorged,
        bsc is ChainReverted <==> eth is ChainReverted,
        bsc matches ExExNotification::ChainCommitted { new } ==> is_eth_chain(
            new,
            eth->ChainCommitted_new,
        ),
        bsc matches ExExNotification::ChainReorged { old_chain, new } ==> is_eth_chain(
            old_chain,
            eth->ChainReorged_old_chain,
        ) && is_eth_chain(new, eth->ChainReorged_new),
        bsc matches ExExNotification::ChainReverted { old_chain } ==> is_eth_chain(
            old_chain,
            eth->ChainReverted_old_chain,
        ),
{
}

/// A notification that comes is encoded in its Ethereum shape, encoded bytes are sent as they are, and
/// after a delivery the next notification is waited for. Whatever else happens ends the stream.
pub proof fn law_every_event_has_its_action<H, B, S, A, O, D>(
    event: StreamEvent<BscNotification<H, B, S, A, O, D>>,
    action: StreamAction<EthNotification<H, B, A, O, D>>,
)
    requires
        is_next_action(event, action),
    ensures
        event matches StreamEvent::Received(notification) ==> action matches StreamAction::Encode(eth)
            && is_eth_notification(notification, eth),
        event matches StreamEvent::Encoded(data) ==> action matches StreamAction::Send(sent) && sent
            == data,
        event is Delivered ==> action is Receive,
        event is SourceEnded || event is EncodingFailed || event is ClientGone ==> action is End,
{
}

}
