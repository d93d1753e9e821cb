//! Requests for ranges of blocks.

use tokio::sync::mpsc::UnboundedSender;
use vstd::prelude::*;

use crate::announcers::{list_announcers_for, Announcers};
use crate::channel::{BscCommand, GetBlocksByRangePacket};
use crate::failover;
use crate::failover::plan_v2_failover_peers;
use crate::lru;
use crate::primitives::{BlockHash, PeerId};
use crate::registry::{list_v2_peers, PeerEntry, Registry, RANGE_VERSION};

verus! {

/// The blocks that a peer answers a request with.
#[derive(Debug)]
pub struct BlocksByRangePacket<B> {
    pub request_id: u64,
    pub blocks: Vec<B>,
}

/// Why a request for blocks came to nothing.
#[derive(Debug)]
pub enum RangeRequestError {
    /// No blocks, or too many, were asked for.
    InvalidCount(u64),
    /// The peer negotiated a version that does not know the request.
    UnsupportedVersion,
    /// The peer is not registered.
    NotRegistered,
    /// The stream of the peer is gone.
    SendFailed,
    /// The stream of the peer gave up the request, for the reason it gives.
    Failed(String),
    /// The stream of the peer dropped the request.
    Canceled,
    /// No answer came in time.
    TimedOut,
    /// There is no peer to ask.
    NoPeers,
}

/// The decimal notation of a number.
pub open spec fn decimal(n: nat) -> Seq<char>
    decreases n,
{
    let digit = digit_char(n % 10);
    if n < 10 {
        seq![digit]
    } else {
        decimal(n / 10).push(digit)
    }
}

/// The character of a digit.
pub open spec fn digit_char(digit: nat) -> char {
    ('0' as u8 + digit) as char
}

fn digit_str(digit: u64) -> (s: &'static str)
    requires
        digit < 10,
    ensures
        s@ == seq![digit_char(digit as nat)],
{
    let s = match digit {
        0 => "0",
        1 => "1",
        2 => "2",
        3 => "3",
        4 => "4",
        5 => "5",
        6 => "6",
        7 => "7",
        8 => "8",
        _ => "9",
    };
    proof {
        reveal_strlit("0");
        reveal_strlit("1");
        reveal_strlit("2");
        reveal_strlit("3");
        reveal_strlit("4");
        reveal_strlit("5");
        reveal_strlit("6");
        reveal_strlit("7");
        reveal_strlit("8");
        reveal_strlit("9");
        assert(s@ =~= seq![digit_char(digit as nat)]);
    }
    s
}

fn decimal_string(n: u64) -> (s: String)
    ensures
        s@ == decimal(n as nat),
    decreases n,
{
    if n < 10 {
        String::from_str(digit_str(n))
    } else {
        let mut s = decimal_string(n / 10);
        s.append(digit_str(n % 10));
        assert(s@ =~= decimal((n / 10) as nat).push(digit_char((n % 10) as nat)));
        s
    }
}

impl RangeRequestError {
    /// The error in words.
    pub open spec fn text(self) -> Seq<char> {
        match self {
            RangeRequestError::InvalidCount(count) => "invalid count "@ + decimal(count as nat),
            RangeRequestError::UnsupportedVersion
                => "peer does not support bsc/2 GetBlocksByRange"@,
            RangeRequestError::NotRegistered => "peer not registered for bsc protocol"@,
            RangeRequestError::SendFailed => "failed to send GetBlocksByRange command"@,
            RangeRequestError::Failed(reason) => reason@,
            RangeRequestError::Canceled => "request canceled"@,
            RangeRequestError::TimedOut => "request timed out"@,
            RangeRequestError::NoPeers => "no bsc/2 peers available for range request"@,
        }
    }

    /// Says the error in words.
    pub fn message(&self) -> (message: String)
        ensures
            message@ == self.text(),
            message@ == match *self {
                RangeRequestError::InvalidCount(count) => "invalid count "@ + decimal(count as nat),
                RangeRequestError::UnsupportedVersion
                    => "peer does not support bsc/2 GetBlocksByRange"@,
                RangeRequestError::NotRegistered => "peer not registered for bsc protocol"@,
                RangeRequestError::SendFailed => "failed to send GetBlocksByRange command"@,
                RangeRequestError::Failed(reason) => reason@,
                RangeRequestError::Canceled => "request canceled"@,
                RangeRequestError::TimedOut => "request timed out"@,
                RangeRequestError::NoPeers => "no bsc/2 peers available for range request"@,
            },
    {
        match self {
            RangeRequestError::InvalidCount(count) => {
                let mut message = String::from_str("invalid count ");
                let digits = decimal_string(*count);
                message.append(digits.as_str());
                message
            },
            RangeRequestError::UnsupportedVersion => String::from_str(
                "peer does not support bsc/2 GetBlocksByRange",
            ),
            RangeRequestError::NotRegistered => String::from_str(
                "peer not registered for bsc protocol",
            ),
            RangeRequestError::SendFailed => String::from_str(
                "failed to send GetBlocksByRange command",
            ),
            RangeRequestError::Failed(reason) => reason.clone(),
            RangeRequestError::Canceled => String::from_str("request canceled"),
            RangeRequestError::TimedOut => String::from_str("request timed out"),
            RangeRequestError::NoPeers => String::from_str(
                "no bsc/2 peers available for range request",
            ),
        }
    }
}

/// What numbers and limits the requests.
#[derive(Debug)]
pub struct RangeRequests {
    /// Identifier of the next request.
    pub next_id: u64,
    /// Most blocks that may be asked for at once.
    pub max_count: u64,
}

impl RangeRequests {
    /// Requests are numbered from one.
    pub fn new(max_count: u64) -> (requests: Self)
        ensures
            requests.next_id == 1,
            requests.max_count == max_count,
    {
        RangeRequests { next_id: 1, max_count }
    }

    /// The state after one more request. The numbers wrap around.
    pub open spec fn advanced(self) -> RangeRequests {
        RangeRequests {
            next_id: if self.next_id == u64::MAX {
                0
            } else {
                (self.next_id + 1) as u64
            },
            max_count: self.max_count,
        }
    }
}

/// The state after `n` more requests.
pub open spec fn after_requests(requests: RangeRequests, n: nat) -> RangeRequests
    decreases n,
{
    if n == 0 {
        requests
    } else {
        after_requests(requests, (n - 1) as nat).advanced()
    }
}

proof fn lemma_request_id(requests: RangeRequests, n: nat)
    ensures
        after_requests(requests, n).next_id == (requests.next_id + n) % (u64::MAX + 1),
    decreases n,
{
    let size = u64::MAX + 1;
    if n > 0 {
        let m = (n - 1) as nat;
        lemma_request_id(requests, m);
        let before = after_requests(requests, m).next_id;
        vstd::arithmetic::div_mod::lemma_add_mod_noop(requests.next_id + m, 1, size);
        if before == u64::MAX {
            assert((before + 1) % size == 0);
        }
    }
}

/// No two of fewer than 2^64 successive requests have the same identifier.
pub proof fn law_request_numbers_differ(requests: RangeRequests, first: nat, second: nat)
    requires
        first < second,
        second - first <= u64::MAX,
    ensures
        after_requests(requests, first).next_id != after_requests(requests, second).next_id,
{
    let size = u64::MAX + 1;
    let a = requests.next_id + first;
    let b = requests.next_id + second;
    lemma_request_id(requests, first);
    lemma_request_id(requests, second);
    if a % size == b % size {
        vstd::arithmetic::div_mod::lemma_mod_equivalence(b, a, size);
        vstd::arithmetic::div_mod::lemma_small_mod((b - a) as nat, size as nat);
    }
}

/// What is to be done about a request.
#[verifier::reject_recursive_types(V)]
#[verifier::reject_recursive_types(R)]
pub enum RangeDispatch<V, R> {
    /// This command is to be sent on this channel, and nothing else.
    Send(UnboundedSender<BscCommand<V, R>>, BscCommand<V, R>),
    /// Nothing is to be sent. What was to take the answer comes back.
    Rejected(RangeRequestError, R),
}

/// Why a request is not even sent, if there is a reason.
pub open spec fn rejection<V, R>(
    registry: &Registry<V, R>,
    max_count: u64,
    peer: PeerId,
    count: u64,
) -> Option<RangeRequestError> {
    if count == 0 || count > max_count {
        Some(RangeRequestError::InvalidCount(count))
    } else if !registry@.contains_key(peer) {
        Some(RangeRequestError::NotRegistered)
    } else if registry@[peer].version < RANGE_VERSION {
        Some(RangeRequestError::UnsupportedVersion)
    } else {
        None
    }
}

/// Works out what is to be sent to ask a peer for `count` blocks from block `start_hash` at
/// `start_height` on, where it may be asked. The answer goes to `reply_to`.
///
/// A peer that does not know the request would break off the connection at it, so such a peer does
/// not get one.
pub fn request_blocks_by_range<V, R>(
    registry: &Registry<V, R>,
    requests: &mut RangeRequests,
    peer: PeerId,
    start_height: u64,
    start_hash: BlockHash,
    count: u64,
    reply_to: R,
) -> (dispatch: RangeDispatch<V, R>)
    requires
        registry.wf(),
    ensures
        match rejection(registry, old(requests).max_count, peer, count) {
            Some(error) => {
                &&& dispatch == RangeDispatch::<V, R>::Rejected(error, reply_to)
                &&& *final(requests) == *old(requests)
            },
            None => {
                let packet = GetBlocksByRangePacket {
                    request_id: old(requests).next_id,
                    start_block_height: start_height,
                    start_block_hash: start_hash,
                    count,
                };
                &&& dispatch == RangeDispatch::<V, R>::Send(
                    registry@[peer].tx,
                    BscCommand::GetBlocksByRange(packet, reply_to),
                )
                &&& *final(requests) == old(requests).advanced()
            },
        },
        final(requests).max_count == old(requests).max_count,
        dispatch is Send <==> 0 < count <= old(requests).max_count && registry@.contains_key(peer)
            && registry@[peer].version >= 2,
        dispatch is Send ==> final(requests).next_id == (old(requests).next_id + 1) % (u64::MAX + 1),
        dispatch matches RangeDispatch::Send(tx, command) ==> tx == registry@[peer].tx && (
        command matches BscCommand::GetBlocksByRange(packet, reply) && reply == reply_to
            && packet.request_id == old(requests).next_id && packet.start_block_height
            == start_height && packet.start_block_hash == start_hash && packet.count == count),
        dispatch matches RangeDispatch::Rejected(error, reply) ==> reply == reply_to
            && final(requests).next_id == old(requests).next_id && error == (if count == 0 || count
            > old(requests).max_count {
            RangeRequestError::InvalidCount(count)
        } else if registry@.contains_key(peer) {
            RangeRequestError::UnsupportedVersion
        } else {
            RangeRequestError::NotRegistered
        }),
{
    if count == 0 || count > requests.max_count {
        return RangeDispatch::Rejected(RangeRequestError::InvalidCount(count), reply_to);
    }
    let tx = match registry.get(&peer) {
        None => return RangeDispatch::Rejected(RangeRequestError::NotRegistered, reply_to),
        Some(entry) => {
            if entry.version < RANGE_VERSION {
                return RangeDispatch::Rejected(RangeRequestError::UnsupportedVersion, reply_to);
            }
            entry.tx.clone()
        },
    };
    let packet = GetBlocksByRangePacket {
        request_id: requests.next_id,
        start_block_height: start_height,
        start_block_hash: start_hash,
        count,
    };
    requests.next_id = requests.next_id.wrapping_add(1);
    RangeDispatch::Send(tx, BscCommand::GetBlocksByRange(packet, reply_to))
}

/// Whether `tx` is what `peer` is registered with.
pub open spec fn is_registered_with<V, R>(
    peers: Map<PeerId, PeerEntry<V, R>>,
    peer: PeerId,
    tx: UnboundedSender<BscCommand<V, R>>,
) -> bool {
    peers.contains_key(peer) && peers[peer].tx == tx
}

/// Forgets a peer whose stream is gone, unless it has come back on another channel meanwhile. Says
/// whether it was forgotten: then the connection is to be broken off, so that the peer reconnects
/// and registers anew.
pub fn evict_stale_peer<V, R>(
    registry: &mut Registry<V, R>,
    peer: PeerId,
    tx: &UnboundedSender<BscCommand<V, R>>,
) -> (evicted: bool)
    requires
        old(registry).wf(),
    ensures
        final(registry).wf(),
        evicted == is_registered_with(old(registry)@, peer, *tx),
        evicted == (old(registry)@.contains_key(peer) && old(registry)@[peer].tx == *tx),
        final(registry)@ == if evicted {
            old(registry)@.remove(peer)
        } else {
            old(registry)@
        },
{
    let stale = match registry.get(&peer) {
        Some(entry) => entry.tx.same_channel(tx),
        None => false,
    };
    if stale {
        registry.remove(&peer);
    }
    stale
}

/// A peer that has reconnected is not forgotten on account of the channel that it had before.
pub proof fn law_reconnected_peer_is_kept<V, R>(
    peers: Map<PeerId, PeerEntry<V, R>>,
    peer: PeerId,
    entry: PeerEntry<V, R>,
    stale: UnboundedSender<BscCommand<V, R>>,
)
    requires
        entry.tx != stale,
    ensures
        !is_registered_with(peers.insert(peer, entry), peer, stale),
{
}

/// How a request that may be sent ended.
#[derive(Debug)]
pub enum RangeOutcome<B> {
    /// The stream of the peer is gone.
    Undelivered,
    /// The stream of the peer answered.
    Answered(Result<BlocksByRangePacket<B>, String>),
    /// The stream dropped the request.
    Canceled,
    /// The time was over.
    Elapsed,
}

/// What a request comes to.
pub fn range_result<B>(outcome: RangeOutcome<B>) -> (result: Result<
    BlocksByRangePacket<B>,
    RangeRequestError,
>)
    ensures
        result == match outcome {
            RangeOutcome::Undelivered => Err(RangeRequestError::SendFailed),
            RangeOutcome::Answered(Ok(packet)) => Ok(packet),
            RangeOutcome::Answered(Err(reason)) => Err(RangeRequestError::Failed(reason)),
            RangeOutcome::Canceled => Err(RangeRequestError::Canceled),
            RangeOutcome::Elapsed => Err(RangeRequestError::TimedOut),
        },
{
    match outcome {
        RangeOutcome::Undelivered => Err(RangeRequestError::SendFailed),
        RangeOutcome::Answered(Ok(packet)) => Ok(packet),
        RangeOutcome::Answered(Err(reason)) => Err(RangeRequestError::Failed(reason)),
        RangeOutcome::Canceled => Err(RangeRequestError::Canceled),
        RangeOutcome::Elapsed => Err(RangeRequestError::TimedOut),
    }
}

/// What a peer answered, or why it did not.
pub type RangeResult<B> = Result<BlocksByRangePacket<B>, RangeRequestError>;

/// Whether an answer is what was asked for: an answer without blocks is not.
pub open spec fn is_settled<B>(answer: RangeResult<B>) -> bool {
    answer matches Ok(packet) && packet.blocks@.len() > 0
}

/// What the attempts come to once peer number `asked` of `total` has answered. There is no result
/// yet where the answer is not what was asked for and another peer can be asked.
pub open spec fn failover_result<B>(
    asked: int,
    total: int,
    answer: RangeResult<B>,
) -> Option<RangeResult<B>> {
    if is_settled(answer) || asked + 1 >= total {
        Some(answer)
    } else {
        None
    }
}

/// Attempts to get a range of blocks from one peer after the other.
#[derive(Debug)]
pub struct Failover {
    peers: Vec<PeerId>,
    asked: usize,
}

/// How the attempts go on.
#[derive(Debug)]
pub enum FailoverStep<B> {
    /// Another peer is to be asked.
    Ask(Failover),
    /// They are over.
    Finished(RangeResult<B>),
}

impl Failover {
    /// The peers to ask, in order.
    pub closed spec fn plan(&self) -> Seq<PeerId> {
        self.peers@
    }

    /// How many peers have answered.
    pub closed spec fn asked(&self) -> int {
        self.asked as int
    }

    /// There is a peer to ask.
    pub open spec fn wf(&self) -> bool {
        0 <= self.asked() < self.plan().len()
    }

    /// The peer to ask next.
    pub fn peer(&self) -> (peer: PeerId)
        requires
            self.wf(),
        ensures
            peer == self.plan()[self.asked()],
    {
        self.peers[self.asked]
    }

    /// Takes the answer of the peer that was asked.
    pub fn record<B>(self, answer: RangeResult<B>) -> (step: FailoverStep<B>)
        requires
            self.wf(),
        ensures
            match failover_result(self.asked(), self.plan().len() as int, answer) {
                Some(result) => step == FailoverStep::Finished(result),
                None => step matches FailoverStep::Ask(next) && next.wf() && next.plan()
                    == self.plan() && next.asked() == self.asked() + 1,
            },
            step is Finished <==> (answer matches Ok(packet) && packet.blocks@.len() >= 1)
                || self.asked() == self.plan().len() - 1,
            step matches FailoverStep::Finished(result) ==> result == answer,
            step matches FailoverStep::Ask(next) ==> next.wf() && next.plan() == self.plan()
                && next.asked() == self.asked() + 1,
    {
        let settled = match &answer {
            Ok(packet) => packet.blocks.len() > 0,
            Err(_) => false,
        };
        let left: usize = self.peers.len() - self.asked;
        if settled || left <= 1 {
            FailoverStep::Finished(answer)
        } else {
            FailoverStep::Ask(Failover { peers: self.peers, asked: self.asked + 1 })
        }
    }
}

/// Starts attempts to get a range of blocks, with `preferred` first if it can be asked, then the
/// peers that announced block `start_hash`, then the others that can be asked.
pub fn request_blocks_by_range_with_failover<V, R>(
    registry: &Registry<V, R>,
    announcers: &mut Announcers,
    preferred: PeerId,
    start_hash: BlockHash,
    max_attempts: usize,
) -> (attempts: Result<Failover, RangeRequestError>)
    requires
        registry.wf(),
        old(announcers).wf(),
    ensures
        final(announcers).wf(),
        final(announcers).entries() == if lru::holds(old(announcers).entries(), start_hash) {
            seq![(start_hash, old(announcers).announced(start_hash))] + lru::others(
                old(announcers).entries(),
                start_hash,
            )
        } else {
            old(announcers).entries()
        },
        exists|v2_peers: Seq<PeerId>|
            v2_peers.no_duplicates() && (forall|peer: PeerId| #[trigger]
                v2_peers.contains(peer) == registry.is_v2(peer)) && ({
                let plan = #[trigger] failover::failover_plan(
                    preferred,
                    registry.v2_among(old(announcers).announced(start_hash)),
                    v2_peers,
                    max_attempts as nat,
                );
                match attempts {
                    Ok(failover) => failover.wf() && failover.plan() == plan && failover.asked()
                        == 0,
                    Err(error) => plan.len() == 0 && error == RangeRequestError::NoPeers,
                }
            }),
{
    let known = list_announcers_for(announcers, registry, start_hash);
    let v2_peers = list_v2_peers(registry);
    let ghost v2 = v2_peers@;
    let peers = plan_v2_failover_peers(preferred, known, v2_peers, max_attempts);
    proof {
        assert(peers@ == failover::failover_plan(
            preferred,
            registry.v2_among(old(announcers).announced(start_hash)),
            v2,
            max_attempts as nat,
        ));
    }
    if peers.is_empty() {
        Err(RangeRequestError::NoPeers)
    } else {
        Ok(Failover { peers, asked: 0 })
    }
}

/// What the attempts come to from peer number `asked` on, given the answers of all peers.
pub open spec fn run_failover<B>(asked: int, answers: Seq<RangeResult<B>>) -> RangeResult<B>
    decreases answers.len() - asked,
{
    match failover_result(asked, answers.len() as int, answers[asked]) {
        Some(result) => result,
        None => run_failover(asked + 1, answers),
    }
}

proof fn lemma_run_failover<B>(asked: int, answers: Seq<RangeResult<B>>, first: int)
    requires
        0 <= asked <= first < answers.len(),
        forall|i: int| asked <= i < first ==> !is_settled(#[trigger] answers[i]),
        is_settled(answers[first]) || first == answers.len() - 1,
    ensures
        run_failover(asked, answers) == answers[first],
    decreases first - asked,
{
    if asked < first {
        lemma_run_failover(asked + 1, answers, first);
    }
}

/// The first answer that has blocks is the result, and no peer after it matters.
pub proof fn law_first_answer_with_blocks_wins<B>(answers: Seq<RangeResult<B>>, first: int)
    requires
        0 <= first < answers.len(),
        answers[first] matches Ok(packet) && packet.blocks@.len() >= 1,
        forall|i: int|
            0 <= i < first ==> (#[trigger] answers[i] matches Ok(packet) ==> packet.blocks@.len()
                == 0),
    ensures
        run_failover(0, answers) == answers[first],
{
    lemma_run_failover(0, answers, first);
}

/// Where no answer has blocks, the last one is the result.
pub proof fn law_last_answer_stands_without_blocks<B>(answers: Seq<RangeResult<B>>)
    requires
        answers.len() > 0,
        forall|i: int|
            0 <= i < answers.len() ==> (#[trigger] answers[i] matches Ok(packet)
                ==> packet.blocks@.len() == 0),
    ensures
        run_failover(0, answers) == answers[answers.len() - 1],
{
    lemma_run_failover(0, answers, answers.len() - 1);
}

/// Every peer that is asked can be asked: it is registered with a version that knows the request.
pub proof fn law_only_v2_peers_are_asked<V, R>(
    registry: &Registry<V, R>,
    preferred: PeerId,
    announced: Seq<PeerId>,
    v2_peers: Seq<PeerId>,
    max_attempts: nat,
    peer: PeerId,
)
    requires
        forall|p: PeerId| #[trigger] v2_peers.contains(p) == registry.is_v2(p),
        failover::failover_plan(
            preferred,
            registry.v2_among(announced),
            v2_peers,
            max_attempts,
        ).contains(peer),
    ensures
        registry.is_v2(peer),
{
    let known = registry.v2_among(announced);
    assert forall|p: PeerId| known.contains(p) implies #[trigger] v2_peers.contains(p) by {
        let i = known.index_of(p);
        announced.lemma_filter_pred(|p: PeerId| registry.is_v2(p), i);
    }
    failover::law_plan_asks_v2_peers_only(preferred, known, v2_peers, max_attempts, peer);
}

/// A request is sent just where its count is in bounds and its peer is registered with a version
/// that knows it.
pub proof fn law_request_needs_a_v2_peer<V, R>(
    registry: &Registry<V, R>,
    max_count: u64,
    peer: PeerId,
    count: u64,
)
    ensures
        rejection(registry, max_count, peer, count) is None <==> 0 < count <= max_count
            && registry.is_v2(peer),
{
}

/// The decimal notation of a number has no more digits than it needs, and the digit at each place is
/// that of the number: counted from the right, the quotient by a power of ten, modulo ten.
pub proof fn law_decimal_digits_are_those_of_the_number(n: nat)
    ensures
        decimal(n).len() >= 1,
        n < vstd::arithmetic::power::pow(10, decimal(n).len()),
        decimal(n).len() > 1 ==> vstd::arithmetic::power::pow(10, (decimal(n).len() - 1) as nat) <= n,
        forall|i: int|
            0 <= i < decimal(n).len() ==> #[trigger] decimal(n)[decimal(n).len() - 1 - i] as u32
                == '0' as u32 + (n as int / vstd::arithmetic::power::pow(10, i as nat)) % 10,
    decreases n,
{
    vstd::arithmetic::power::lemma_pow0(10);
    vstd::arithmetic::power::lemma_pow1(10);
    if n >= 10 {
        let m = n / 10;
        law_decimal_digits_are_those_of_the_number(m);
        let len = decimal(m).len();
        reveal(vstd::arithmetic::power::pow);
        assert(vstd::arithmetic::power::pow(10, (len + 1) as nat) == 10
            * vstd::arithmetic::power::pow(10, len));
        assert(vstd::arithmetic::power::pow(10, len) == 10 * vstd::arithmetic::power::pow(
            10,
            (len - 1) as nat,
        ));
        assert(m < vstd::arithmetic::power::pow(10, len));
        assert(n < 10 * m + 10);
        assert forall|i: int| 0 <= i < decimal(n).len() implies #[trigger] decimal(
            n,
        )[decimal(n).len() - 1 - i] as u32 == '0' as u32 + (n as int
            / vstd::arithmetic::power::pow(10, i as nat)) % 10 by {
            if i > 0 {
                let p = vstd::arithmetic::power::pow(10, (i - 1) as nat);
                assert(decimal(n)[decimal(n).len() - 1 - i] == decimal(m)[len - 1 - (i - 1)]);
                vstd::arithmetic::power::lemma_pow_positive(10, (i - 1) as nat);
                assert(vstd::arithmetic::power::pow(10, i as nat) == 10 * p);
                vstd::arithmetic::div_mod::lemma_div_denominator(n as int, 10, p);
            }
        }
    }
}

/// Why a request is not sent: first a count that is zero or above the limit, then a peer that is not
/// registered, then one whose version is below two. Otherwise nothing is in its way.
pub proof fn law_rejections_come_in_order<V, R>(
    registry: &Registry<V, R>,
    max_count: u64,
    peer: PeerId,
    count: u64,
)
    ensures
        ({
            let why = rejection(registry, max_count, peer, count);
            let in_bounds = 1 <= count <= max_count;
            &&& !in_bounds ==> why == Some(RangeRequestError::InvalidCount(count))
            &&& in_bounds && !registry@.contains_key(peer) ==> why == Some(
                RangeRequestError::NotRegistered,
            )
            &&& in_bounds && registry@.contains_key(peer) && registry@[peer].version < 2 ==> why
                == Some(RangeRequestError::UnsupportedVersion)
            &&& in_bounds && registry@.contains_key(peer) && registry@[peer].version >= 2 ==> why
                is None
        }),
{
}

/// Each request takes the next number, after the highest the lowest, and leaves the limit as it is.
pub proof fn law_requests_are_numbered_in_turn(requests: RangeRequests)
    ensures
        requests.advanced().next_id == (requests.next_id + 1) % (u64::MAX + 1),
        requests.advanced().max_count == requests.max_count,
{
}

}
