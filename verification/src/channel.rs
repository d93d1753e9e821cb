//! Commands to the stream of a peer, and the channels that carry them.

use std::sync::Arc;

use tokio::sync::mpsc::UnboundedSender;
use vstd::prelude::*;

use crate::primitives::BlockHash;

verus! {

/// A request for consecutive blocks.
#[derive(Debug, Clone, Copy)]
pub struct GetBlocksByRangePacket {
    pub request_id: u64,
    pub start_block_height: u64,
    pub start_block_hash: BlockHash,
    pub count: u64,
}

/// What the stream of a peer is told to send. `V` is a vote, `R` takes the reply to a request.
#[derive(Debug)]
pub enum BscCommand<V, R> {
    Votes(Arc<Vec<V>>),
    GetBlocksByRange(GetBlocksByRangePacket, R),
}

/// The sending half of the channel to a peer's stream.
///
/// As a value it stands for its channel: handles of one channel are equal, those of two channels
/// are not.
#[verifier::external_type_specification]
#[verifier::external_body]
#[verifier::reject_recursive_types(T)]
pub struct ExUnboundedSender<T>(tokio::sync::mpsc::UnboundedSender<T>);

/// `tokio::sync::mpsc::UnboundedSender::same_channel`.
///
/// Claimed: it tells whether two handles are of one channel.
pub assume_specification<T>[ UnboundedSender::<T>::same_channel ](
    tx: &UnboundedSender<T>,
    other: &UnboundedSender<T>,
) -> (same: bool)
    ensures
        same == (*tx == *other),
;

/// `tokio::sync::mpsc::UnboundedSender::clone`.
///
/// Claimed: the copy is a handle of the same channel.
pub assume_specification<T>[ <UnboundedSender<T> as Clone>::clone ](
    tx: &UnboundedSender<T>,
) -> (copy: UnboundedSender<T>)
    ensures
        copy == *tx,
;

}
