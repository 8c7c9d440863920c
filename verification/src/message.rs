use vstd::prelude::*;

use crate::error::ConnectionError;

verus! {

/// Identifies a transaction within the network.
#[derive(Debug, Clone, Copy, PartialEq, Eq)]
pub struct Transaction {
    pub id: u128,
}

/// What the parts of a node tell each other without involving another peer.
#[derive(Debug, PartialEq, Eq)]
pub enum NodeActions {
    /// A peer opened a substream that was accepted.
    ConfirmedInbound,
    /// The node has to stop.
    ShutdownNode,
    /// A connection failed.
    Error(ConnectionError),
}

/// A message as the network layer sees it; `T` is the content of an operation, which this layer
/// moves without looking into it.
#[derive(Debug, PartialEq, Eq)]
pub enum Message<T> {
    /// A transaction was cancelled.
    Canceled(Transaction),
    /// Stays within the node.
    Internal(NodeActions),
    /// Part of an operation between peers.
    Operation(T),
}

impl<T> Message<T> {
    /// The message that reports `error`.
    pub open spec fn failure(error: ConnectionError) -> Message<T> {
        Message::Internal(NodeActions::Error(error))
    }
}

} // verus!
