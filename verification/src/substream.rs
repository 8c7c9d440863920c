use vstd::prelude::*;

use crate::error::ConnectionError;
use crate::message::Message;

verus! {

/// Distinguishes the substreams of one connection.
pub type UniqConnId = usize;

/// The state of one substream; `S` is the open stream itself.
#[derive(Debug, PartialEq, Eq)]
pub enum SubstreamState<S, T> {
    /// We haven't started opening the outgoing substream yet.
    /// Contains the initial request we want to send.
    OutPendingOpen { msg: Message<T>, conn_id: UniqConnId },
    /// Waiting for the first message after requesting an outbound open connection.
    AwaitingFirst { conn_id: UniqConnId },
    /// Open, with nothing to do.
    FreeStream { conn_id: UniqConnId, substream: S },
    /// Waiting to send a message to the remote.
    PendingSend { conn_id: UniqConnId, substream: S, msg: Message<T> },
    /// Waiting to flush the substream so that the data arrives to the remote.
    PendingFlush { conn_id: UniqConnId, substream: S },
    /// Waiting for an answer back from the remote.
    WaitingMsg { conn_id: UniqConnId, substream: S },
    /// An error happened on the substream and we should report the error to the user.
    ReportError { conn_id: UniqConnId, error: ConnectionError },
}

impl<S, T> SubstreamState<S, T> {
    /// The number under which the substream is known.
    pub open spec fn id(self) -> UniqConnId {
        match self {
            SubstreamState::OutPendingOpen { conn_id, .. } => conn_id,
            SubstreamState::AwaitingFirst { conn_id } => conn_id,
            SubstreamState::FreeStream { conn_id, .. } => conn_id,
            SubstreamState::PendingSend { conn_id, .. } => conn_id,
            SubstreamState::PendingFlush { conn_id, .. } => conn_id,
            SubstreamState::WaitingMsg { conn_id, .. } => conn_id,
            SubstreamState::ReportError { conn_id, .. } => conn_id,
        }
    }

    /// The message that waits on this substream to be sent.
    pub open spec fn outgoing(self) -> Option<Message<T>> {
        match self {
            SubstreamState::OutPendingOpen { msg, .. } => Some(msg),
            SubstreamState::PendingSend { msg, .. } => Some(msg),
            _ => None,
        }
    }

    /// Whether the substream is open and has nothing to do.
    pub fn is_free(&self) -> (free: bool)
        ensures
            free == (*self is FreeStream),
    {
        match self {
            SubstreamState::FreeStream { .. } => true,
            _ => false,
        }
    }

    /// Whether the opening of the substream was requested and has not happened yet.
    pub fn is_awaiting_first(&self) -> (awaiting: bool)
        ensures
            awaiting == (*self is AwaitingFirst),
    {
        match self {
            SubstreamState::AwaitingFirst { .. } => true,
            _ => false,
        }
    }

    /// Whether a message of the remote is expected on the substream.
    pub fn expects_message(&self) -> (expects: bool)
        ensures
            expects == (*self is AwaitingFirst || *self is WaitingMsg),
    {
        match self {
            SubstreamState::AwaitingFirst { .. } => true,
            SubstreamState::WaitingMsg { .. } => true,
            _ => false,
        }
    }
}

} // verus!
