use vstd::prelude::*;

verus! {

/// The kind of an input/output failure.
#[derive(Debug, PartialEq, Eq)]
pub enum IoErrorKind {
    /// The stream ended although more data was expected.
    UnexpectedEof,
    /// A packet is longer than what is permitted.
    PermissionDenied,
    /// Any other failure, with its description where there is one.
    Other(Option<String>),
}

/// A failure on a connection with another peer.
#[derive(Debug, PartialEq, Eq)]
pub enum ConnectionError {
    /// A message could not be handed over to the event listener.
    SendNotCompleted,
    /// A message could not be turned into bytes, or bytes into a message.
    Serialization(Option<String>),
    /// Reading from or writing to the stream failed.
    IOError(Option<IoErrorKind>),
    /// A substream could not be upgraded to the protocol of this node.
    Upgrade(String),
}

/// The outcome of an operation on a connection.
pub type ConnResult<A> = Result<A, ConnectionError>;

} // verus!
