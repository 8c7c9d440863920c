//! Connection management for a peer-to-peer node.
//!
//! The crate holds the decisions of the network layer: which peer a queued message goes to and
//! when a peer is dialled, how the substreams of one connection are driven, which network events
//! change the set of live connections, and how packets are framed. What waits, reads or writes is
//! left to the caller, who performs the work that is asked for and hands the outcome back.

pub mod address;
pub mod address_laws;
pub mod behaviour;
pub mod behaviour_laws;
pub mod bridge;
pub mod bridge_laws;
pub mod call_laws;
pub mod error;
pub mod framing;
pub mod framing_laws;
pub mod handler;
pub mod handler_laws;
pub mod handler_poll_laws;
pub mod handler_state;
pub mod handler_step_laws;
pub mod manager;
pub mod manager_laws;
pub mod message;
pub mod peer;
pub mod peer_table;
pub mod protocol;
pub mod seq_ops;
pub mod substream;
