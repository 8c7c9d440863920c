# locutus_p2p

The network layer of a node that talks to other nodes over libp2p. Its decisions are written and
verified in Verus; what waits, reads or writes is done around them.

* `src/behaviour.rs`: what a node tells of itself, which queued message goes to which connection,
  and when a peer is dialled.
* `src/handler.rs`, `src/handler_state.rs`, `src/substream.rs`: how the substreams of one
  connection are driven. A poll asks for work on one substream after the other and goes on with the
  answers.
* `src/manager.rs`, `src/bridge.rs`: how a node starts, which events change its connections, and
  what has to be done about each event.
* `src/framing.rs`: packets that begin with their length.
* `src/address.rs`, `src/protocol.rs`, `src/message.rs`, `src/error.rs`, `src/peer.rs`,
  `src/peer_table.rs`, `src/seq_ops.rs`: addresses, names, messages, failures and peers.
* `src/*_laws.rs`: what holds over several of these operations.
* `app/`: the swarm, the streams and the event listener.

The contracts rest on what is stated of `libp2p::Multiaddr` (`src/address.rs`), of
`dashmap::DashMap` and `dashmap::DashSet` (`src/bridge.rs`), and of
`unsigned_varint::codec::UviBytes` (`src/framing.rs`).
