use dashmap::{DashMap, DashSet};
use libp2p::Multiaddr;
use vstd::prelude::*;

use crate::error::{ConnResult, ConnectionError};
use crate::message::Message;
use crate::peer::PeerId;

verus! {

/// `dashmap::DashMap`.
#[verifier::external_type_specification]
#[verifier::external_body]
#[verifier::reject_recursive_types(K)]
#[verifier::reject_recursive_types(V)]
#[verifier::reject_recursive_types(S)]
pub struct ExDashMap<K, V, S>(dashmap::DashMap<K, V, S>);

/// `dashmap::DashSet`.
#[verifier::external_type_specification]
#[verifier::external_body]
#[verifier::reject_recursive_types(K)]
#[verifier::reject_recursive_types(S)]
pub struct ExDashSet<K, S>(dashmap::DashSet<K, S>);

/// What a map from the bytes of peers to addresses holds.
pub uninterp spec fn table_entries(table: DashMap<Vec<u8>, Multiaddr>) -> Map<Seq<u8>, Multiaddr>;

/// What a set of the bytes of peers holds.
pub uninterp spec fn set_members(set: DashSet<Vec<u8>>) -> Set<Seq<u8>>;

/// `dashmap::DashMap::new` makes a map that holds nothing.
#[verifier::external_body]
fn table_new() -> (table: DashMap<Vec<u8>, Multiaddr>)
    ensures
        (table_entries(table) == Map::<Seq<u8>, Multiaddr>::empty()),
{
    DashMap::new()
}

/// `dashmap::DashMap::insert` gives the key its value in place of the one it had. It could wait
/// for ever on a reference into the map; while the map is borrowed mutably there is none.
#[verifier::external_body]
fn table_insert(table: &mut DashMap<Vec<u8>, Multiaddr>, key: Vec<u8>, addr: Multiaddr)
    ensures
        table_entries(*final(table)) == table_entries(*old(table)).insert(key@, addr),
{
    table.insert(key, addr);
}

/// `dashmap::DashMap::remove` takes the key out of the map and gives its value back.
#[verifier::external_body]
fn table_remove(table: &mut DashMap<Vec<u8>, Multiaddr>, key: &Vec<u8>) -> (removed: Option<
    Multiaddr,
>)
    ensures
        table_entries(*final(table)) == table_entries(*old(table)).remove(key@),
        match removed {
            Some(addr) => table_entries(*old(table)).contains_key(key@) && addr == table_entries(
                *old(table),
            )[key@],
            None => !table_entries(*old(table)).contains_key(key@),
        },
{
    table.remove(key).map(|entry| entry.1)
}

/// `dashmap::DashMap::contains_key` says whether the key has a value.
#[verifier::external_body]
fn table_contains(table: &DashMap<Vec<u8>, Multiaddr>, key: &Vec<u8>) -> (found: bool)
    ensures
        found == table_entries(*table).contains_key(key@),
{
    table.contains_key(key)
}

/// `dashmap::DashSet::new` makes a set that holds nothing.
#[verifier::external_body]
fn set_new() -> (set: DashSet<Vec<u8>>)
    ensures
        set_members(set) == Set::<Seq<u8>>::empty(),
{
    DashSet::new()
}

/// `dashmap::DashSet::insert` adds the key to the set.
#[verifier::external_body]
fn set_insert(set: &mut DashSet<Vec<u8>>, key: Vec<u8>)
    ensures
        set_members(*final(set)) == set_members(*old(set)).insert(key@),
{
    set.insert(key);
}

/// `dashmap::DashSet::remove` takes the key out of the set.
#[verifier::external_body]
fn set_remove(set: &mut DashSet<Vec<u8>>, key: &Vec<u8>)
    ensures
        set_members(*final(set)) == set_members(*old(set)).remove(key@),
{
    set.remove(key);
}

/// `dashmap::DashSet::contains` says whether the key is in the set.
#[verifier::external_body]
fn set_contains(set: &DashSet<Vec<u8>>, key: &Vec<u8>) -> (found: bool)
    ensures
        found == set_members(*set).contains(key@),
{
    set.contains(key)
}

/// The connections of a node, as far as the node's operations deal with them. There is one bridge
/// in a node, behind a lock, and whoever shares it changes it through the lock; the contracts speak
/// of the one bridge, not of the lock.
pub struct P2pBridge {
    active_net_connections: DashMap<Vec<u8>, Multiaddr>,
    accepted_peers: DashSet<Vec<u8>>,
}

/// The state of a `P2pBridge`.
#[verifier::ext_equal]
pub struct BridgeView {
    /// The peers that are connected, each with the address at which it sees this node.
    pub connections: Map<Seq<u8>, Multiaddr>,
    /// The peers whose connection the node has accepted.
    pub accepted: Set<Seq<u8>>,
}

impl View for P2pBridge {
    type V = BridgeView;

    closed spec fn view(&self) -> BridgeView {
        BridgeView {
            connections: table_entries(self.active_net_connections),
            accepted: set_members(self.accepted_peers),
        }
    }
}

impl BridgeView {
    /// The state in which nothing has happened yet.
    pub open spec fn empty() -> Self {
        BridgeView { connections: Map::empty(), accepted: Set::empty() }
    }

    /// The state after the connection with `peer` was to be accepted.
    pub open spec fn added(self, peer: Seq<u8>) -> Self {
        BridgeView {
            accepted: if self.connections.contains_key(peer) {
                self.accepted.insert(peer)
            } else {
                self.accepted
            },
            ..self
        }
    }

    /// The state after the connection with `peer` is no longer accepted.
    pub open spec fn dropped(self, peer: Seq<u8>) -> Self {
        BridgeView { accepted: self.accepted.remove(peer), ..self }
    }

    /// The state after a connection with `peer` was made.
    pub open spec fn established(self, peer: Seq<u8>, addr: Multiaddr) -> Self {
        BridgeView { connections: self.connections.insert(peer, addr), ..self }
    }

    /// The state after the connection with `peer` is over.
    pub open spec fn closed(self, peer: Seq<u8>) -> Self {
        BridgeView { connections: self.connections.remove(peer), ..self }
    }
}

impl P2pBridge {
    /// A bridge without connections.
    pub fn new() -> (bridge: Self)
        ensures
            bridge@ == BridgeView::empty(),
    {
        P2pBridge { active_net_connections: table_new(), accepted_peers: set_new() }
    }

    /// Accepts the connection with `peer`, if there is one.
    pub fn add_connection(&mut self, peer: PeerId) -> (outcome: ConnResult<()>)
        ensures
            outcome == ConnResult::<()>::Ok(()),
            final(self)@ == old(self)@.added(peer@),
    {
        if table_contains(&self.active_net_connections, &peer.bytes) {
            set_insert(&mut self.accepted_peers, peer.bytes);
        }
        Ok(())
    }

    /// No longer accepts the connection with `peer`.
    pub fn drop_connection(&mut self, peer: &PeerId)
        ensures
            final(self)@ == old(self)@.dropped(peer@),
    {
        set_remove(&mut self.accepted_peers, &peer.bytes);
    }

    /// What is handed to the event listener to have `msg` sent to `target`.
    pub fn send<T>(&self, target: &PeerId, msg: Message<T>) -> (handed: (PeerId, Message<T>))
        ensures
            handed.0@ == target@,
            handed.1 == msg,
    {
        (target.clone(), msg)
    }

    /// What becomes of sending a message: `delivered` says whether the event listener has it.
    pub fn send_outcome(delivered: bool) -> (outcome: ConnResult<()>)
        ensures
            outcome == if delivered {
                Ok(())
            } else {
                Err(ConnectionError::SendNotCompleted)
            },
    {
        if delivered {
            Ok(())
        } else {
            Err(ConnectionError::SendNotCompleted)
        }
    }

    /// Whether there is a connection with `peer`.
    pub fn is_connected(&self, peer: &PeerId) -> (connected: bool)
        ensures
            connected == self@.connections.contains_key(peer@),
    {
        table_contains(&self.active_net_connections, &peer.bytes)
    }

    /// Whether the connection with `peer` is accepted.
    pub fn is_accepted(&self, peer: &PeerId) -> (accepted: bool)
        ensures
            accepted == self@.accepted.contains(peer@),
    {
        set_contains(&self.accepted_peers, &peer.bytes)
    }

    /// A connection with `peer` was made.
    pub fn connection_established(&mut self, peer: PeerId, addr: Multiaddr)
        ensures
            final(self)@ == old(self)@.established(peer@, addr),
    {
        table_insert(&mut self.active_net_connections, peer.bytes, addr);
    }

    /// The connection with `peer` is over; gives back the address that belonged to it.
    pub fn connection_closed(&mut self, peer: &PeerId) -> (addr: Option<Multiaddr>)
        ensures
            final(self)@ == old(self)@.closed(peer@),
            match addr {
                Some(a) => old(self)@.connections.contains_key(peer@) && a == old(
                    self,
                )@.connections[peer@],
                None => !old(self)@.connections.contains_key(peer@),
            },
    {
        table_remove(&mut self.active_net_connections, &peer.bytes)
    }
}

} // verus!
