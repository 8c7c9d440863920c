use libp2p::Multiaddr;
use std::collections::VecDeque;
use vstd::prelude::*;

use crate::message::{Message, NodeActions};
use crate::peer::PeerId;
use crate::peer_table::{list_of, PeerTable};
use crate::protocol::{CURRENT_AGENT_VER, CURRENT_IDENTIFY_PROTOC_VER};

verus! {

/// A peer that a node knows of when it starts.
#[derive(Debug)]
pub struct InitPeerNode {
    pub identifier: PeerId,
    pub addr: Option<Multiaddr>,
}

/// What the behaviour asks of the swarm; `C` identifies a connection.
#[derive(Debug, PartialEq, Eq)]
pub enum BehaviourAction<T, C> {
    /// Give `event` to the handler of the connection `handler` with the peer.
    NotifyHandler { peer_id: PeerId, handler: C, event: Message<T> },
    /// Open a connection with the peer, which may be found at `addresses`.
    Dial { peer_id: PeerId, addresses: Vec<Multiaddr> },
}

/// What a `BehaviourAction` asks for.
pub enum ActionView<T, C> {
    NotifyHandler { peer: Seq<u8>, handler: C, event: Message<T> },
    Dial { peer: Seq<u8>, addresses: Seq<Multiaddr> },
}

impl<T, C> View for BehaviourAction<T, C> {
    type V = ActionView<T, C>;

    open spec fn view(&self) -> ActionView<T, C> {
        match *self {
            BehaviourAction::NotifyHandler { peer_id, handler, event } => {
                ActionView::NotifyHandler { peer: peer_id@, handler, event }
            },
            BehaviourAction::Dial { peer_id, addresses } => {
                ActionView::Dial { peer: peer_id@, addresses: addresses@ }
            },
        }
    }
}

/// What `action` asks for, if anything.
pub open spec fn asked<T, C>(action: Option<BehaviourAction<T, C>>) -> Option<ActionView<T, C>> {
    match action {
        Some(a) => Some(a@),
        None => None,
    }
}

/// Manages network connections with different peers and event routing within the swarm.
pub struct LocutusBehaviour<T, C> {
    queue: VecDeque<(PeerId, Message<T>)>,
    routing_table: PeerTable<Vec<Multiaddr>>,
    connected: PeerTable<C>,
    openning_connection: PeerTable<()>,
}

/// The state of a `LocutusBehaviour`.
#[verifier::ext_equal]
pub struct BehaviourView<T, C> {
    /// The messages that wait, each with the peer it belongs to; the one that came first is first.
    pub queue: Seq<(Seq<u8>, Message<T>)>,
    /// Where the peers may be found.
    pub routing_table: Map<Seq<u8>, Seq<Multiaddr>>,
    /// The connections that are open.
    pub connected: Map<Seq<u8>, C>,
    /// The peers that are being dialled.
    pub opening: Set<Seq<u8>>,
}

impl<T, C> View for LocutusBehaviour<T, C> {
    type V = BehaviourView<T, C>;

    closed spec fn view(&self) -> BehaviourView<T, C> {
        BehaviourView {
            queue: in_order(self.queue@),
            routing_table: self.routing_table.lists(),
            connected: self.connected@,
            opening: self.openning_connection@.dom(),
        }
    }
}

/// The entries of a queue that grows at its front, the one that came first first.
closed spec fn in_order<T>(queue: Seq<(PeerId, Message<T>)>) -> Seq<(Seq<u8>, Message<T>)> {
    Seq::new(queue.len(), |i: int| (queue[queue.len() - 1 - i].0@, queue[queue.len() - 1 - i].1))
}

proof fn lemma_push_front<T>(queue: Seq<(PeerId, Message<T>)>, entry: (PeerId, Message<T>))
    ensures
        in_order(seq![entry] + queue) == in_order(queue).push((entry.0@, entry.1)),
{
    assert(in_order(seq![entry] + queue) =~= in_order(queue).push((entry.0@, entry.1)));
}

proof fn lemma_pop_back<T>(queue: Seq<(PeerId, Message<T>)>)
    requires
        queue.len() > 0,
    ensures
        in_order(queue).first() == (queue.last().0@, queue.last().1),
        in_order(queue.subrange(0, queue.len() - 1)) == in_order(queue).drop_first(),
{
    assert(in_order(queue.subrange(0, queue.len() - 1)) =~= in_order(queue).drop_first());
}

impl<T, C> BehaviourView<T, C> {
    /// The state at the start, where `gateways` are known.
    pub open spec fn configured(gateways: Seq<InitPeerNode>) -> Self {
        BehaviourView {
            queue: Seq::empty(),
            routing_table: known_routes(gateways),
            connected: Map::empty(),
            opening: Set::empty(),
        }
    }

    /// A peer that is being dialled is not connected, a peer that is either may be found
    /// somewhere, and a peer that may be found somewhere has an address.
    pub open spec fn consistent(self) -> bool {
        &&& forall|p: Seq<u8>| #[trigger] self.opening.contains(p) ==> !self.connected.contains_key(p)
        &&& forall|p: Seq<u8>| #[trigger] self.opening.contains(p) ==> self.routing_table.contains_key(p)
        &&& forall|p: Seq<u8>|
            #[trigger] self.connected.contains_key(p) ==> self.routing_table.contains_key(p)
        &&& forall|p: Seq<u8>| #[trigger]
            self.routing_table.contains_key(p) ==> self.routing_table[p].len() > 0
    }

    /// The state after a message was queued.
    pub open spec fn queued(self, peer: Seq<u8>, msg: Message<T>) -> Self {
        BehaviourView { queue: self.queue.push((peer, msg)), ..self }
    }

    /// The state after a connection with `peer` was made, which was found at `addr`.
    pub open spec fn established(self, peer: Seq<u8>, connection: C, addr: Multiaddr) -> Self {
        BehaviourView {
            queue: self.queue,
            routing_table: self.routing_table.insert(
                peer,
                list_of(self.routing_table, peer).push(addr),
            ),
            connected: self.connected.insert(peer, connection),
            opening: self.opening.remove(peer),
        }
    }

    /// The state after the connection with `peer` was lost.
    pub open spec fn disconnected(self, peer: Seq<u8>) -> Self {
        BehaviourView { connected: self.connected.remove(peer), ..self }
    }

    /// What comes of a poll: the message that has waited longest is looked at.
    pub open spec fn poll(self) -> (Self, Option<ActionView<T, C>>) {
        if self.queue.len() == 0 {
            (self, None)
        } else {
            let (peer, msg) = self.queue.first();
            let rest = BehaviourView { queue: self.queue.drop_first(), ..self };
            if msg matches Message::Internal(action) && action is Error {
                (rest, None)
            } else if self.connected.contains_key(peer) {
                (
                    rest,
                    Some(
                        ActionView::NotifyHandler {
                            peer,
                            handler: self.connected[peer],
                            event: msg,
                        },
                    ),
                )
            } else if self.opening.contains(peer) {
                (rest.queued(peer, msg), None)
            } else if self.routing_table.contains_key(peer) {
                (
                    BehaviourView {
                        opening: self.opening.insert(peer),
                        ..rest.queued(peer, msg)
                    },
                    Some(ActionView::Dial { peer, addresses: self.routing_table[peer] }),
                )
            } else {
                (rest, None)
            }
        }
    }
}

/// Where the peers may be found that a node knows of when it starts: each at the address that is
/// given last for it.
pub open spec fn known_routes(gateways: Seq<InitPeerNode>) -> Map<Seq<u8>, Seq<Multiaddr>>
    decreases gateways.len(),
{
    if gateways.len() == 0 {
        Map::empty()
    } else {
        let routes = known_routes(gateways.drop_last());
        match gateways.last().addr {
            Some(addr) => routes.insert(gateways.last().identifier@, seq![addr]),
            None => routes,
        }
    }
}

/// What a node tells other peers of itself; `K` is a public key.
#[derive(Debug)]
pub struct IdentifyConfig<K> {
    pub protocol_version: String,
    pub local_public_key: K,
    pub agent_version: String,
}

impl<K> IdentifyConfig<K> {
    /// Whether this is what a node of this version with the public key `key` tells of itself.
    pub open spec fn of_this_version(self, key: K) -> bool {
        &&& self.protocol_version@ == CURRENT_IDENTIFY_PROTOC_VER@
        &&& self.local_public_key == key
        &&& self.agent_version@ == CURRENT_AGENT_VER@
    }
}

/// The network behaviour implements the following capabilities:
///
/// - [Identify](https://github.com/libp2p/specs/tree/master/identify) libp2p protocol.
/// - Pinging between peers.
pub struct NetBehaviour<T, C, K> {
    pub identify: IdentifyConfig<K>,
    /// Whether pinging alone keeps a connection.
    pub ping_keep_alive: bool,
    pub locutus: LocutusBehaviour<T, C>,
}

/// The state of a behaviour that was just configured with `gateways` is consistent.
pub proof fn lemma_configured_consistent<T, C>(gateways: Seq<InitPeerNode>)
    ensures
        BehaviourView::<T, C>::configured(gateways).consistent(),
    decreases gateways.len(),
{
    if gateways.len() > 0 {
        let front = gateways.drop_last();
        lemma_configured_consistent::<T, C>(front);
        let earlier = BehaviourView::<T, C>::configured(front).routing_table;
        let routes = BehaviourView::<T, C>::configured(gateways).routing_table;
        assert forall|p: Seq<u8>| #[trigger] routes.contains_key(p) implies routes[p].len() > 0 by {
            assert(earlier.contains_key(p) ==> earlier[p].len() > 0);
        }
    }
}

/// The behaviour of a node that starts with `gateways` and has the public key `local_public_key`.
/// In a debug build pinging alone keeps a connection.
pub fn config_behaviour<T, C, K>(
    local_public_key: K,
    debug_build: bool,
    gateways: &Vec<InitPeerNode>,
) -> (net: NetBehaviour<T, C, K>)
    ensures
        net.identify.of_this_version(local_public_key),
        net.ping_keep_alive == debug_build,
        net.locutus.wf(),
        net.locutus@ == BehaviourView::<T, C>::configured(gateways@),
{
    let mut routing_table: PeerTable<Vec<Multiaddr>> = PeerTable::new();
    assert(routing_table.lists() =~= known_routes(gateways@.take(0)));
    let mut i: usize = 0;
    while i < gateways.len()
        invariant
            i <= gateways.len(),
            routing_table.wf(),
            routing_table.lists() == known_routes(gateways@.take(i as int)),
        decreases gateways.len() - i,
    {
        let ghost before = routing_table;
        let ghost seen = gateways@.take(i + 1);
        assert(seen.drop_last() =~= gateways@.take(i as int));
        let gateway = &gateways[i];
        if let Some(addr) = &gateway.addr {
            let mut addresses: Vec<Multiaddr> = Vec::new();
            addresses.push(addr.clone());
            assert(addresses@ =~= seq![*addr]);
            routing_table.insert(gateway.identifier.clone(), addresses);
            assert(routing_table.lists() =~= before.lists().insert(
                gateway.identifier@,
                seq![*addr],
            ));
        }
        i += 1;
    }
    assert(gateways@.take(i as int) =~= gateways@);
    let locutus = LocutusBehaviour {
        queue: VecDeque::new(),
        routing_table,
        connected: PeerTable::new(),
        openning_connection: PeerTable::new(),
    };
    assert(locutus@ =~= BehaviourView::<T, C>::configured(gateways@));
    proof {
        lemma_configured_consistent::<T, C>(gateways@);
    }
    NetBehaviour {
        identify: IdentifyConfig {
            protocol_version: CURRENT_IDENTIFY_PROTOC_VER.to_string(),
            local_public_key,
            agent_version: CURRENT_AGENT_VER.to_string(),
        },
        ping_keep_alive: debug_build,
        locutus,
    }
}

impl<T, C> LocutusBehaviour<T, C> {
    closed spec fn tables_wf(&self) -> bool {
        &&& self.routing_table.wf()
        &&& self.connected.wf()
        &&& self.openning_connection.wf()
    }

    /// The tables are sound and agree with each other.
    pub closed spec fn wf(&self) -> bool {
        self.tables_wf() && self@.consistent()
    }

    /// A peer that is being dialled is not connected, a peer that is either may be found
    /// somewhere, and a peer that may be found somewhere has an address: this holds of every
    /// behaviour that the operations produce.
    pub proof fn law_tables_agree(&self)
        requires
            self.wf(),
        ensures
            self@.consistent(),
    {
    }

    /// A connection with a peer was made, whose remote end was found at `remote_address`.
    pub fn inject_connection_established(
        &mut self,
        peer_id: &PeerId,
        connection_id: C,
        remote_address: Multiaddr,
    )
        requires
            old(self).wf(),
        ensures
            final(self).wf(),
            final(self)@ == old(self)@.established(peer_id@, connection_id, remote_address),
    {
        self.openning_connection.remove(peer_id);
        self.connected.insert(peer_id.clone(), connection_id);
        self.routing_table.append(peer_id.clone(), remote_address);
        assert(self@ =~= old(self)@.established(peer_id@, connection_id, remote_address));
    }

    /// Queues a message, which belongs to the peer `peer_id`.
    pub fn inject_event(&mut self, peer_id: PeerId, msg: Message<T>)
        requires
            old(self).wf(),
        ensures
            final(self).wf(),
            final(self)@ == old(self)@.queued(peer_id@, msg),
    {
        proof {
            lemma_push_front(self.queue@, (peer_id, msg));
        }
        self.queue.push_front((peer_id, msg));
        assert(self@ =~= old(self)@.queued(peer_id@, msg));
    }

    /// The connection with a peer was lost.
    pub fn inject_disconnected(&mut self, peer: &PeerId)
        requires
            old(self).wf(),
        ensures
            final(self).wf(),
            final(self)@ == old(self)@.disconnected(peer@),
    {
        self.connected.remove(peer);
        assert(self@ =~= old(self)@.disconnected(peer@));
    }
}

impl<T, C: Copy> LocutusBehaviour<T, C> {
    /// Looks at the message that has waited longest. It goes to the peer's handler where there is
    /// a connection; else it waits again while a connection is made, which is asked for unless it
    /// is under way. A message for a peer that cannot be found, and a failure, go no further.
    pub fn poll(&mut self) -> (action: Option<BehaviourAction<T, C>>)
        requires
            old(self).wf(),
        ensures
            final(self).wf(),
            (final(self)@, asked(action)) == old(self)@.poll(),
    {
        let ghost before = self@;
        let ghost waiting = self.queue@;
        if let Some((peer_id, msg)) = self.queue.pop_back() {
            let ghost rest = self.queue@;
            proof {
                lemma_pop_back(waiting);
                lemma_push_front(rest, (peer_id, msg));
            }
            if let Message::Internal(NodeActions::Error(_)) = msg {
                assert(self@ =~= before.poll().0);
                return None;
            }
            if let Some(id) = self.connected.get(&peer_id) {
                let handler = *id;
                assert(self@ =~= before.poll().0);
                Some(BehaviourAction::NotifyHandler { peer_id, handler, event: msg })
            } else if self.openning_connection.contains_key(&peer_id) {
                // waiting to have an open connection
                self.queue.push_front((peer_id, msg));
                assert(self@ =~= before.poll().0);
                None
            } else if let Some(conn) = self.routing_table.get(&peer_id) {
                // initiate a connection if one does not exist
                let addresses = conn.clone();
                assert(addresses@ =~= conn@);
                self.openning_connection.insert(peer_id.clone(), ());
                let dialled = peer_id.clone();
                self.queue.push_front((peer_id, msg));
                assert(self@ =~= before.poll().0);
                Some(BehaviourAction::Dial { peer_id: dialled, addresses })
            } else {
                assert(self@ =~= before.poll().0);
                None
            }
        } else {
            None
        }
    }
}

} // verus!
