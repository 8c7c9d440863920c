use libp2p::Multiaddr;
use vstd::prelude::*;

use crate::address::{
    ip_component, multiaddr_bytes, multiaddr_from_connection, tcp_component, IpAddr,
};
use crate::behaviour::{config_behaviour, BehaviourView, InitPeerNode, NetBehaviour};
use crate::bridge::{BridgeView, P2pBridge};
use crate::error::ConnectionError;
use crate::message::{Message, Transaction};
use crate::peer::PeerId;
use crate::protocol::{CURRENT_AGENT_VER, CURRENT_PROTOC_VER_STR};

verus! {

/// What a node is started with.
#[derive(Debug)]
pub struct NodeConfig {
    /// The peers that the node knows of.
    pub remote_nodes: Vec<InitPeerNode>,
    /// Where the node listens for connections.
    pub local_ip: Option<IpAddr>,
    pub local_port: Option<u16>,
}

/// What a peer says of itself.
#[derive(Debug)]
pub struct IdentifyInfo {
    pub agent_version: String,
    /// The protocols that the peer speaks.
    pub protocols: Vec<String>,
    /// The address at which the peer sees this node.
    pub observed_addr: Multiaddr,
}

/// Something that the identification of peers reports.
#[derive(Debug)]
pub enum IdentifyEvent {
    /// A peer has identified itself.
    Received { peer_id: PeerId, info: IdentifyInfo },
    Other,
}

/// Something that the behaviour of the node reports.
#[derive(Debug)]
pub enum NetEvent<T> {
    Locutus(Message<T>),
    Identify(IdentifyEvent),
    Ping,
}

/// Something that happens in the swarm.
#[derive(Debug)]
pub enum SwarmEvent<T> {
    Behaviour(NetEvent<T>),
    ConnectionClosed { peer_id: PeerId },
    Dialing { peer_id: PeerId },
    Other,
}

/// Something that the event listener has waited for. A channel that is closed gives nothing.
#[derive(Debug)]
pub enum ListenerInput<T> {
    Swarm(SwarmEvent<T>),
    /// From the channel of notifications.
    Notification(Option<Message<T>>),
    /// From the channel of messages to be sent.
    Bridge(Option<(PeerId, Message<T>)>),
}

/// What is to be done about the connections.
#[derive(Debug)]
pub enum ConnMngrActions<T> {
    /// Received a new connection
    ConnectionEstablished { peer_id: PeerId, addr: Multiaddr },
    /// Closed a connection with the peer
    ConnectionClosed { peer_id: PeerId },
    SendMessage { peer: PeerId, msg: Message<T> },
    ClosedChannel,
    NoAction,
}

/// What an input of the event listener comes down to.
#[derive(Debug)]
pub enum Selected<T> {
    Message(Message<T>),
    Action(ConnMngrActions<T>),
}

/// What the event listener has to have done.
#[derive(Debug)]
pub enum ListenerCommand<T> {
    /// Deal with the cancellation of a transaction.
    HandleCancelled(Transaction),
    /// Process a message.
    Process(Message<T>),
    /// Process a failure.
    ProcessError(ConnectionError),
    /// Close the connection with the peer.
    Disconnect(PeerId),
    /// Queue a message that goes to the peer.
    Enqueue { peer: PeerId, msg: Message<T> },
    /// Nothing.
    Continue,
    /// End the event listener.
    Stop,
}

/// Whether a peer that says `info` of itself can be talked to.
pub open spec fn compatible(info: IdentifyInfo) -> bool {
    &&& info.agent_version@ == CURRENT_AGENT_VER@
    &&& exists|i: int|
        0 <= i < info.protocols@.len() && (#[trigger] info.protocols@[i])@
            == CURRENT_PROTOC_VER_STR@
}

/// What `input` comes down to.
pub open spec fn selected<T>(input: ListenerInput<T>) -> Selected<T> {
    match input {
        ListenerInput::Swarm(event) => match event {
            SwarmEvent::Behaviour(NetEvent::Locutus(msg)) => Selected::Message(msg),
            SwarmEvent::Behaviour(NetEvent::Identify(IdentifyEvent::Received { peer_id, info })) =>
                if compatible(info) {
                    Selected::Action(
                        ConnMngrActions::ConnectionEstablished {
                            peer_id,
                            addr: info.observed_addr,
                        },
                    )
                } else {
                    Selected::Action(ConnMngrActions::ConnectionClosed { peer_id })
                },
            SwarmEvent::ConnectionClosed { peer_id } => Selected::Action(
                ConnMngrActions::ConnectionClosed { peer_id },
            ),
            _ => Selected::Action(ConnMngrActions::NoAction),
        },
        ListenerInput::Notification(Some(msg)) => Selected::Message(msg),
        ListenerInput::Notification(None) => Selected::Action(ConnMngrActions::ClosedChannel),
        ListenerInput::Bridge(Some((peer, msg))) => Selected::Action(
            ConnMngrActions::SendMessage { peer, msg },
        ),
        ListenerInput::Bridge(None) => Selected::Action(ConnMngrActions::ClosedChannel),
    }
}

/// What has to be done about `selected`.
pub open spec fn command<T>(selected: Result<Selected<T>, ConnectionError>) -> ListenerCommand<T> {
    match selected {
        Ok(Selected::Message(Message::Canceled(tx))) => ListenerCommand::HandleCancelled(tx),
        Ok(Selected::Message(Message::Internal(_))) => ListenerCommand::Continue,
        Ok(Selected::Message(msg)) => ListenerCommand::Process(msg),
        Ok(Selected::Action(action)) => match action {
            ConnMngrActions::ConnectionEstablished { .. } => ListenerCommand::Continue,
            ConnMngrActions::ConnectionClosed { peer_id } => ListenerCommand::Disconnect(peer_id),
            ConnMngrActions::SendMessage { peer, msg } => ListenerCommand::Enqueue { peer, msg },
            ConnMngrActions::ClosedChannel => ListenerCommand::Stop,
            ConnMngrActions::NoAction => ListenerCommand::Continue,
        },
        Err(error) => ListenerCommand::ProcessError(error),
    }
}

/// The connections that there are after `selected` was acted upon.
pub open spec fn connections_after<T>(
    connections: Map<Seq<u8>, Multiaddr>,
    selected: Result<Selected<T>, ConnectionError>,
) -> Map<Seq<u8>, Multiaddr> {
    match selected {
        Ok(Selected::Action(ConnMngrActions::ConnectionEstablished { peer_id, addr })) => {
            connections.insert(peer_id@, addr)
        },
        Ok(Selected::Action(ConnMngrActions::ConnectionClosed { peer_id })) => connections.remove(
            peer_id@,
        ),
        _ => connections,
    }
}

/// The addresses that are given for `nodes`, in their order.
pub open spec fn addresses_of(nodes: Seq<InitPeerNode>) -> Seq<Multiaddr>
    decreases nodes.len(),
{
    if nodes.len() == 0 {
        Seq::empty()
    } else {
        match nodes.last().addr {
            Some(addr) => addresses_of(nodes.drop_last()).push(addr),
            None => addresses_of(nodes.drop_last()),
        }
    }
}

/// Manages the connections of a node; `G` describes a gateway.
pub struct P2pConnManager<G> {
    /// Where the node listens for connections.
    pub listen_on: Option<(IpAddr, u16)>,
    pub gateways: Vec<G>,
    pub bridge: P2pBridge,
}

/// The parts of a node that starts.
pub struct BuiltNode<G, T, C, K> {
    pub manager: P2pConnManager<G>,
    pub behaviour: NetBehaviour<T, C, K>,
    /// The addresses that the swarm is told of.
    pub external_addresses: Vec<Multiaddr>,
}

impl<G> P2pConnManager<G> {
    /// The parts of a node that starts with `config` and has the public key `local_public_key`.
    /// `gateways` are those of the configuration, or says why there are none.
    pub fn build<T, C, K, E>(
        config: &NodeConfig,
        local_public_key: K,
        debug_build: bool,
        gateways: Result<Vec<G>, E>,
    ) -> (built: Result<BuiltNode<G, T, C, K>, E>)
        ensures
            match gateways {
                Ok(gateways) => {
                    &&& built matches Ok(node)
                    &&& node.manager.gateways == gateways
                    &&& node.manager.listen_on == match (config.local_ip, config.local_port) {
                        (Some(ip), Some(tcp)) => Some((ip, tcp)),
                        _ => None,
                    }
                    &&& node.manager.bridge@ == BridgeView::empty()
                    &&& node.behaviour.identify.of_this_version(local_public_key)
                    &&& node.behaviour.ping_keep_alive == debug_build
                    &&& node.behaviour.locutus.wf()
                    &&& node.behaviour.locutus@ == BehaviourView::<T, C>::configured(
                        config.remote_nodes@,
                    )
                    &&& node.external_addresses@ == addresses_of(config.remote_nodes@)
                },
                Err(error) => built matches Err(e) && e == error,
            },
    {
        let behaviour = config_behaviour(local_public_key, debug_build, &config.remote_nodes);
        let mut external_addresses: Vec<Multiaddr> = Vec::new();
        let nodes = &config.remote_nodes;
        let mut i: usize = 0;
        while i < nodes.len()
            invariant
                i <= nodes.len(),
                external_addresses@ == addresses_of(nodes@.take(i as int)),
            decreases nodes.len() - i,
        {
            assert(nodes@.take(i + 1).drop_last() =~= nodes@.take(i as int));
            if let Some(addr) = &nodes[i].addr {
                external_addresses.push(addr.clone());
            }
            i += 1;
        }
        assert(nodes@.take(i as int) =~= nodes@);
        let listen_on = match (config.local_ip, config.local_port) {
            (Some(ip), Some(tcp)) => Some((ip, tcp)),
            _ => None,
        };
        match gateways {
            Ok(gateways) => Ok(
                BuiltNode {
                    manager: P2pConnManager { listen_on, gateways, bridge: P2pBridge::new() },
                    behaviour,
                    external_addresses,
                },
            ),
            Err(error) => Err(error),
        }
    }

    /// The address on which the swarm has to listen, if any.
    pub fn listen_on(&self) -> (addr: Option<Multiaddr>)
        ensures
            match self.listen_on {
                Some((ip, tcp)) => addr matches Some(a) && multiaddr_bytes(a) == ip_component(ip)
                    + tcp_component(tcp),
                None => addr is None,
            },
    {
        match self.listen_on {
            Some(conn) => Some(multiaddr_from_connection(conn)),
            None => None,
        }
    }

    /// Whether a peer that says `info` of itself can be talked to.
    pub fn is_compatible_peer(info: &IdentifyInfo) -> (yes: bool)
        ensures
            yes == compatible(*info),
    {
        let agent = CURRENT_AGENT_VER.to_string();
        let protocol = CURRENT_PROTOC_VER_STR.to_string();
        let compatible_agent = info.agent_version == agent;
        let mut compatible_protoc = false;
        let mut i: usize = 0;
        while i < info.protocols.len()
            invariant
                i <= info.protocols.len(),
                protocol@ == CURRENT_PROTOC_VER_STR@,
                compatible_protoc == exists|k: int|
                    0 <= k < i && (#[trigger] info.protocols@[k])@ == CURRENT_PROTOC_VER_STR@,
            decreases info.protocols.len() - i,
        {
            if info.protocols[i] == protocol {
                assert(info.protocols@[i as int]@ == CURRENT_PROTOC_VER_STR@);
                compatible_protoc = true;
            }
            i += 1;
        }
        compatible_agent && compatible_protoc
    }

    /// What `input` comes down to.
    pub fn select<T>(input: ListenerInput<T>) -> (outcome: Selected<T>)
        ensures
            outcome == selected(input),
    {
        match input {
            ListenerInput::Swarm(event) => match event {
                SwarmEvent::Behaviour(NetEvent::Locutus(msg)) => Selected::Message(msg),
                SwarmEvent::Behaviour(
                    NetEvent::Identify(IdentifyEvent::Received { peer_id, info }),
                ) => {
                    if Self::is_compatible_peer(&info) {
                        Selected::Action(
                            ConnMngrActions::ConnectionEstablished {
                                peer_id,
                                addr: info.observed_addr,
                            },
                        )
                    } else {
                        Selected::Action(ConnMngrActions::ConnectionClosed { peer_id })
                    }
                },
                SwarmEvent::ConnectionClosed { peer_id } => Selected::Action(
                    ConnMngrActions::ConnectionClosed { peer_id },
                ),
                _ => Selected::Action(ConnMngrActions::NoAction),
            },
            ListenerInput::Notification(Some(msg)) => Selected::Message(msg),
            ListenerInput::Notification(None) => Selected::Action(ConnMngrActions::ClosedChannel),
            ListenerInput::Bridge(Some((peer, msg))) => Selected::Action(
                ConnMngrActions::SendMessage { peer, msg },
            ),
            ListenerInput::Bridge(None) => Selected::Action(ConnMngrActions::ClosedChannel),
        }
    }

    /// Acts upon `outcome` as far as the connections are concerned, and says what has to be done.
    pub fn act<T>(&mut self, outcome: Result<Selected<T>, ConnectionError>) -> (next:
        ListenerCommand<T>)
        ensures
            next == command(outcome),
            final(self).bridge@.connections == connections_after(
                old(self).bridge@.connections,
                outcome,
            ),
            final(self).bridge@.accepted == old(self).bridge@.accepted,
            final(self).gateways == old(self).gateways,
            final(self).listen_on == old(self).listen_on,
    {
        match outcome {
            Ok(Selected::Message(msg)) => match msg {
                Message::Canceled(tx) => ListenerCommand::HandleCancelled(tx),
                Message::Internal(_) => ListenerCommand::Continue,
                msg => ListenerCommand::Process(msg),
            },
            Ok(Selected::Action(action)) => match action {
                ConnMngrActions::ConnectionEstablished { addr, peer_id } => {
                    self.bridge.connection_established(peer_id, addr);
                    ListenerCommand::Continue
                },
                ConnMngrActions::ConnectionClosed { peer_id } => {
                    self.bridge.connection_closed(&peer_id);
                    ListenerCommand::Disconnect(peer_id)
                },
                ConnMngrActions::SendMessage { peer, msg } => ListenerCommand::Enqueue {
                    peer,
                    msg,
                },
                ConnMngrActions::ClosedChannel => ListenerCommand::Stop,
                ConnMngrActions::NoAction => ListenerCommand::Continue,
            },
            Err(error) => ListenerCommand::ProcessError(error),
        }
    }

    /// One turn of the event listener.
    pub fn run_event_listener<T>(&mut self, input: ListenerInput<T>) -> (next: ListenerCommand<T>)
        ensures
            next == command(Ok(selected(input))),
            final(self).bridge@.connections == connections_after(
                old(self).bridge@.connections,
                Ok(selected(input)),
            ),
            final(self).bridge@.accepted == old(self).bridge@.accepted,
            final(self).gateways == old(self).gateways,
            final(self).listen_on == old(self).listen_on,
    {
        let outcome = Self::select(input);
        self.act(Ok(outcome))
    }
}

} // verus!
