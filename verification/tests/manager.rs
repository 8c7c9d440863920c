use libp2p::Multiaddr;
use locutus_p2p::address::IpAddr;
use locutus_p2p::behaviour::{BehaviourAction, InitPeerNode};
use locutus_p2p::error::ConnectionError;
use locutus_p2p::manager::{
    BuiltNode, IdentifyEvent, IdentifyInfo, ListenerCommand, ListenerInput, NetEvent, NodeConfig,
    P2pConnManager, Selected, SwarmEvent,
};
use locutus_p2p::message::{Message, NodeActions, Transaction};
use locutus_p2p::peer::PeerId;
use locutus_p2p::protocol::{
    LocutusProtocol, CURRENT_AGENT_VER, CURRENT_IDENTIFY_PROTOC_VER, CURRENT_PROTOC_VER_STR,
};

fn peer(n: u8) -> PeerId {
    PeerId { bytes: vec![n] }
}

fn addr(text: &str) -> Multiaddr {
    text.parse().unwrap()
}

fn info(agent: &str, protocols: &[&str]) -> IdentifyInfo {
    IdentifyInfo {
        agent_version: agent.to_string(),
        protocols: protocols.iter().map(|p| p.to_string()).collect(),
        observed_addr: addr("/ip4/1.2.3.4/tcp/5"),
    }
}

fn identified(n: u8, info: IdentifyInfo) -> ListenerInput<u64> {
    ListenerInput::Swarm(SwarmEvent::Behaviour(NetEvent::Identify(
        IdentifyEvent::Received {
            peer_id: peer(n),
            info,
        },
    )))
}

fn config(ip: Option<IpAddr>, tcp: Option<u16>) -> NodeConfig {
    NodeConfig {
        remote_nodes: vec![
            InitPeerNode {
                identifier: peer(1),
                addr: Some(addr("/ip4/10.0.0.1/tcp/1")),
            },
            InitPeerNode {
                identifier: peer(2),
                addr: None,
            },
            InitPeerNode {
                identifier: peer(3),
                addr: Some(addr("/ip4/10.0.0.3/tcp/1")),
            },
        ],
        local_ip: ip,
        local_port: tcp,
    }
}

fn built(ip: Option<IpAddr>, tcp: Option<u16>) -> BuiltNode<&'static str, u64, u32, &'static str> {
    let gateways: Result<Vec<&'static str>, String> = Ok(vec!["gateway"]);
    match P2pConnManager::build(&config(ip, tcp), "key", false, gateways) {
        Ok(node) => node,
        Err(_) => panic!("gateways were given"),
    }
}

#[test]
fn node_is_built_from_its_configuration() {
    let mut node = built(None, None);
    assert_eq!(node.manager.gateways, vec!["gateway"]);
    assert_eq!(
        node.external_addresses,
        vec![addr("/ip4/10.0.0.1/tcp/1"), addr("/ip4/10.0.0.3/tcp/1")]
    );
    assert!(!node.manager.bridge.is_connected(&peer(1)));
    assert_eq!(node.behaviour.identify.local_public_key, "key");
    assert_eq!(
        node.behaviour.identify.agent_version,
        "/locutus/agent/0.1.0"
    );
    assert_eq!(node.behaviour.identify.protocol_version, "/id/1.0.0");
    assert!(!node.behaviour.ping_keep_alive);
    node.behaviour
        .locutus
        .inject_event(peer(3), Message::Operation(1));
    assert_eq!(
        node.behaviour.locutus.poll(),
        Some(BehaviourAction::Dial {
            peer_id: peer(3),
            addresses: vec![addr("/ip4/10.0.0.3/tcp/1")],
        })
    );
}

#[test]
fn node_without_gateways_is_not_built() {
    let none: Result<Vec<u8>, String> = Err("no gateways".to_string());
    let outcome: Result<BuiltNode<u8, u64, u32, ()>, String> =
        P2pConnManager::build(&config(None, None), (), false, none);
    match outcome {
        Ok(_) => panic!("there are no gateways"),
        Err(error) => assert_eq!(error, "no gateways"),
    }
}

#[test]
fn node_listens_where_it_is_told() {
    let ip = Some(IpAddr::V4([127, 0, 0, 1]));
    assert_eq!(
        built(ip, Some(7000)).manager.listen_on(),
        Some(addr("/ip4/127.0.0.1/tcp/7000"))
    );
    assert_eq!(built(ip, None).manager.listen_on(), None);
    assert_eq!(built(None, Some(7000)).manager.listen_on(), None);
    assert_eq!(built(None, None).manager.listen_on(), None);
}

#[test]
fn compatible_peer_has_our_agent_and_our_protocol() {
    let is = |i: IdentifyInfo| P2pConnManager::<()>::is_compatible_peer(&i);
    assert!(is(info(CURRENT_AGENT_VER, &["/ping", CURRENT_PROTOC_VER_STR])));
    assert!(is(info("/locutus/agent/0.1.0", &["/locutus/0.1.0"])));
    assert!(!is(info("/locutus/agent/0.1.1", &["/locutus/0.1.0"])));
    assert!(!is(info("/locutus/agent/0.1.0", &["/locutus/0.1.1"])));
    assert!(!is(info("/locutus/agent/0.1.0", &[])));
}

#[test]
fn compatible_peer_is_connected_until_closed() {
    let mut manager = built(None, None).manager;
    let next = manager.run_event_listener(identified(
        4,
        info("/locutus/agent/0.1.0", &["/locutus/0.1.0"]),
    ));
    assert!(matches!(next, ListenerCommand::Continue));
    assert!(manager.bridge.is_connected(&peer(4)));
    let next: ListenerCommand<u64> =
        manager.run_event_listener(ListenerInput::Swarm(SwarmEvent::ConnectionClosed {
            peer_id: peer(4),
        }));
    assert!(matches!(next, ListenerCommand::Disconnect(p) if p == peer(4)));
    assert!(!manager.bridge.is_connected(&peer(4)));
}

#[test]
fn connection_keeps_the_observed_address() {
    let mut manager = built(None, None).manager;
    manager.run_event_listener(identified(
        4,
        info("/locutus/agent/0.1.0", &["/locutus/0.1.0"]),
    ));
    assert_eq!(
        manager.bridge.connection_closed(&peer(4)),
        Some(addr("/ip4/1.2.3.4/tcp/5"))
    );
}

#[test]
fn incompatible_peer_is_cut_off() {
    let mut manager = built(None, None).manager;
    manager.run_event_listener(identified(
        4,
        info("/locutus/agent/0.1.0", &["/locutus/0.1.0"]),
    ));
    let next = manager.run_event_listener(identified(4, info("/other", &["/locutus/0.1.0"])));
    assert!(matches!(next, ListenerCommand::Disconnect(p) if p == peer(4)));
    assert!(!manager.bridge.is_connected(&peer(4)));
}

#[test]
fn messages_are_dispatched_by_their_kind() {
    let mut manager = built(None, None).manager;
    let from_swarm = |msg| ListenerInput::Swarm(SwarmEvent::Behaviour(NetEvent::Locutus(msg)));
    let next = manager.run_event_listener(from_swarm(Message::Operation(9u64)));
    assert!(matches!(
        next,
        ListenerCommand::Process(Message::Operation(9))
    ));
    let next = manager.run_event_listener(from_swarm(Message::Canceled(Transaction { id: 2 })));
    assert!(matches!(
        next,
        ListenerCommand::HandleCancelled(Transaction { id: 2 })
    ));
    let next = manager.run_event_listener(from_swarm(Message::Internal(NodeActions::ShutdownNode)));
    assert!(matches!(next, ListenerCommand::Continue));
    let next = manager.run_event_listener(ListenerInput::Notification(Some(Message::Operation(3))));
    assert!(matches!(
        next,
        ListenerCommand::Process(Message::Operation(3))
    ));
    let next =
        manager.run_event_listener(ListenerInput::Bridge(Some((peer(6), Message::Operation(4)))));
    assert!(
        matches!(next, ListenerCommand::Enqueue { peer: p, msg: Message::Operation(4) } if p == peer(6))
    );
}

#[test]
fn other_events_change_nothing() {
    let mut manager = built(None, None).manager;
    let inputs: Vec<ListenerInput<u64>> = vec![
        ListenerInput::Swarm(SwarmEvent::Other),
        ListenerInput::Swarm(SwarmEvent::Dialing { peer_id: peer(1) }),
        ListenerInput::Swarm(SwarmEvent::Behaviour(NetEvent::Ping)),
        ListenerInput::Swarm(SwarmEvent::Behaviour(NetEvent::Identify(
            IdentifyEvent::Other,
        ))),
    ];
    for input in inputs {
        assert!(matches!(
            manager.run_event_listener(input),
            ListenerCommand::Continue
        ));
    }
    assert!(!manager.bridge.is_connected(&peer(1)));
}

#[test]
fn closed_channel_ends_the_listener() {
    let mut manager = built(None, None).manager;
    let next: ListenerCommand<u64> =
        manager.run_event_listener(ListenerInput::Notification(None));
    assert!(matches!(next, ListenerCommand::Stop));
    let next: ListenerCommand<u64> = manager.run_event_listener(ListenerInput::Bridge(None));
    assert!(matches!(next, ListenerCommand::Stop));
}

#[test]
fn failure_is_processed() {
    let mut manager = built(None, None).manager;
    let failed: Result<Selected<u64>, ConnectionError> = Err(ConnectionError::Serialization(None));
    assert!(matches!(
        manager.act(failed),
        ListenerCommand::ProcessError(ConnectionError::Serialization(None))
    ));
}

#[test]
fn protocol_name_is_negotiated_in_bytes() {
    assert_eq!(LocutusProtocol.protocol_info(), b"/locutus/0.1.0");
    assert_eq!(CURRENT_IDENTIFY_PROTOC_VER, "/id/1.0.0");
}

#[test]
fn nodes_of_one_version_accept_each_other() {
    let other = built(None, None).behaviour.identify;
    let name = String::from_utf8(LocutusProtocol.protocol_info().to_vec()).unwrap();
    let said = info(&other.agent_version, &["/ipfs/ping/1.0.0", &name]);
    assert!(P2pConnManager::<()>::is_compatible_peer(&said));
    let mut manager = built(None, None).manager;
    match manager.run_event_listener(identified(2, said)) {
        ListenerCommand::Continue => {}
        command => panic!("{:?}", command),
    }
    assert!(manager.bridge.is_connected(&peer(2)));
}

#[test]
fn connection_has_the_address_that_was_told_last() {
    let seen_at = |text: &str| IdentifyInfo {
        agent_version: CURRENT_AGENT_VER.to_string(),
        protocols: vec![CURRENT_PROTOC_VER_STR.to_string()],
        observed_addr: addr(text),
    };
    let mut manager = built(None, None).manager;
    manager.run_event_listener(identified(2, seen_at("/ip4/1.1.1.1/tcp/1")));
    manager.run_event_listener(identified(2, seen_at("/ip4/1.1.1.1/tcp/2")));
    manager.run_event_listener(identified(3, seen_at("/ip4/1.1.1.1/tcp/3")));
    assert_eq!(
        manager.bridge.connection_closed(&peer(2)),
        Some(addr("/ip4/1.1.1.1/tcp/2"))
    );
}
