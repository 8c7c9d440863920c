use libp2p::Multiaddr;
use locutus_p2p::behaviour::{
    config_behaviour, BehaviourAction, InitPeerNode, LocutusBehaviour, NetBehaviour,
};
use locutus_p2p::error::ConnectionError;
use locutus_p2p::message::{Message, NodeActions, Transaction};
use locutus_p2p::peer::PeerId;

fn peer(n: u8) -> PeerId {
    PeerId { bytes: vec![n] }
}

fn addr(text: &str) -> Multiaddr {
    text.parse().unwrap()
}

fn node(n: u8, at: Option<&str>) -> InitPeerNode {
    InitPeerNode {
        identifier: peer(n),
        addr: at.map(addr),
    }
}

fn configured(gateways: Vec<InitPeerNode>) -> LocutusBehaviour<u64, u32> {
    config_behaviour((), false, &gateways).locutus
}

fn started() -> LocutusBehaviour<u64, u32> {
    configured(vec![node(1, Some("/ip4/10.0.0.1/tcp/1")), node(2, None)])
}

#[test]
fn empty_queue_has_nothing_to_do() {
    assert_eq!(started().poll(), None);
}

#[test]
fn known_peer_is_dialled_once_and_then_gets_its_message() {
    let mut b = started();
    b.inject_event(peer(1), Message::Operation(7));
    assert_eq!(
        b.poll(),
        Some(BehaviourAction::Dial {
            peer_id: peer(1),
            addresses: vec![addr("/ip4/10.0.0.1/tcp/1")],
        })
    );
    assert_eq!(b.poll(), None);
    assert_eq!(b.poll(), None);
    b.inject_connection_established(&peer(1), 5, addr("/ip4/10.0.0.1/tcp/99"));
    assert_eq!(
        b.poll(),
        Some(BehaviourAction::NotifyHandler {
            peer_id: peer(1),
            handler: 5,
            event: Message::Operation(7),
        })
    );
    assert_eq!(b.poll(), None);
}

#[test]
fn peer_without_address_loses_its_message() {
    let mut b = started();
    b.inject_event(peer(2), Message::Operation(1));
    assert_eq!(b.poll(), None);
    b.inject_connection_established(&peer(2), 1, addr("/ip4/10.0.0.2/tcp/1"));
    assert_eq!(b.poll(), None);
}

#[test]
fn failure_goes_no_further() {
    let mut b = started();
    b.inject_connection_established(&peer(1), 1, addr("/ip4/10.0.0.1/tcp/1"));
    b.inject_event(
        peer(1),
        Message::Internal(NodeActions::Error(ConnectionError::SendNotCompleted)),
    );
    assert_eq!(b.poll(), None);
    assert_eq!(b.poll(), None);
}

#[test]
fn other_messages_go_to_the_handler() {
    let mut b = started();
    b.inject_connection_established(&peer(1), 1, addr("/ip4/10.0.0.1/tcp/1"));
    b.inject_event(peer(1), Message::Internal(NodeActions::ConfirmedInbound));
    b.inject_event(peer(1), Message::Canceled(Transaction { id: 3 }));
    assert_eq!(
        b.poll(),
        Some(BehaviourAction::NotifyHandler {
            peer_id: peer(1),
            handler: 1,
            event: Message::Internal(NodeActions::ConfirmedInbound),
        })
    );
    assert_eq!(
        b.poll(),
        Some(BehaviourAction::NotifyHandler {
            peer_id: peer(1),
            handler: 1,
            event: Message::Canceled(Transaction { id: 3 }),
        })
    );
}

#[test]
fn messages_get_their_turn_in_order() {
    let mut b = started();
    b.inject_connection_established(&peer(3), 8, addr("/ip4/10.0.0.3/tcp/1"));
    b.inject_event(peer(1), Message::Operation(1));
    b.inject_event(peer(3), Message::Operation(2));
    b.inject_event(peer(3), Message::Operation(3));
    assert!(matches!(b.poll(), Some(BehaviourAction::Dial { .. })));
    for n in 2..4u64 {
        assert_eq!(
            b.poll(),
            Some(BehaviourAction::NotifyHandler {
                peer_id: peer(3),
                handler: 8,
                event: Message::Operation(n),
            })
        );
    }
    b.inject_connection_established(&peer(1), 9, addr("/ip4/10.0.0.1/tcp/1"));
    assert_eq!(
        b.poll(),
        Some(BehaviourAction::NotifyHandler {
            peer_id: peer(1),
            handler: 9,
            event: Message::Operation(1),
        })
    );
}

#[test]
fn lost_peer_is_dialled_again_at_all_its_addresses() {
    let mut b = started();
    b.inject_connection_established(&peer(1), 1, addr("/ip4/10.0.0.1/tcp/7"));
    b.inject_disconnected(&peer(1));
    b.inject_event(peer(1), Message::Operation(4));
    assert_eq!(
        b.poll(),
        Some(BehaviourAction::Dial {
            peer_id: peer(1),
            addresses: vec![addr("/ip4/10.0.0.1/tcp/1"), addr("/ip4/10.0.0.1/tcp/7")],
        })
    );
}

#[test]
fn last_address_of_a_gateway_counts() {
    let mut b: LocutusBehaviour<u64, u32> = configured(vec![
        node(1, Some("/ip4/10.0.0.1/tcp/1")),
        node(1, Some("/ip4/10.0.0.1/tcp/2")),
        node(1, None),
    ]);
    b.inject_event(peer(1), Message::Operation(4));
    assert_eq!(
        b.poll(),
        Some(BehaviourAction::Dial {
            peer_id: peer(1),
            addresses: vec![addr("/ip4/10.0.0.1/tcp/2")],
        })
    );
}

#[test]
fn second_connection_replaces_the_first() {
    let mut b = started();
    b.inject_connection_established(&peer(1), 1, addr("/ip4/10.0.0.1/tcp/7"));
    b.inject_connection_established(&peer(1), 2, addr("/ip4/10.0.0.1/tcp/8"));
    b.inject_event(peer(1), Message::Operation(4));
    assert_eq!(
        b.poll(),
        Some(BehaviourAction::NotifyHandler {
            peer_id: peer(1),
            handler: 2,
            event: Message::Operation(4),
        })
    );
}

#[test]
fn node_tells_its_version_and_its_key() {
    let net: NetBehaviour<u64, u32, &str> = config_behaviour("public key", true, &vec![]);
    assert_eq!(net.identify.protocol_version, "/id/1.0.0");
    assert_eq!(net.identify.agent_version, "/locutus/agent/0.1.0");
    assert_eq!(net.identify.local_public_key, "public key");
    assert!(net.ping_keep_alive);
    let net: NetBehaviour<u64, u32, u8> = config_behaviour(7, false, &vec![]);
    assert_eq!(net.identify.local_public_key, 7);
    assert!(!net.ping_keep_alive);
}

#[test]
fn peer_is_not_dialled_again_before_it_is_connected() {
    let mut b = configured(vec![
        node(1, Some("/ip4/10.0.0.1/tcp/1")),
        node(3, Some("/ip4/10.0.0.3/tcp/1")),
    ]);
    let dial = |n: u8, at: &str| {
        Some(BehaviourAction::Dial {
            peer_id: peer(n),
            addresses: vec![addr(at)],
        })
    };
    b.inject_event(peer(1), Message::Operation(1));
    assert_eq!(b.poll(), dial(1, "/ip4/10.0.0.1/tcp/1"));
    b.inject_event(peer(3), Message::Operation(3));
    b.inject_event(peer(1), Message::Operation(2));
    b.inject_disconnected(&peer(1));
    assert_eq!(b.poll(), None);
    assert_eq!(b.poll(), dial(3, "/ip4/10.0.0.3/tcp/1"));
    b.inject_connection_established(&peer(3), 9, addr("/ip4/10.0.0.3/tcp/1"));
    for _ in 0..2 {
        assert_eq!(b.poll(), None);
    }
    assert_eq!(
        b.poll(),
        Some(BehaviourAction::NotifyHandler {
            peer_id: peer(3),
            handler: 9,
            event: Message::Operation(3),
        })
    );
    for _ in 0..4 {
        assert_eq!(b.poll(), None);
    }
}
