use libp2p::Multiaddr;
use locutus_p2p::bridge::P2pBridge;
use locutus_p2p::error::ConnectionError;
use locutus_p2p::message::Message;
use locutus_p2p::peer::PeerId;

fn peer(n: u8) -> PeerId {
    PeerId { bytes: vec![0, 1, n] }
}

fn addr(text: &str) -> Multiaddr {
    text.parse().unwrap()
}

#[test]
fn new_bridge_has_no_connections() {
    let bridge = P2pBridge::new();
    assert!(!bridge.is_connected(&peer(1)));
    assert!(!bridge.is_accepted(&peer(1)));
}

#[test]
fn only_connected_peers_are_accepted() {
    let mut bridge = P2pBridge::new();
    assert_eq!(bridge.add_connection(peer(1)), Ok(()));
    assert!(!bridge.is_accepted(&peer(1)));

    bridge.connection_established(peer(1), addr("/ip4/10.0.0.1/tcp/1"));
    assert!(bridge.is_connected(&peer(1)));
    assert!(!bridge.is_accepted(&peer(1)));
    assert_eq!(bridge.add_connection(peer(1)), Ok(()));
    assert!(bridge.is_accepted(&peer(1)));
    assert!(!bridge.is_accepted(&peer(2)));
}

#[test]
fn dropped_connection_is_not_accepted() {
    let mut bridge = P2pBridge::new();
    bridge.connection_established(peer(1), addr("/ip4/10.0.0.1/tcp/1"));
    bridge.connection_established(peer(2), addr("/ip4/10.0.0.2/tcp/1"));
    bridge.add_connection(peer(1)).unwrap();
    bridge.add_connection(peer(2)).unwrap();
    bridge.drop_connection(&peer(1));
    assert!(!bridge.is_accepted(&peer(1)));
    assert!(bridge.is_accepted(&peer(2)));
    assert!(bridge.is_connected(&peer(1)));
    bridge.drop_connection(&peer(3));
    assert!(bridge.is_accepted(&peer(2)));
}

#[test]
fn later_address_replaces_earlier_one() {
    let mut bridge = P2pBridge::new();
    bridge.connection_established(peer(1), addr("/ip4/10.0.0.1/tcp/1"));
    bridge.connection_established(peer(1), addr("/ip4/10.0.0.1/tcp/2"));
    assert_eq!(
        bridge.connection_closed(&peer(1)),
        Some(addr("/ip4/10.0.0.1/tcp/2"))
    );
    assert!(!bridge.is_connected(&peer(1)));
    assert_eq!(bridge.connection_closed(&peer(1)), None);
}

#[test]
fn closing_a_connection_keeps_acceptance() {
    let mut bridge = P2pBridge::new();
    bridge.connection_established(peer(1), addr("/ip4/10.0.0.1/tcp/1"));
    bridge.add_connection(peer(1)).unwrap();
    bridge.connection_closed(&peer(1));
    assert!(bridge.is_accepted(&peer(1)));
}

#[test]
fn sent_message_is_handed_over_unchanged() {
    let bridge = P2pBridge::new();
    let (target, msg) = bridge.send(&peer(4), Message::Operation(11u64));
    assert_eq!(target, peer(4));
    assert_eq!(msg, Message::Operation(11));
}

#[test]
fn undelivered_message_is_an_error() {
    assert_eq!(P2pBridge::send_outcome(true), Ok(()));
    assert_eq!(
        P2pBridge::send_outcome(false),
        Err(ConnectionError::SendNotCompleted)
    );
}

#[test]
fn accepting_twice_changes_nothing_more() {
    let mut bridge = P2pBridge::new();
    bridge.connection_established(peer(1), addr("/ip4/10.0.0.1/tcp/1"));
    assert_eq!(bridge.add_connection(peer(1)), Ok(()));
    assert_eq!(bridge.add_connection(peer(1)), Ok(()));
    assert!(bridge.is_accepted(&peer(1)));
    bridge.drop_connection(&peer(1));
    assert!(!bridge.is_accepted(&peer(1)));
}
