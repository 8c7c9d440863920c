use libp2p::Multiaddr;
use locutus_p2p::address::{multiaddr_from_connection, IpAddr};

#[test]
fn ipv4_connection_becomes_address() {
    let addr = multiaddr_from_connection((IpAddr::V4([127, 0, 0, 1]), 8080));
    assert_eq!(addr.to_vec(), vec![4, 127, 0, 0, 1, 6, 0x1f, 0x90]);
    assert_eq!(addr.to_string(), "/ip4/127.0.0.1/tcp/8080");
    let expected: Multiaddr = "/ip4/127.0.0.1/tcp/8080".parse().unwrap();
    assert_eq!(addr, expected);
}

#[test]
fn ipv6_connection_becomes_address() {
    let mut octets = [0u8; 16];
    octets[0] = 0x20;
    octets[1] = 0x01;
    octets[15] = 7;
    let addr = multiaddr_from_connection((IpAddr::V6(octets), 65535));
    let mut bytes = vec![41u8];
    bytes.extend_from_slice(&octets);
    bytes.extend_from_slice(&[6, 0xff, 0xff]);
    assert_eq!(addr.to_vec(), bytes);
    assert_eq!(addr.to_string(), "/ip6/2001::7/tcp/65535");
}

#[test]
fn port_zero_is_kept() {
    let addr = multiaddr_from_connection((IpAddr::V4([0, 0, 0, 0]), 0));
    assert_eq!(addr.to_string(), "/ip4/0.0.0.0/tcp/0");
}
