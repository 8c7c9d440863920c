use libp2p::multiaddr::Protocol;
use libp2p::Multiaddr;
use vstd::prelude::*;

verus! {

/// `libp2p::Multiaddr`: an address made of components, which is carried without being looked into.
#[verifier::external_type_specification]
#[verifier::external_body]
pub struct ExMultiaddr(libp2p::Multiaddr);

/// The bytes that hold the components of an address, one component after the other, as
/// `libp2p::Multiaddr::to_vec` gives them.
pub uninterp spec fn multiaddr_bytes(addr: Multiaddr) -> Seq<u8>;

/// `libp2p::Multiaddr::with_capacity` makes an address without components.
pub assume_specification[ libp2p::Multiaddr::with_capacity ](n: usize) -> (addr: Multiaddr)
    requires
        n <= isize::MAX,
    ensures
        multiaddr_bytes(addr) == Seq::<u8>::empty(),
;

/// `Clone::clone` of a `libp2p::Multiaddr` gives the same address.
pub assume_specification[ <libp2p::Multiaddr as Clone>::clone ](addr: &Multiaddr) -> (copy: Multiaddr)
    ensures
        copy == *addr,
;

/// `libp2p::Multiaddr::push` of a `Protocol::Ip4` adds the code of the component and the four
/// octets of the IP address.
#[verifier::external_body]
fn push_ip4(addr: &mut Multiaddr, octets: [u8; 4])
    ensures
        multiaddr_bytes(*final(addr)) == multiaddr_bytes(*old(addr)) + ip4_component(octets@),
{
    addr.push(Protocol::Ip4(octets.into()))
}

/// `libp2p::Multiaddr::push` of a `Protocol::Ip6` adds the code of the component and the sixteen
/// octets of the IP address.
#[verifier::external_body]
fn push_ip6(addr: &mut Multiaddr, octets: [u8; 16])
    ensures
        multiaddr_bytes(*final(addr)) == multiaddr_bytes(*old(addr)) + ip6_component(octets@),
{
    addr.push(Protocol::Ip6(octets.into()))
}

/// `libp2p::Multiaddr::push` of a `Protocol::Tcp` adds the code of the component and the TCP port,
/// its high byte first.
#[verifier::external_body]
fn push_tcp(addr: &mut Multiaddr, tcp: u16)
    ensures
        multiaddr_bytes(*final(addr)) == multiaddr_bytes(*old(addr)) + tcp_component(tcp),
{
    addr.push(Protocol::Tcp(tcp))
}

/// An IP address by its octets, in network order.
#[derive(Debug, Clone, Copy, PartialEq, Eq)]
pub enum IpAddr {
    V4([u8; 4]),
    V6([u8; 16]),
}

/// The component of an address that names an IPv4 address.
pub open spec fn ip4_component(octets: Seq<u8>) -> Seq<u8> {
    seq![4u8] + octets
}

/// The component of an address that names an IPv6 address.
pub open spec fn ip6_component(octets: Seq<u8>) -> Seq<u8> {
    seq![41u8] + octets
}

/// The component of an address that names a TCP port.
pub open spec fn tcp_component(tcp: u16) -> Seq<u8> {
    seq![6u8, (tcp / 256) as u8, (tcp % 256) as u8]
}

/// The component of an address that names an IP address.
pub open spec fn ip_component(ip: IpAddr) -> Seq<u8> {
    match ip {
        IpAddr::V4(octets) => ip4_component(octets@),
        IpAddr::V6(octets) => ip6_component(octets@),
    }
}

/// Small helper function to convert a tuple composed of an IP address and a port
/// to a libp2p Multiaddr type.
pub fn multiaddr_from_connection(conn: (IpAddr, u16)) -> (addr: Multiaddr)
    ensures
        multiaddr_bytes(addr) == ip_component(conn.0) + tcp_component(conn.1),
{
    let mut addr = Multiaddr::with_capacity(2);
    match conn.0 {
        IpAddr::V4(octets) => push_ip4(&mut addr, octets),
        IpAddr::V6(octets) => push_ip6(&mut addr, octets),
    }
    push_tcp(&mut addr, conn.1);
    assert(multiaddr_bytes(addr) =~= ip_component(conn.0) + tcp_component(conn.1));
    addr
}

} // verus!
