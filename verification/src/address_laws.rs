//! What holds of the addresses on which a node listens.

use vstd::prelude::*;

use crate::address::{ip_component, tcp_component, IpAddr};

verus! {

/// An address names the IP address first, by the code of its kind and its octets in network order,
/// and then the TCP port, by its code and its two bytes, the high one first.
pub proof fn law_address_names_ip_and_port(ip: IpAddr, tcp: u16)
    ensures
        ({
            let bytes = ip_component(ip) + tcp_component(tcp);
            let octets = match ip {
                IpAddr::V4(octets) => octets@,
                IpAddr::V6(octets) => octets@,
            };
            let n = octets.len() as int;
            &&& n == if ip is V4 {
                4int
            } else {
                16
            }
            &&& bytes.len() == n + 4
            &&& bytes[0] == if ip is V4 {
                4u8
            } else {
                41u8
            }
            &&& bytes.subrange(1, n + 1) == octets
            &&& bytes[n + 1] == 6
            &&& bytes[n + 2] * 256 + bytes[n + 3] == tcp
        }),
{
    let bytes = ip_component(ip) + tcp_component(tcp);
    match ip {
        IpAddr::V4(octets) => {
            assert(bytes.subrange(1, 5) =~= octets@);
        },
        IpAddr::V6(octets) => {
            assert(bytes.subrange(1, 17) =~= octets@);
        },
    }
}

/// Different places to listen have different addresses.
pub proof fn law_different_places_have_different_addresses(a: (IpAddr, u16), b: (IpAddr, u16))
    requires
        ip_component(a.0) + tcp_component(a.1) == ip_component(b.0) + tcp_component(b.1),
    ensures
        a.0 is V4 <==> b.0 is V4,
        a.0 is V4 ==> a.0->V4_0@ == b.0->V4_0@,
        a.0 is V6 ==> a.0->V6_0@ == b.0->V6_0@,
        a.1 == b.1,
{
    law_address_names_ip_and_port(a.0, a.1);
    law_address_names_ip_and_port(b.0, b.1);
}

} // verus!
