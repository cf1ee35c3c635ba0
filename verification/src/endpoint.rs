//! Endpoints of the network stack, and how socket addresses become endpoints and back.
use vstd::prelude::*;

use crate::net::{IpAddr, Ipv4Addr, Ipv6Addr, SocketAddr, SocketAddrV4, SocketAddrV6};

verus! {

/// An address as the network stack keeps it: possibly not assigned yet.
#[derive(Debug, Clone, Copy, PartialEq, Eq, Structural)]
pub enum IpAddress {
    Unspecified,
    Ipv4(Ipv4Addr),
    Ipv6(Ipv6Addr),
}

impl IpAddress {
    /// The address falls into the "unspecified" range: for IPv4 that is all of `0.0.0.0/8`.
    pub open spec fn spec_is_unspecified(self) -> bool {
        match self {
            IpAddress::Unspecified => true,
            IpAddress::Ipv4(ip) => ip.a == 0,
            IpAddress::Ipv6(ip) => ip == (Ipv6Addr { a: 0, b: 0, c: 0, d: 0, e: 0, f: 0, g: 0, h: 0 }),
        }
    }

    /// The unspecified address of the same IP version.
    pub open spec fn to_unspecified(self) -> IpAddress {
        match self {
            IpAddress::Unspecified => IpAddress::Unspecified,
            IpAddress::Ipv4(_) => IpAddress::Ipv4(Ipv4Addr { a: 0, b: 0, c: 0, d: 0 }),
            IpAddress::Ipv6(_) => IpAddress::Ipv6(
                Ipv6Addr { a: 0, b: 0, c: 0, d: 0, e: 0, f: 0, g: 0, h: 0 },
            ),
        }
    }

    /// Tells whether the address falls into the "unspecified" range.
    #[verifier::when_used_as_spec(spec_is_unspecified)]
    pub fn is_unspecified(self) -> (unspecified: bool)
        ensures
            unspecified == self.is_unspecified(),
    {
        match self {
            IpAddress::Unspecified => true,
            IpAddress::Ipv4(ip) => ip.a == 0,
            IpAddress::Ipv6(ip) => ip == Ipv6Addr::unspecified(),
        }
    }
}

/// An address and a port.
#[derive(Debug, Clone, Copy, PartialEq, Eq, Structural)]
pub struct IpEndpoint {
    pub addr: IpAddress,
    pub port: u16,
}

impl IpEndpoint {
    /// The endpoint with neither address nor port.
    pub open spec fn nowhere() -> IpEndpoint {
        IpEndpoint { addr: IpAddress::Unspecified, port: 0 }
    }

    /// Both the address and the port are specified.
    pub open spec fn spec_is_specified(self) -> bool {
        !self.addr.is_unspecified() && self.port != 0
    }

    /// Tells whether both the address and the port are specified.
    #[verifier::when_used_as_spec(spec_is_specified)]
    pub fn is_specified(self) -> (specified: bool)
        ensures
            specified == self.is_specified(),
    {
        !self.addr.is_unspecified() && self.port != 0
    }
}

/// The address of an IP address.
pub open spec fn address_of(ip: IpAddr) -> IpAddress {
    match ip {
        IpAddr::V4(ip) => IpAddress::Ipv4(ip),
        IpAddr::V6(ip) => IpAddress::Ipv6(ip),
    }
}

/// The endpoint of a socket address; flow information and scope are dropped.
pub open spec fn endpoint_of(addr: SocketAddr) -> IpEndpoint {
    match addr {
        SocketAddr::V4(addr) => IpEndpoint { addr: IpAddress::Ipv4(addr.ip_addr), port: addr.port },
        SocketAddr::V6(addr) => IpEndpoint { addr: IpAddress::Ipv6(addr.ip_addr), port: addr.port },
    }
}

/// The IP address of an address; one that is not assigned becomes the zero IPv4 address.
pub open spec fn ip_addr_of(addr: IpAddress) -> IpAddr {
    match addr {
        IpAddress::Unspecified => IpAddr::V4(Ipv4Addr { a: 0, b: 0, c: 0, d: 0 }),
        IpAddress::Ipv4(ip) => IpAddr::V4(ip),
        IpAddress::Ipv6(ip) => IpAddr::V6(ip),
    }
}

/// The socket address of an endpoint; one without an address loses its port too.
pub open spec fn socket_addr_of(endpoint: IpEndpoint) -> SocketAddr {
    match endpoint.addr {
        IpAddress::Unspecified => SocketAddr::V4(
            SocketAddrV4 { ip_addr: Ipv4Addr { a: 0, b: 0, c: 0, d: 0 }, port: 0 },
        ),
        IpAddress::Ipv4(ip) => SocketAddr::V4(SocketAddrV4 { ip_addr: ip, port: endpoint.port }),
        IpAddress::Ipv6(ip) => SocketAddr::V6(
            SocketAddrV6 { ip_addr: ip, port: endpoint.port, flowinfo: 0, scope_id: 0 },
        ),
    }
}

/// Converts an IP address into an address of the network stack.
pub fn ip_to_address(ip: IpAddr) -> (addr: IpAddress)
    ensures
        addr == address_of(ip),
{
    match ip {
        IpAddr::V4(ip) => IpAddress::Ipv4(ip),
        IpAddr::V6(ip) => IpAddress::Ipv6(ip),
    }
}

/// Converts a socket address into an endpoint.
pub fn addr_to_endpoint(addr: SocketAddr) -> (endpoint: IpEndpoint)
    ensures
        endpoint == endpoint_of(addr),
{
    match addr {
        SocketAddr::V4(addr) => IpEndpoint {
            addr: ip_to_address(IpAddr::V4(addr.ip_addr)),
            port: addr.port,
        },
        SocketAddr::V6(addr) => IpEndpoint {
            addr: ip_to_address(IpAddr::V6(addr.ip_addr)),
            port: addr.port,
        },
    }
}

/// Converts an address of the network stack into an IP address.
pub fn address_to_ip(addr: IpAddress) -> (ip: IpAddr)
    ensures
        ip == ip_addr_of(addr),
{
    match addr {
        IpAddress::Unspecified => IpAddr::V4(Ipv4Addr::unspecified()),
        IpAddress::Ipv4(ip) => IpAddr::V4(ip),
        IpAddress::Ipv6(ip) => IpAddr::V6(ip),
    }
}

/// Converts an endpoint into a socket address.
pub fn endpoint_to_addr(endpoint: IpEndpoint) -> (addr: SocketAddr)
    ensures
        addr == socket_addr_of(endpoint),
{
    match endpoint.addr {
        IpAddress::Ipv4(ip) => SocketAddr::V4(SocketAddrV4 { ip_addr: ip, port: endpoint.port }),
        IpAddress::Ipv6(ip) => SocketAddr::V6(
            SocketAddrV6 { ip_addr: ip, port: endpoint.port, flowinfo: 0, scope_id: 0 },
        ),
        IpAddress::Unspecified => SocketAddr::V4(SocketAddrV4::unspecified()),
    }
}

/// A socket address survives the way through an endpoint, but for the flow information and the
/// scope of an IPv6 address, which come back as zero.
pub proof fn law_socket_addr_round_trip(addr: SocketAddr)
    ensures
        match addr {
            SocketAddr::V4(_) => socket_addr_of(endpoint_of(addr)) == addr,
            SocketAddr::V6(v6) => socket_addr_of(endpoint_of(addr)) == SocketAddr::V6(
                SocketAddrV6 { flowinfo: 0, scope_id: 0, ..v6 },
            ),
        },
{
}

/// An endpoint that has an address survives the way through a socket address.
pub proof fn law_endpoint_round_trip(endpoint: IpEndpoint)
    requires
        !(endpoint.addr is Unspecified),
    ensures
        endpoint_of(socket_addr_of(endpoint)) == endpoint,
{
}

/// An IP address survives the way through an address of the network stack.
pub proof fn law_ip_addr_round_trip(ip: IpAddr)
    ensures
        ip_addr_of(address_of(ip)) == ip,
{
}

/// Hands out local ports for outgoing connections.
#[derive(Debug)]
pub struct LocalEndpoint {
    pub next: u16,
}

impl LocalEndpoint {
    /// The port that is handed out next: the counter with its two highest bits set.
    pub open spec fn port(self) -> u16 {
        self.next | 0xC000
    }

    /// The counter moved on by one, and from the last number back to zero.
    pub open spec fn advanced(self) -> LocalEndpoint {
        LocalEndpoint {
            next: (if self.next == u16::MAX {
                0
            } else {
                self.next + 1
            }) as u16,
        }
    }

    /// Starts handing out ports from `next` on.
    pub fn new(next: u16) -> (endpoint: Self)
        ensures
            endpoint.next == next,
    {
        LocalEndpoint { next }
    }

    /// Hands out a port of the dynamic range: the counter with its two highest bits set.
    ///
    /// The counter moves on by one, and from the last number back to zero.
    pub fn local_endpoint(&mut self) -> (port: u16)
        ensures
            port == old(self).port(),
            port >= 0xC000,
            *final(self) == old(self).advanced(),
    {
        let current: u16 = self.next;
        self.next = current.wrapping_add(1);
        assert((current | 0xC000u16) >= 0xC000u16) by (bit_vector);
        current | 0xC000
    }
}

/// The port counter to start with, drawn from a cycle counter.
pub fn start_endpoint(cycles: u64) -> (start: u16)
    ensures
        start == cycles % 65535,
{
    (cycles % (u16::MAX as u64)) as u16
}

/// Ports handed out one after the other differ unless the counters differ by a multiple of 2^14:
/// the port is the dynamic range's lower bound plus the counter's fourteen low bits.
pub proof fn law_local_endpoint_low_bits(next: u16)
    ensures
        next | 0xC000u16 == 0xC000 + next % 0x4000,
{
    assert(next | 0xC000u16 == 0xC000 + next % 0x4000) by (bit_vector);
}

/// An endpoint has the address and the port of the socket address that it was made from, and a
/// socket address those of the endpoint. An endpoint without an address becomes the zero address.
pub proof fn law_endpoint_is_the_address(addr: SocketAddr, endpoint: IpEndpoint)
    ensures
        match addr {
            SocketAddr::V4(v4) => endpoint_of(addr).addr == IpAddress::Ipv4(v4.ip_addr)
                && endpoint_of(addr).port == v4.port,
            SocketAddr::V6(v6) => endpoint_of(addr).addr == IpAddress::Ipv6(v6.ip_addr)
                && endpoint_of(addr).port == v6.port,
        },
        match endpoint.addr {
            IpAddress::Ipv4(ip) => socket_addr_of(endpoint) matches SocketAddr::V4(v4)
                && v4.ip_addr == ip && v4.port == endpoint.port,
            IpAddress::Ipv6(ip) => socket_addr_of(endpoint) matches SocketAddr::V6(v6)
                && v6.ip_addr == ip && v6.port == endpoint.port && v6.flowinfo == 0
                && v6.scope_id == 0,
            IpAddress::Unspecified => socket_addr_of(endpoint) matches SocketAddr::V4(v4)
                && v4.ip_addr == (Ipv4Addr { a: 0, b: 0, c: 0, d: 0 }) && v4.port == 0,
        },
{
}

/// An address is one of the network stack with the same parts; one that is not assigned is the zero
/// IPv4 address.
pub proof fn law_address_is_the_ip(ip: IpAddr, addr: IpAddress)
    ensures
        match ip {
            IpAddr::V4(v4) => address_of(ip) == IpAddress::Ipv4(v4),
            IpAddr::V6(v6) => address_of(ip) == IpAddress::Ipv6(v6),
        },
        match addr {
            IpAddress::Ipv4(v4) => ip_addr_of(addr) == IpAddr::V4(v4),
            IpAddress::Ipv6(v6) => ip_addr_of(addr) == IpAddr::V6(v6),
            IpAddress::Unspecified => ip_addr_of(addr) == IpAddr::V4(
                Ipv4Addr { a: 0, b: 0, c: 0, d: 0 },
            ),
        },
{
}

/// An endpoint is specified exactly if it has a port other than zero and an address that does not
/// begin with a zero octet, or that is not all zero.
pub proof fn law_specified_has_address_and_port(endpoint: IpEndpoint)
    ensures
        endpoint.is_specified() <==> endpoint.port != 0 && match endpoint.addr {
            IpAddress::Unspecified => false,
            IpAddress::Ipv4(ip) => ip.a != 0,
            IpAddress::Ipv6(ip) => ip.a != 0 || ip.b != 0 || ip.c != 0 || ip.d != 0 || ip.e != 0
                || ip.f != 0 || ip.g != 0 || ip.h != 0,
        },
        endpoint.addr.is_unspecified() <==> !(IpEndpoint { port: 1, ..endpoint }).is_specified(),
        endpoint.addr.to_unspecified().is_unspecified(),
        endpoint.addr is Ipv4 <==> endpoint.addr.to_unspecified() is Ipv4,
        endpoint.addr is Ipv6 <==> endpoint.addr.to_unspecified() is Ipv6,
{
}

/// The ports that are handed out are those of the dynamic range, one after the other: no port comes
/// again before all others were handed out.
pub proof fn law_ports_are_handed_out_in_turn(ports: LocalEndpoint)
    ensures
        0xC000 <= ports.port() <= 0xFFFF,
        ports.port() == 0xC000 + ports.next % 0x4000,
        ports.advanced().next == (ports.next + 1) % 0x10000,
        ports.advanced().port() == (if ports.port() == 0xFFFF {
            0xC000int
        } else {
            ports.port() + 1
        }),
{
    law_local_endpoint_low_bits(ports.next);
    law_local_endpoint_low_bits(ports.advanced().next);
}

} // verus!
