//! Networking primitives of the socket interface.
use vstd::prelude::*;

verus! {

/// A socket, named by the slot that it occupies in the socket map.
#[derive(Debug, Clone, Copy, PartialEq, Eq, Structural)]
pub struct Socket {
    pub id: usize,
}

/// Information about a TCP socket.
#[derive(Debug, Clone, Copy, PartialEq, Eq, Structural)]
pub struct TcpInfo {
    /// Address of the local socket.
    pub addr: SocketAddr,
}

/// Type of a socket with appended information.
#[derive(Debug, Clone, Copy, PartialEq, Eq, Structural)]
pub enum SocketType {
    /// A TCP socket with its information.
    Tcp(TcpInfo),
    /// A UDP socket.
    Udp,
}

/// What is known of a socket besides the handles it holds.
#[derive(Debug, Clone, Copy, PartialEq, Eq, Structural)]
pub struct SocketInfo {
    pub socket_type: SocketType,
}

/// Commands on sockets.
#[derive(Debug, PartialEq, Eq)]
pub enum SocketCmd<'a> {
    /// Create a socket from its type.
    Create(SocketType),
    /// Duplicate a socket from a reference.
    Dup(&'a Socket),
    /// Close and consume a socket.
    Close(Socket),
}

/// Commands on TCP sockets.
#[derive(Debug, Clone, Copy, PartialEq, Eq, Structural)]
pub enum TcpCmd {
    /// Make a socket listen for connections.
    Listen,
    /// Shut down part of a connection.
    Shutdown,
    /// Update the internals from a `TcpInfo`.
    Update,
}

/// An IP address of either version.
#[derive(Debug, Clone, Copy, PartialEq, Eq, Hash, Structural)]
pub enum IpAddr {
    V4(Ipv4Addr),
    V6(Ipv6Addr),
}

/// An IPv4 address by its octets.
#[derive(Debug, Clone, Copy, PartialEq, Eq, Hash, Structural)]
pub struct Ipv4Addr {
    pub a: u8,
    pub b: u8,
    pub c: u8,
    pub d: u8,
}

impl Ipv4Addr {
    /// The address of four zero octets.
    pub fn unspecified() -> (addr: Self)
        ensures
            addr == (Ipv4Addr { a: 0, b: 0, c: 0, d: 0 }),
    {
        Ipv4Addr { a: 0, b: 0, c: 0, d: 0 }
    }

    /// The octets of the address, the first one first.
    pub fn octets(&self) -> (octets: [u8; 4])
        ensures
            octets@ == seq![self.a, self.b, self.c, self.d],
    {
        [self.a, self.b, self.c, self.d]
    }
}

/// An IPv6 address by its eight 16-bit parts.
#[derive(Debug, Clone, Copy, PartialEq, Eq, Hash, Structural)]
pub struct Ipv6Addr {
    pub a: u16,
    pub b: u16,
    pub c: u16,
    pub d: u16,
    pub e: u16,
    pub f: u16,
    pub g: u16,
    pub h: u16,
}

impl Ipv6Addr {
    /// The address of eight zero parts.
    pub fn unspecified() -> (addr: Self)
        ensures
            addr == (Ipv6Addr { a: 0, b: 0, c: 0, d: 0, e: 0, f: 0, g: 0, h: 0 }),
    {
        Ipv6Addr { a: 0, b: 0, c: 0, d: 0, e: 0, f: 0, g: 0, h: 0 }
    }

    /// The parts of the address, the first one first.
    pub fn parts(&self) -> (parts: [u16; 8])
        ensures
            parts@ == seq![self.a, self.b, self.c, self.d, self.e, self.f, self.g, self.h],
    {
        [self.a, self.b, self.c, self.d, self.e, self.f, self.g, self.h]
    }
}

/// An address and a port.
#[derive(Debug, Clone, Copy, PartialEq, Eq, Hash, Structural)]
pub enum SocketAddr {
    V4(SocketAddrV4),
    V6(SocketAddrV6),
}

/// An IPv4 address and a port.
#[derive(Debug, Clone, Copy, PartialEq, Eq, Hash, Structural)]
pub struct SocketAddrV4 {
    pub ip_addr: Ipv4Addr,
    pub port: u16,
}

impl SocketAddrV4 {
    /// The unspecified address with port zero.
    pub fn unspecified() -> (addr: Self)
        ensures
            addr == (SocketAddrV4 { ip_addr: Ipv4Addr { a: 0, b: 0, c: 0, d: 0 }, port: 0 }),
    {
        SocketAddrV4 { ip_addr: Ipv4Addr::unspecified(), port: 0 }
    }
}

/// An IPv6 address and a port, with flow information and scope.
#[derive(Debug, Clone, Copy, PartialEq, Eq, Hash, Structural)]
pub struct SocketAddrV6 {
    pub ip_addr: Ipv6Addr,
    pub port: u16,
    pub flowinfo: u32,
    pub scope_id: u32,
}

impl SocketAddrV6 {
    /// The unspecified address with port, flow information and scope zero.
    pub fn unspecified() -> (addr: Self)
        ensures
            addr.ip_addr == (Ipv6Addr { a: 0, b: 0, c: 0, d: 0, e: 0, f: 0, g: 0, h: 0 }),
            addr.port == 0,
            addr.flowinfo == 0,
            addr.scope_id == 0,
    {
        SocketAddrV6 { ip_addr: Ipv6Addr::unspecified(), port: 0, flowinfo: 0, scope_id: 0 }
    }
}

/// Which half of a connection is shut down.
#[derive(Debug, Clone, Copy, PartialEq, Eq, Hash, Structural)]
pub enum Shutdown {
    Read,
    Write,
    Both,
}

} // verus!
