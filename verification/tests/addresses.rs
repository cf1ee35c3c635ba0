//! Addresses, handles and entries.
use hermit_sys::endpoint::{
    addr_to_endpoint, address_to_ip, endpoint_to_addr, ip_to_address, start_endpoint, IpAddress,
    IpEndpoint, LocalEndpoint,
};
use hermit_sys::io::{Error, ErrorKind};
use hermit_sys::legacy::{
    sys_tcp_listener_accept, sys_tcp_stream_close, sys_tcp_stream_connect,
    sys_tcp_stream_duplicate, sys_tcp_stream_get_read_timeout, sys_tcp_stream_get_tll,
    sys_tcp_stream_get_write_timeout, sys_tcp_stream_peek, sys_tcp_stream_peer_addr,
    sys_tcp_stream_read, sys_tcp_stream_set_nonblocking, sys_tcp_stream_set_read_timeout,
    sys_tcp_stream_set_tll, sys_tcp_stream_set_write_timeout, sys_tcp_stream_shutdown,
    sys_tcp_stream_write,
};
use hermit_sys::map_entry::{Inner, MapEntry};
use hermit_sys::net::{
    IpAddr, Ipv4Addr, Ipv6Addr, SocketAddr, SocketAddrV4, SocketAddrV6, SocketInfo, SocketType,
    TcpInfo,
};
use hermit_sys::nic::{Ipv4Cidr, NetworkInterface};

const V4: Ipv4Addr = Ipv4Addr { a: 10, b: 0, c: 5, d: 3 };
const V6: Ipv6Addr = Ipv6Addr { a: 0xfe80, b: 1, c: 2, d: 3, e: 4, f: 5, g: 6, h: 7 };

fn interface() -> NetworkInterface {
    NetworkInterface::new(Ipv4Cidr { address: Ipv4Addr::unspecified(), prefix_len: 0 })
}

#[test]
fn socket_addresses_survive_endpoints() {
    let v4 = SocketAddr::V4(SocketAddrV4 { ip_addr: V4, port: 5042 });
    let endpoint = addr_to_endpoint(v4);
    assert_eq!(endpoint, IpEndpoint { addr: IpAddress::Ipv4(V4), port: 5042 });
    assert_eq!(endpoint_to_addr(endpoint), v4);
    let v6 = SocketAddrV6 { ip_addr: V6, port: 443, flowinfo: 1, scope_id: 2 };
    let endpoint = addr_to_endpoint(SocketAddr::V6(v6));
    assert_eq!(endpoint, IpEndpoint { addr: IpAddress::Ipv6(V6), port: 443 });
    let plain = SocketAddrV6 { flowinfo: 0, scope_id: 0, ..v6 };
    assert_eq!(endpoint_to_addr(endpoint), SocketAddr::V6(plain));
}

#[test]
fn endpoint_without_address_loses_its_port() {
    let endpoint = IpEndpoint { addr: IpAddress::Unspecified, port: 80 };
    assert_eq!(endpoint_to_addr(endpoint), SocketAddr::V4(SocketAddrV4::unspecified()));
    assert_eq!(address_to_ip(IpAddress::Unspecified), IpAddr::V4(Ipv4Addr::unspecified()));
}

#[test]
fn ip_addresses_survive() {
    assert_eq!(ip_to_address(IpAddr::V4(V4)), IpAddress::Ipv4(V4));
    assert_eq!(address_to_ip(ip_to_address(IpAddr::V4(V4))), IpAddr::V4(V4));
    assert_eq!(address_to_ip(ip_to_address(IpAddr::V6(V6))), IpAddr::V6(V6));
}

#[test]
fn specified_endpoints_have_address_and_port() {
    let endpoint = |addr, port| IpEndpoint { addr, port }.is_specified();
    assert!(endpoint(IpAddress::Ipv4(V4), 1));
    assert!(!endpoint(IpAddress::Ipv4(V4), 0));
    assert!(!endpoint(IpAddress::Unspecified, 1));
    assert!(!endpoint(IpAddress::Ipv4(Ipv4Addr { a: 0, b: 1, c: 2, d: 3 }), 1));
    assert!(!endpoint(IpAddress::Ipv6(Ipv6Addr::unspecified()), 1));
    assert!(endpoint(IpAddress::Ipv6(V6), 1));
}

#[test]
fn unspecified_addresses_are_zero() {
    assert_eq!(SocketAddrV4::unspecified().port, 0);
    assert_eq!(SocketAddrV4::unspecified().ip_addr.octets(), [0; 4]);
    assert_eq!(SocketAddrV6::unspecified().ip_addr.parts(), [0; 8]);
    assert_eq!(V6.parts(), [0xfe80, 1, 2, 3, 4, 5, 6, 7]);
    assert_eq!(V4.octets(), [10, 0, 5, 3]);
}

#[test]
fn local_ports_are_of_the_dynamic_range() {
    let mut local = LocalEndpoint::new(0x4001);
    assert_eq!(local.local_endpoint(), 0xC001);
    assert_eq!(local.local_endpoint(), 0xC002);
    let mut last = LocalEndpoint::new(u16::MAX);
    assert_eq!(last.local_endpoint(), u16::MAX);
    assert_eq!(last.local_endpoint(), 0xC000);
    assert_eq!(start_endpoint(65535), 0);
    assert_eq!(start_endpoint(65534), 65534);
    assert_eq!(start_endpoint(2 * 65535 + 7), 7);
}

#[test]
fn calls_on_handles_fail() {
    let mut nic = interface();
    let handle = nic.create_tcp_handle().into_inner();
    let mut buffer = [1, 2, 3];
    assert_eq!(sys_tcp_stream_connect(&[127, 0, 0, 1], 80, None), Err(()));
    assert_eq!(sys_tcp_stream_read(handle, &mut buffer), Err(()));
    assert_eq!(sys_tcp_stream_write(handle, &buffer), Err(()));
    assert_eq!(sys_tcp_stream_close(handle), Err(()));
    assert_eq!(sys_tcp_stream_shutdown(handle, 0), Err(()));
    assert_eq!(sys_tcp_stream_set_read_timeout(handle, Some(1)), Err(()));
    assert_eq!(sys_tcp_stream_get_read_timeout(handle), Err(()));
    assert_eq!(sys_tcp_stream_set_write_timeout(handle, Some(1)), Err(()));
    assert_eq!(sys_tcp_stream_get_write_timeout(handle), Err(()));
    assert_eq!(sys_tcp_stream_duplicate(handle), Err(()));
    assert_eq!(sys_tcp_stream_peek(handle, &mut buffer), Err(()));
    assert_eq!(sys_tcp_stream_set_nonblocking(handle, true), Err(()));
    assert_eq!(sys_tcp_stream_set_tll(handle, 4), Err(()));
    assert_eq!(sys_tcp_stream_get_tll(handle), Err(()));
    assert_eq!(sys_tcp_stream_peer_addr(handle), Err(()));
    assert_eq!(sys_tcp_listener_accept(80), Err(()));
    assert_eq!(buffer, [1, 2, 3]);
}

#[test]
fn entries_give_their_handles_out() {
    let mut nic = interface();
    let handle = nic.create_tcp_handle().into_inner();
    let other = nic.create_tcp_handle().into_inner();
    let addr = SocketAddr::V4(SocketAddrV4 { ip_addr: V4, port: 80 });
    let info = SocketInfo { socket_type: SocketType::Tcp(TcpInfo { addr }) };
    let mut single = MapEntry { inner: Inner::Handle(handle), info, ref_count: 1 };
    assert_eq!(single.as_tcp_handle_mut(), Ok((handle, info)));
    let not_listening = Error::new(ErrorKind::InvalidInput, "socket is not listening");
    assert_eq!(single.as_tcp_backlog_mut().unwrap_err(), not_listening);
    single.add_tcp_backlog(vec![other]);
    assert_eq!(single.as_tcp_handle_mut(), Ok((handle, info)));
    let mut backlog = MapEntry { inner: Inner::Backlog(vec![handle]), info, ref_count: 1 };
    let listening = Error::new(ErrorKind::InvalidInput, "socket is listening");
    assert_eq!(backlog.as_tcp_handle_mut(), Err(listening));
    backlog.as_tcp_backlog_mut().unwrap().0.push(other);
    assert_eq!(backlog.as_tcp_backlog_mut().unwrap().0.len(), 2);
    let udp = SocketInfo { socket_type: SocketType::Udp };
    let mut datagram = MapEntry { inner: Inner::Backlog(vec![]), info: udp, ref_count: 1 };
    let not_tcp = Error::new(ErrorKind::InvalidInput, "socket is not a tcp socket");
    assert_eq!(datagram.as_tcp_handle_mut(), Err(not_tcp));
    assert_eq!(datagram.as_tcp_backlog_mut().unwrap_err(), not_tcp);
}
