//! TCP sockets over a loopback device.
use std::collections::BTreeMap;
use std::sync::atomic::{AtomicUsize, Ordering};
use std::sync::Arc;
use std::task::{Wake, Waker};

use hermit_sys::close::{CloseFuture, ClosePhase};
use hermit_sys::endpoint::{IpAddress, IpEndpoint, LocalEndpoint};
use hermit_sys::event::EventFlags;
use hermit_sys::io::{Error, ErrorKind, IoResult};
use hermit_sys::net::{
    Ipv4Addr, Ipv6Addr, Shutdown, Socket, SocketAddr, SocketAddrV4, SocketAddrV6,
};
use hermit_sys::nic::{Ipv4Cidr, NetworkInterface};
use hermit_sys::poll::{Behaviour, TaskPoll};
use hermit_sys::socket_map::{Options, SocketMap};
use hermit_sys::sys::{sys_socket, sys_socket_set_non_blocking};
use hermit_sys::sys_tcp::{
    sys_tcp_accept, sys_tcp_bind, sys_tcp_connect, sys_tcp_hop_limit, sys_tcp_listen,
    sys_tcp_local_addr, sys_tcp_peek, sys_tcp_read, sys_tcp_remote_addr, sys_tcp_set_hop_limit,
    sys_tcp_shutdown, sys_tcp_write,
};
use hermit_sys::turn::{Step, Turn};
use hermit_sys::tcp::{AsyncTcpSocket, Inner};
use hermit_sys::tcp_backlog::{AsyncTcpBacklog, NamedTcpSocket};
use smoltcp::iface::{EthernetInterface, EthernetInterfaceBuilder, NeighborCache};
use smoltcp::phy::Loopback;
use smoltcp::socket::{SocketHandle, TcpSocket};
use smoltcp::time::Instant;
use smoltcp::wire::{EthernetAddress, IpCidr};

struct Count(AtomicUsize);

impl Wake for Count {
    fn wake(self: Arc<Self>) {
        self.0.fetch_add(1, Ordering::SeqCst);
    }
}

fn counting() -> (Arc<Count>, Waker) {
    let count = Arc::new(Count(AtomicUsize::new(0)));
    let waker = Waker::from(count.clone());
    (count, waker)
}

struct Host {
    iface: EthernetInterface<'static, Loopback>,
    nic: NetworkInterface,
    map: SocketMap,
    wakes: Vec<Waker>,
    ports: LocalEndpoint,
    now: i64,
}

fn host() -> Host {
    let ip_addrs = vec![IpCidr::new(smoltcp::wire::IpAddress::v4(127, 0, 0, 1), 8)];
    let iface = EthernetInterfaceBuilder::new(Loopback::new())
        .ethernet_addr(EthernetAddress::default())
        .neighbor_cache(NeighborCache::new(BTreeMap::new()))
        .ip_addrs(ip_addrs)
        .finalize();
    let nic = NetworkInterface::new(Ipv4Cidr { address: Ipv4Addr::unspecified(), prefix_len: 0 });
    let ports = LocalEndpoint::new(7);
    Host { iface, nic, map: SocketMap::new(), wakes: Vec::new(), ports, now: 0 }
}

fn addr(port: u16) -> SocketAddr {
    SocketAddr::V4(SocketAddrV4 { ip_addr: Ipv4Addr { a: 127, b: 0, c: 0, d: 1 }, port })
}

fn done<T, W>(turn: Turn<T, W>) -> IoResult<T> {
    match turn {
        Turn::Done(result) => result,
        _ => panic!("the call is not done"),
    }
}

impl Host {
    fn drive(&mut self) {
        for _ in 0..50 {
            let _ = self.iface.poll(&mut self.nic.socket_set, Instant::from_millis(self.now));
            self.now += 10;
        }
    }

    fn bound(&mut self, port: u16) -> Socket {
        let socket = sys_socket(&mut self.map).unwrap();
        sys_socket_set_non_blocking(&mut self.map, socket, true).unwrap();
        sys_tcp_bind(&mut self.map, &mut self.nic, &mut self.wakes, socket, addr(port)).unwrap();
        socket
    }

    fn listening(&mut self, port: u16, backlog: usize) -> Socket {
        let socket = self.bound(port);
        sys_tcp_listen(&mut self.map, &mut self.nic, &mut self.wakes, socket, backlog).unwrap();
        socket
    }

    fn connect(&mut self, socket: Socket, port: u16) -> IoResult<()> {
        done(sys_tcp_connect(&self.map, &mut self.nic, socket, addr(port), &mut self.ports))
    }

    fn accept(&mut self, socket: Socket) -> IoResult<Socket> {
        done(sys_tcp_accept(&mut self.map, &mut self.nic, &mut self.wakes, socket, Step::Begin))
    }

    fn handles(&self, socket: Socket) -> Vec<SocketHandle> {
        let entry = self.map.get(socket).unwrap();
        match &entry.async_socket.as_tcp_ref().unwrap().inner {
            Inner::Handle(handle) => vec![handle.inner()],
            Inner::Backlog(backlog) => backlog.iter().map(|handle| handle.inner()).collect(),
        }
    }

    fn push(&mut self, socket: Socket, octets: &[u8]) {
        let handle = self.handles(socket)[0];
        let n = self.nic.socket_set.get::<TcpSocket>(handle).send_slice(octets).unwrap();
        assert_eq!(n, octets.len());
        self.drive();
    }

    /// A client and the server's end of a connection between them.
    fn connection(&mut self) -> (Socket, Socket, Socket) {
        let listener = self.listening(80, 2);
        let client = self.bound(50000);
        let error = self.connect(client, 80).unwrap_err();
        assert_eq!(error, Error::new(ErrorKind::WouldBlock, "this operation would block"));
        self.drive();
        let server = self.accept(listener).unwrap();
        (listener, client, server)
    }

    fn read(&mut self, socket: Socket, buf: &mut [u8]) -> IoResult<usize> {
        done(sys_tcp_read(&self.map, &mut self.nic, socket, buf, Step::Begin))
    }
}

#[test]
fn connection_is_accepted_as_a_new_socket() {
    let mut host = host();
    let (listener, client, server) = host.connection();
    assert_eq!(listener, Socket { id: 0 });
    assert_eq!(client, Socket { id: 1 });
    assert_eq!(server, Socket { id: 2 });
    assert_eq!(sys_tcp_local_addr(&host.map, server), Ok(addr(80)));
    assert_eq!(sys_tcp_remote_addr(&host.map, &mut host.nic, server), Ok(addr(50000)));
    assert_eq!(sys_tcp_remote_addr(&host.map, &mut host.nic, client), Ok(addr(80)));
    let entry = host.map.get(server).unwrap();
    assert_eq!(entry.options, Options { non_blocking: true, timeout: None });
}

#[test]
fn backlog_keeps_its_size_over_accepts() {
    let mut host = host();
    let (listener, _, server) = host.connection();
    let connected = host.handles(server)[0];
    let backlog = host.handles(listener);
    assert_eq!(backlog.len(), 2);
    assert!(!backlog.contains(&connected));
    let second = host.bound(50001);
    assert!(host.connect(second, 80).is_err());
    host.drive();
    let other = host.accept(listener).unwrap();
    assert_eq!(host.handles(listener).len(), 2);
    assert_ne!(host.handles(other), host.handles(server));
}

#[test]
fn accept_wakes_the_tasks_of_the_listener() {
    let mut host = host();
    let listener = host.listening(80, 1);
    let client = host.bound(50000);
    assert!(host.connect(client, 80).is_err());
    host.drive();
    let (count, waker) = counting();
    host.map.poll_send_task(listener, &waker, &mut host.nic, &mut host.wakes);
    assert!(host.wakes.is_empty());
    host.accept(listener).unwrap();
    assert_eq!(host.wakes.len(), 1);
    host.wakes.pop().unwrap().wake();
    assert_eq!(count.0.load(Ordering::SeqCst), 1);
}

#[test]
fn accept_without_a_connection_would_block() {
    let mut host = host();
    let listener = host.listening(80, 2);
    let would_block = Error::new(ErrorKind::WouldBlock, "this operation would block");
    assert_eq!(host.accept(listener), Err(would_block));
    host.drive();
    assert_eq!(host.accept(listener), Err(would_block));
    let portless = host.listening(0, 2);
    let refused = Error::new(ErrorKind::ConnectionRefused, "connection refused");
    assert_eq!(host.accept(portless), Err(refused));
    let empty = host.listening(81, 0);
    let nothing = Error::new(ErrorKind::Other, "no sockets in backlog");
    assert_eq!(host.accept(empty), Err(nothing));
}

#[test]
fn accept_needs_a_listening_socket() {
    let mut host = host();
    let socket = host.bound(80);
    let not_listening = Error::new(ErrorKind::NotListening, "this socket is not listening");
    assert_eq!(host.accept(socket), Err(not_listening));
    let unbound = sys_socket(&mut host.map).unwrap();
    let not_tcp = Error::new(ErrorKind::InvalidInput, "not a tcp socket");
    assert_eq!(host.accept(unbound), Err(not_tcp));
    let unknown = Error::new(ErrorKind::NotSocket, "unknown socket");
    assert_eq!(host.accept(Socket { id: 9 }), Err(unknown));
}

#[test]
fn accept_tries_again_if_the_connection_is_gone() {
    let mut host = host();
    let listener = host.listening(80, 2);
    let options = Options { non_blocking: false, timeout: None };
    let step = Step::Waited(options, Ok(()));
    match sys_tcp_accept(&mut host.map, &mut host.nic, &mut host.wakes, listener, step) {
        Turn::Retry(same) => assert_eq!(same, options),
        _ => panic!("there is nothing to accept"),
    }
}

#[test]
fn accept_waits_on_all_of_the_backlog() {
    let mut host = host();
    let listener = host.listening(80, 2);
    let client = host.bound(50000);
    sys_socket_set_non_blocking(&mut host.map, listener, false).unwrap();
    let turn =
        sys_tcp_accept(&mut host.map, &mut host.nic, &mut host.wakes, listener, Step::Begin);
    let (options, wait) = match turn {
        Turn::Wait(options, wait) => (options, wait),
        _ => panic!("a blocking accept waits"),
    };
    assert_eq!(options, Options { non_blocking: false, timeout: None });
    assert_eq!(wait.behaviour, Behaviour::Blocking(None));
    assert_eq!(wait.raw.handles.len(), 2);
    let (_, waker) = counting();
    match wait.poll_future(&mut host.map, &mut host.nic, &waker) {
        TaskPoll::Pending => {}
        other => panic!("{:?}", other),
    }
    assert_eq!(host.map.get(listener).unwrap().send_wakers.len(), 1);
    assert!(host.connect(client, 80).is_err());
    host.drive();
    match wait.poll_future(&mut host.map, &mut host.nic, &waker) {
        TaskPoll::Ready(Ok(())) => {}
        other => panic!("{:?}", other),
    }
    wait.release(&mut host.nic);
    let step = Step::Waited(options, Ok(()));
    let turn = sys_tcp_accept(&mut host.map, &mut host.nic, &mut host.wakes, listener, step);
    assert_eq!(done(turn), Ok(Socket { id: 2 }));
}

#[test]
fn listen_cuts_the_backlog_down() {
    let mut host = host();
    let large = host.listening(80, 33);
    assert_eq!(host.handles(large).len(), 32);
    let exact = host.listening(81, 32);
    assert_eq!(host.handles(exact).len(), 32);
}

#[test]
fn listen_needs_a_closed_socket() {
    let mut host = host();
    let listener = host.listening(80, 1);
    let again = sys_tcp_listen(&mut host.map, &mut host.nic, &mut host.wakes, listener, 1);
    assert_eq!(again, Err(Error::new(ErrorKind::InvalidInput, "already listening")));
    let client = host.bound(50000);
    assert!(host.connect(client, 80).is_err());
    let open = sys_tcp_listen(&mut host.map, &mut host.nic, &mut host.wakes, client, 1);
    assert_eq!(open, Err(Error::new(ErrorKind::InvalidInput, "already open")));
}

#[test]
fn listening_socket_has_no_connection() {
    let mut host = host();
    let listener = host.listening(80, 1);
    let listening = Error::new(ErrorKind::InvalidInput, "this socket is listening");
    assert_eq!(host.connect(listener, 81), Err(listening));
    assert_eq!(host.read(listener, &mut [0; 4]), Err(listening));
    let turn = sys_tcp_write(&host.map, &mut host.nic, listener, b"abc", Step::Begin);
    assert_eq!(done(turn), Err(listening));
    assert_eq!(sys_tcp_hop_limit(&host.map, &mut host.nic, listener), Err(listening));
    assert_eq!(sys_tcp_remote_addr(&host.map, &mut host.nic, listener), Err(listening));
    assert_eq!(sys_tcp_set_hop_limit(&host.map, &mut host.nic, listener, None), Err(listening));
    let zero = Some(0);
    assert_eq!(sys_tcp_set_hop_limit(&host.map, &mut host.nic, listener, zero), Err(listening));
    let unknown = Error::new(ErrorKind::NotSocket, "unknown socket");
    let nobody = Socket { id: 6 };
    assert_eq!(sys_tcp_set_hop_limit(&host.map, &mut host.nic, nobody, zero), Err(unknown));
}

#[test]
fn connecting_is_exclusive() {
    let mut host = host();
    let client = host.bound(50000);
    assert!(host.connect(client, 80).is_err());
    assert!(host.nic.was_woken());
    let same = Error::new(ErrorKind::AlreadyExists, "already connecting to another remote");
    assert_eq!(host.connect(client, 80), Err(same));
    let other = Error::new(ErrorKind::InUse, "already in use");
    assert_eq!(host.connect(client, 81), Err(other));
    assert_eq!(sys_tcp_remote_addr(&host.map, &mut host.nic, client), Ok(addr(80)));
    assert_eq!(host.ports.next, 7);
}

#[test]
fn connecting_from_port_zero_takes_a_port() {
    let mut host = host();
    let listener = host.listening(80, 2);
    let client = host.bound(0);
    let would_block = Error::new(ErrorKind::WouldBlock, "this operation would block");
    assert_eq!(host.connect(client, 80), Err(would_block));
    assert_eq!(host.ports.next, 8);
    assert!(host.connect(client, 80).is_err());
    assert_eq!(host.ports.next, 8);
    host.drive();
    let server = host.accept(listener).unwrap();
    assert_eq!(sys_tcp_remote_addr(&host.map, &mut host.nic, server), Ok(addr(0xC007)));
    let second = host.bound(0);
    assert!(host.connect(second, 80).is_err());
    host.drive();
    let server = host.accept(listener).unwrap();
    assert_eq!(sys_tcp_remote_addr(&host.map, &mut host.nic, server), Ok(addr(0xC008)));
}

#[test]
fn connect_needs_a_specified_remote() {
    let mut host = host();
    let invalid = Error::new(ErrorKind::InvalidData, "invalid remote");
    let client = host.bound(50000);
    assert_eq!(host.connect(client, 0), Err(invalid));
    let unknown = Error::new(ErrorKind::NotSocket, "unknown socket");
    assert_eq!(host.connect(Socket { id: 7 }, 80), Err(unknown));
}

#[test]
fn refused_connection_is_not_connected() {
    let mut host = host();
    let client = host.bound(50000);
    assert!(host.connect(client, 80).is_err());
    host.drive();
    let no_endpoint = Error::new(ErrorKind::NotConnected, "no endpoint available");
    assert_eq!(sys_tcp_remote_addr(&host.map, &mut host.nic, client), Err(no_endpoint));
    let not_connected = Error::new(ErrorKind::NotConnected, "not connected");
    assert_eq!(host.read(client, &mut [0; 4]), Err(not_connected));
    let turn = sys_tcp_write(&host.map, &mut host.nic, client, b"abc", Step::Begin);
    assert_eq!(done(turn), Err(not_connected));
}

#[test]
fn wait_for_a_connection_that_the_peer_refuses_fails() {
    let mut host = host();
    let client = host.bound(50000);
    sys_socket_set_non_blocking(&mut host.map, client, false).unwrap();
    let turn = sys_tcp_connect(&host.map, &mut host.nic, client, addr(80), &mut host.ports);
    let wait = match turn {
        Turn::Wait(_, wait) => wait,
        _ => panic!("a blocking connect waits"),
    };
    host.drive();
    let (_, waker) = counting();
    match wait.poll_future(&mut host.map, &mut host.nic, &waker) {
        TaskPoll::Ready(Err(error)) => {
            assert_eq!(error, Error::new(ErrorKind::ConnectionRefused, "connection refused"));
        }
        other => panic!("{:?}", other),
    }
    wait.release(&mut host.nic);
}

#[test]
fn blocking_connect_waits_for_the_connection() {
    let mut host = host();
    let listener = host.listening(80, 1);
    let client = host.bound(50000);
    sys_socket_set_non_blocking(&mut host.map, client, false).unwrap();
    let turn = sys_tcp_connect(&host.map, &mut host.nic, client, addr(80), &mut host.ports);
    let wait = match turn {
        Turn::Wait(_, wait) => wait,
        _ => panic!("a blocking connect waits"),
    };
    assert_eq!(wait.socket, client);
    let (count, waker) = counting();
    match wait.poll_future(&mut host.map, &mut host.nic, &waker) {
        TaskPoll::Pending => {}
        other => panic!("{:?}", other),
    }
    assert_eq!(host.map.get(client).unwrap().send_wakers.len(), 1);
    assert_eq!(host.map.get(client).unwrap().recv_wakers.len(), 0);
    // The task for writing passes the wakeup of the interface on to those who wait.
    let (task_count, task_waker) = counting();
    host.map.poll_send_task(client, &task_waker, &mut host.nic, &mut host.wakes);
    for wake in host.wakes.drain(..) {
        wake.wake();
    }
    assert_eq!(count.0.load(Ordering::SeqCst), 1);
    host.drive();
    assert!(task_count.0.load(Ordering::SeqCst) >= 1);
    match wait.poll_future(&mut host.map, &mut host.nic, &waker) {
        TaskPoll::Ready(Ok(())) => {}
        other => panic!("{:?}", other),
    }
    wait.release(&mut host.nic);
    assert!(host.accept(listener).is_ok());
}

#[test]
fn wait_for_a_removed_socket_fails() {
    let mut host = host();
    let client = host.bound(50000);
    sys_socket_set_non_blocking(&mut host.map, client, false).unwrap();
    let turn = sys_tcp_connect(&host.map, &mut host.nic, client, addr(80), &mut host.ports);
    let wait = match turn {
        Turn::Wait(_, wait) => wait,
        _ => panic!("a blocking connect waits"),
    };
    let entry = host.map.take(client).unwrap();
    entry.async_socket.release(&mut host.nic);
    let (_, waker) = counting();
    match wait.poll_future(&mut host.map, &mut host.nic, &waker) {
        TaskPoll::Ready(Err(error)) => {
            assert_eq!(error, Error::new(ErrorKind::NotSocket, "unknown socket"));
        }
        other => panic!("{:?}", other),
    }
    wait.release(&mut host.nic);
}

#[test]
fn read_gives_what_peek_gave() {
    let mut host = host();
    let (_, client, server) = host.connection();
    host.push(server, b"hello");
    let mut peeked = [0u8; 8];
    let turn = sys_tcp_peek(&host.map, &mut host.nic, client, &mut peeked, Step::Begin);
    assert_eq!(done(turn), Ok(5));
    assert_eq!(&peeked, b"hello\0\0\0");
    let mut first = [0u8; 2];
    assert_eq!(host.read(client, &mut first), Ok(2));
    assert_eq!(&first, b"he");
    let mut rest = [9u8; 5];
    assert_eq!(host.read(client, &mut rest), Ok(3));
    assert_eq!(&rest, b"llo\x09\x09");
}

#[test]
fn read_tries_again_while_nothing_was_received() {
    let mut host = host();
    let (_, client, _) = host.connection();
    let options = Options { non_blocking: true, timeout: None };
    match sys_tcp_read(&host.map, &mut host.nic, client, &mut [0; 4], Step::Begin) {
        Turn::Retry(same) => assert_eq!(same, options),
        _ => panic!("there is nothing to read"),
    }
    let waited = Step::Waited(options, Err(Error::new(ErrorKind::TimedOut, "late")));
    let turn = sys_tcp_read(&host.map, &mut host.nic, client, &mut [0; 4], waited);
    assert_eq!(done(turn), Err(Error::new(ErrorKind::TimedOut, "late")));
}

#[test]
fn write_sends_before_anything_was_received() {
    let mut host = host();
    let (_, client, server) = host.connection();
    let turn = sys_tcp_write(&host.map, &mut host.nic, client, b"ping", Step::Begin);
    assert_eq!(done(turn), Ok(4));
    let turn = sys_tcp_write(&host.map, &mut host.nic, client, b"pong", Step::Begin);
    assert_eq!(done(turn), Ok(4));
    assert!(host.nic.was_woken());
    host.drive();
    let mut buf = [0u8; 16];
    assert_eq!(host.read(server, &mut buf), Ok(8));
    assert_eq!(&buf[..8], b"pingpong");
}

#[test]
fn write_takes_what_there_is_room_for() {
    let mut host = host();
    let (_, client, _) = host.connection();
    let octets = vec![7u8; 70000];
    let turn = sys_tcp_write(&host.map, &mut host.nic, client, &octets, Step::Begin);
    assert_eq!(done(turn), Ok(65535));
    match sys_tcp_write(&host.map, &mut host.nic, client, b"more", Step::Begin) {
        Turn::Retry(options) => assert!(options.non_blocking),
        _ => panic!("there is no room left"),
    }
}

#[test]
fn write_of_nothing_is_refused() {
    let mut host = host();
    let (_, client, _) = host.connection();
    let turn = sys_tcp_write(&host.map, &mut host.nic, client, b"", Step::Begin);
    assert_eq!(done(turn), Err(Error::new(ErrorKind::WriteZero, "tried to write 0 bytes")));
}

#[test]
fn shutdown_ends_transfers() {
    let mut host = host();
    let (_, client, server) = host.connection();
    host.push(server, b"hello");
    let closed = Error::new(ErrorKind::NotConnected, "the sockets read side is closed");
    assert_eq!(sys_tcp_shutdown(&mut host.map, client, Shutdown::Write), Ok(()));
    let turn = sys_tcp_write(&host.map, &mut host.nic, client, b"abc", Step::Begin);
    assert_eq!(done(turn), Err(closed));
    assert_eq!(host.read(client, &mut [0; 1]), Ok(1));
    assert_eq!(sys_tcp_shutdown(&mut host.map, client, Shutdown::Read), Ok(()));
    assert_eq!(host.read(client, &mut [0; 1]), Err(closed));
    assert_eq!(sys_tcp_shutdown(&mut host.map, server, Shutdown::Both), Ok(()));
    assert_eq!(host.read(server, &mut [0; 1]).unwrap_err().kind, ErrorKind::NotConnected);
    let unbound = sys_socket(&mut host.map).unwrap();
    let not_tcp = Error::new(ErrorKind::InvalidInput, "not a tcp socket");
    assert_eq!(sys_tcp_shutdown(&mut host.map, unbound, Shutdown::Both), Err(not_tcp));
}

#[test]
fn hop_limit_is_kept_until_the_socket_is_used_anew() {
    let mut host = host();
    let client = host.bound(50000);
    assert_eq!(sys_tcp_hop_limit(&host.map, &mut host.nic, client), Ok(None));
    assert_eq!(sys_tcp_set_hop_limit(&host.map, &mut host.nic, client, Some(9)), Ok(()));
    assert!(host.nic.was_woken());
    assert_eq!(sys_tcp_hop_limit(&host.map, &mut host.nic, client), Ok(Some(9)));
    assert!(host.connect(client, 80).is_err());
    assert_eq!(sys_tcp_hop_limit(&host.map, &mut host.nic, client), Ok(None));
}

#[test]
fn duplicated_handle_has_the_same_hop_limit() {
    let mut host = host();
    let local = IpEndpoint {
        addr: IpAddress::Ipv4(Ipv4Addr { a: 127, b: 0, c: 0, d: 1 }),
        port: 80,
    };
    let socket = AsyncTcpSocket::new(local, &mut host.nic);
    assert_eq!(socket.set_hop_limit(&mut host.nic, Some(3)), Ok(()));
    let handle = match &socket.inner {
        Inner::Handle(handle) => handle,
        Inner::Backlog(_) => panic!("the socket does not listen"),
    };
    let new = AsyncTcpSocket::duplicate_handle(handle, &mut host.nic);
    assert_ne!(new.inner(), handle.inner());
    assert_eq!(host.nic.socket_set.get::<TcpSocket>(new.inner()).hop_limit(), Some(3));
    new.release(&mut host.nic);
    socket.release(&mut host.nic);
}

#[test]
fn event_flags_tell_what_can_be_done() {
    let mut host = host();
    let (listener, client, server) = host.connection();
    let flags = |host: &mut Host, socket| host.map.get_event_flags(socket, &mut host.nic);
    assert_eq!(flags(&mut host, client), Some(EventFlags::WRITABLE));
    host.push(server, b"x");
    let both = EventFlags::WRITABLE | EventFlags::READABLE;
    assert_eq!(flags(&mut host, client), Some(both));
    assert_eq!(flags(&mut host, listener), Some(EventFlags::NONE));
    let second = host.bound(50001);
    let closed = EventFlags::WCLOSED | EventFlags::RCLOSED;
    assert_eq!(flags(&mut host, second), Some(closed));
    assert!(host.connect(second, 80).is_err());
    host.drive();
    assert_eq!(flags(&mut host, listener), Some(EventFlags::WRITABLE));
    sys_tcp_shutdown(&mut host.map, server, Shutdown::Read).unwrap();
    let half = EventFlags::WRITABLE | EventFlags::RCLOSED;
    assert_eq!(flags(&mut host, server), Some(half));
}

#[test]
fn wakers_are_registered_on_the_side_that_is_waited_on() {
    let mut host = host();
    let (_, client, server) = host.connection();
    let (reads, read_waker) = counting();
    host.map.poll_recv_task(client, &read_waker, &mut host.nic, &mut host.wakes);
    host.push(server, b"x");
    assert_eq!(reads.0.load(Ordering::SeqCst), 1);
}

#[test]
fn waker_of_another_task_takes_the_place() {
    let mut host = host();
    let (_, client, server) = host.connection();
    let (first, first_waker) = counting();
    let (second, second_waker) = counting();
    {
        let entry = host.map.get(client).unwrap();
        let tcp = entry.async_socket.as_tcp_ref().unwrap();
        tcp.register_recv_waker(&first_waker, &mut host.nic);
        // One slot holds one copy, however often the waker of one task is registered.
        let copies = Arc::strong_count(&first);
        tcp.register_recv_waker(&first_waker, &mut host.nic);
        assert_eq!(Arc::strong_count(&first), copies);
        tcp.register_recv_waker(&second_waker, &mut host.nic);
        assert_eq!(Arc::strong_count(&first), copies - 1);
    }
    host.push(server, b"x");
    assert_eq!(first.0.load(Ordering::SeqCst), 0);
    assert_eq!(second.0.load(Ordering::SeqCst), 1);
}

#[test]
fn binding_again_gives_the_previous_socket_up() {
    let mut host = host();
    let socket = host.bound(50000);
    let before = host.handles(socket);
    sys_tcp_bind(&mut host.map, &mut host.nic, &mut host.wakes, socket, addr(50001)).unwrap();
    assert_ne!(host.handles(socket), before);
    assert_eq!(sys_tcp_local_addr(&host.map, socket), Ok(addr(50001)));
    let unknown = Error::new(ErrorKind::NotSocket, "unknown socket");
    let nowhere = Socket { id: 5 };
    let result = sys_tcp_bind(&mut host.map, &mut host.nic, &mut host.wakes, nowhere, addr(1));
    assert_eq!(result, Err(unknown));
}

#[test]
fn ipv6_address_loses_flow_information() {
    let mut host = host();
    let socket = sys_socket(&mut host.map).unwrap();
    let ip_addr = Ipv6Addr { a: 0xfe80, b: 0, c: 0, d: 0, e: 1, f: 2, g: 3, h: 4 };
    let local = SocketAddrV6 { ip_addr, port: 443, flowinfo: 5, scope_id: 6 };
    let local_addr = SocketAddr::V6(local);
    sys_tcp_bind(&mut host.map, &mut host.nic, &mut host.wakes, socket, local_addr).unwrap();
    let expected = SocketAddr::V6(SocketAddrV6 { flowinfo: 0, scope_id: 0, ..local });
    assert_eq!(sys_tcp_local_addr(&host.map, socket), Ok(expected));
}

#[test]
fn ipv6_remote_is_kept() {
    let mut host = host();
    let socket = sys_socket(&mut host.map).unwrap();
    sys_socket_set_non_blocking(&mut host.map, socket, true).unwrap();
    let ip_addr = Ipv6Addr { a: 0, b: 0, c: 0, d: 0, e: 0, f: 0, g: 0, h: 1 };
    let local =
        SocketAddr::V6(SocketAddrV6 { ip_addr, port: 50000, flowinfo: 0, scope_id: 0 });
    let remote_ip = Ipv6Addr { a: 0x2001, b: 0xdb8, c: 1, d: 2, e: 3, f: 4, g: 5, h: 6 };
    let remote =
        SocketAddr::V6(SocketAddrV6 { ip_addr: remote_ip, port: 80, flowinfo: 0, scope_id: 0 });
    sys_tcp_bind(&mut host.map, &mut host.nic, &mut host.wakes, socket, local).unwrap();
    let turn = sys_tcp_connect(&host.map, &mut host.nic, socket, remote, &mut host.ports);
    let result = done(turn);
    assert_eq!(result.unwrap_err().kind, ErrorKind::WouldBlock);
    assert_eq!(sys_tcp_remote_addr(&host.map, &mut host.nic, socket), Ok(remote));
}

#[test]
fn backlog_of_listeners_accepts_the_first_connection() {
    let mut host = host();
    let listener = host.bound(80);
    let local = IpEndpoint {
        addr: IpAddress::Ipv4(Ipv4Addr { a: 127, b: 0, c: 0, d: 1 }),
        port: 80,
    };
    let unnumbered = AsyncTcpSocket::new(local, &mut host.nic);
    let unnumbered = NamedTcpSocket { socket: None, tcp: unnumbered };
    let error = AsyncTcpBacklog::listen_on(unnumbered, 2, &mut host.nic).unwrap_err();
    let legacy = Error::new(ErrorKind::Other, "can't create tcp backlog from legacy socket");
    assert_eq!(error, legacy);
    let socket = AsyncTcpSocket::new(local, &mut host.nic);
    let socket = NamedTcpSocket { socket: Some(listener), tcp: socket };
    let mut backlog = AsyncTcpBacklog::listen_on(socket, 2, &mut host.nic).unwrap();
    assert_eq!(backlog.backlog.len(), 2);
    assert!(backlog.backlog.iter().all(|member| member.socket == Some(listener)));
    assert_eq!(backlog.local, local);
    let closed = EventFlags::WCLOSED | EventFlags::RCLOSED;
    assert_eq!(backlog.get_event_flags(&mut host.nic).0, closed);
    let ready = Error::new(ErrorKind::WouldBlock, "no socket in backlog is ready");
    let accepted = backlog.accept(&mut host.map, &mut host.nic, &mut host.wakes);
    assert_eq!(accepted, Err(ready));
    let (count, waker) = counting();
    match backlog.wait_for_incoming_connection(&mut host.map, &mut host.nic, &waker) {
        TaskPoll::Pending => {}
        TaskPoll::Ready(()) => panic!("no connection came in"),
    }
    assert_eq!(host.map.get(listener).unwrap().send_wakers.len(), 1);
    backlog.register_exclusive_send_waker(&waker, &mut host.nic, &host.map);
    backlog.register_exclusive_recv_waker(&waker, &mut host.nic, &host.map);
    let client = host.bound(50000);
    assert!(host.connect(client, 80).is_err());
    host.drive();
    assert!(count.0.load(Ordering::SeqCst) >= 1);
    match backlog.wait_for_incoming_connection(&mut host.map, &mut host.nic, &waker) {
        TaskPoll::Ready(()) => {}
        TaskPoll::Pending => panic!("a connection came in"),
    }
    assert_eq!(backlog.get_event_flags(&mut host.nic).0, EventFlags::WRITABLE | closed);
    let server = backlog.accept(&mut host.map, &mut host.nic, &mut host.wakes).unwrap();
    assert_eq!(sys_tcp_remote_addr(&host.map, &mut host.nic, server), Ok(addr(50000)));
    assert_eq!(backlog.backlog.len(), 2);
    let other = Socket { id: 77 };
    backlog.set_socket(other);
    assert!(backlog.backlog.iter().all(|member| member.socket == Some(other)));
    assert_eq!(backlog.socket, listener);
    let second = host.bound(50001);
    assert!(host.connect(second, 80).is_err());
    host.drive();
    assert!(backlog.accept(&mut host.map, &mut host.nic, &mut host.wakes).is_ok());
    let named = backlog.backlog.iter().filter(|member| member.socket == Some(listener)).count();
    assert_eq!(named, 1);
    backlog.close();
    let closed = |member: &NamedTcpSocket| !member.tcp.allow_read && !member.tcp.allow_write;
    assert!(backlog.backlog.iter().all(closed));
}

#[test]
fn backlog_on_port_zero_cannot_listen() {
    let mut host = host();
    let local = IpEndpoint { addr: IpAddress::Unspecified, port: 0 };
    let owner = Socket { id: 3 };
    let tcp = AsyncTcpSocket::new(local, &mut host.nic);
    let socket = NamedTcpSocket { socket: Some(owner), tcp };
    let error = AsyncTcpBacklog::listen_on(socket, 2, &mut host.nic).unwrap_err();
    let cannot = Error::new(ErrorKind::AddrNotAvailable, "can't listen on this endpoint");
    assert_eq!(error, cannot);
    let tcp = AsyncTcpSocket::new(local, &mut host.nic);
    let socket = NamedTcpSocket { socket: Some(owner), tcp };
    let empty = AsyncTcpBacklog::listen_on(socket, 0, &mut host.nic).unwrap();
    assert!(empty.backlog.is_empty());
    // What was given up is gone once the interface was polled.
    host.drive();
    host.nic.socket_set.prune();
    assert_eq!(host.nic.socket_set.iter().count(), 0);
}

#[test]
fn backlog_of_a_removed_socket_drops_the_connection() {
    let mut host = host();
    let gone = Socket { id: 9 };
    let local = IpEndpoint {
        addr: IpAddress::Ipv4(Ipv4Addr { a: 127, b: 0, c: 0, d: 1 }),
        port: 80,
    };
    let tcp = AsyncTcpSocket::new(local, &mut host.nic);
    let socket = NamedTcpSocket { socket: Some(gone), tcp };
    let mut backlog = AsyncTcpBacklog::listen_on(socket, 1, &mut host.nic).unwrap();
    let client = host.bound(50000);
    assert!(host.connect(client, 80).is_err());
    host.drive();
    let unknown = Error::new(ErrorKind::NotSocket, "unknown socket");
    let accepted = backlog.accept(&mut host.map, &mut host.nic, &mut host.wakes);
    assert_eq!(accepted, Err(unknown));
    assert_eq!(backlog.backlog.len(), 1);
}

#[test]
fn closing_waits_for_what_is_to_be_sent() {
    let mut host = host();
    let (_, client, server) = host.connection();
    let handle = host.handles(client)[0];
    host.nic.socket_set.get::<TcpSocket>(handle).send_slice(b"last words").unwrap();
    let (count, waker) = counting();
    let mut future = CloseFuture::new(client);
    match future.poll(&mut host.map, &mut host.nic, &waker, &mut host.wakes) {
        TaskPoll::Pending => {}
        other => panic!("{:?}", other),
    }
    assert!(host.map.get(client).unwrap().closing);
    assert_eq!(future.phase, ClosePhase::Waiting);
    host.drive();
    assert!(count.0.load(Ordering::SeqCst) >= 1);
    match future.poll(&mut host.map, &mut host.nic, &waker, &mut host.wakes) {
        TaskPoll::Ready(Ok(())) => {}
        other => panic!("{:?}", other),
    }
    assert_eq!(future.phase, ClosePhase::Waiting);
    assert!(host.map.get(client).is_err());
    let mut buf = [0u8; 16];
    assert_eq!(host.read(server, &mut buf), Ok(10));
    assert_eq!(&buf[..10], b"last words");
}
