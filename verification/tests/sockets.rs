//! Sockets by their numbers: options, binding and closing.
use std::sync::atomic::{AtomicUsize, Ordering};
use std::sync::Arc;
use std::task::{Wake, Waker};

use hermit_sys::close::{CloseFuture, ClosePhase};
use hermit_sys::endpoint::LocalEndpoint;
use hermit_sys::event::EventFlags;
use hermit_sys::io::{Error, ErrorKind};
use hermit_sys::net::{Ipv4Addr, Socket, SocketAddr, SocketAddrV4};
use hermit_sys::nic::{Ipv4Cidr, NetworkInterface, NetworkState, NicAction, NicEvent, DhcpConfig};
use hermit_sys::poll::{Behaviour, TaskPoll, WakeOn};
use hermit_sys::socket::{AsyncSocket, AsyncSocketProxy};
use hermit_sys::socket_map::{Options, SocketMap};
use hermit_sys::sys::{
    sys_event_bind, sys_socket, sys_socket_close, sys_socket_non_blocking,
    sys_socket_set_non_blocking, sys_socket_set_timeout, sys_socket_timeout, sys_waker_bind,
    sys_waker_send_event, Duration,
};
use hermit_sys::sys_tcp::{sys_tcp_bind, sys_tcp_connect};
use hermit_sys::tcp::Inner;
use hermit_sys::waker::WakerRegistration;
use hermit_sys::waker_socket::AsyncWakerSocket;
use smoltcp::socket::TcpSocket;

struct Count(AtomicUsize);

impl Wake for Count {
    fn wake(self: Arc<Self>) {
        self.0.fetch_add(1, Ordering::SeqCst);
    }
}

fn counting() -> (Arc<Count>, Waker) {
    let count = Arc::new(Count(AtomicUsize::new(0)));
    let waker = Waker::from(count.clone());
    (count, waker)
}

fn interface() -> NetworkInterface {
    NetworkInterface::new(Ipv4Cidr { address: Ipv4Addr::unspecified(), prefix_len: 0 })
}

fn unknown() -> Error {
    Error::new(ErrorKind::NotSocket, "unknown socket")
}

fn addr(port: u16) -> SocketAddr {
    SocketAddr::V4(SocketAddrV4 { ip_addr: Ipv4Addr { a: 10, b: 0, c: 0, d: 1 }, port })
}

#[test]
fn sockets_are_numbered_from_the_lowest_free_number() {
    let mut map = SocketMap::new();
    assert_eq!(sys_socket(&mut map), Ok(Socket { id: 0 }));
    assert_eq!(sys_socket(&mut map), Ok(Socket { id: 1 }));
    assert_eq!(sys_socket(&mut map), Ok(Socket { id: 2 }));
    assert!(map.take(Socket { id: 1 }).is_ok());
    assert_eq!(map.get(Socket { id: 1 }).unwrap_err(), unknown());
    assert_eq!(map.get_mut(Socket { id: 1 }).unwrap_err(), unknown());
    assert_eq!(map.take(Socket { id: 1 }).unwrap_err(), unknown());
    assert!(map.get(Socket { id: 2 }).is_ok());
    assert_eq!(sys_socket(&mut map), Ok(Socket { id: 1 }));
    assert_eq!(sys_socket(&mut map), Ok(Socket { id: 3 }));
}

#[test]
fn options_are_kept() {
    let mut map = SocketMap::new();
    let socket = sys_socket(&mut map).unwrap();
    let other = sys_socket(&mut map).unwrap();
    assert_eq!(sys_socket_non_blocking(&map, socket), Ok(false));
    assert_eq!(sys_socket_set_non_blocking(&mut map, socket, true), Ok(()));
    assert_eq!(sys_socket_non_blocking(&map, socket), Ok(true));
    assert_eq!(sys_socket_non_blocking(&map, other), Ok(false));
    let nobody = Socket { id: 2 };
    assert_eq!(sys_socket_non_blocking(&map, nobody), Err(unknown()));
    assert_eq!(sys_socket_set_non_blocking(&mut map, nobody, true), Err(unknown()));
    assert_eq!(sys_socket_timeout(&map, nobody), Err(unknown()));
    assert_eq!(sys_socket_set_timeout(&mut map, nobody, None), Err(unknown()));
}

#[test]
fn timeout_is_given_back_in_whole_millis() {
    let mut map = SocketMap::new();
    let socket = sys_socket(&mut map).unwrap();
    assert_eq!(sys_socket_timeout(&map, socket), Ok(None));
    let timeout = Duration { secs: 3, nanos: 21_999_999 };
    assert_eq!(sys_socket_set_timeout(&mut map, socket, Some(timeout)), Ok(()));
    assert_eq!(map.get(socket).unwrap().options.timeout, Some(3021));
    let whole = Duration { secs: 3, nanos: 21_000_000 };
    assert_eq!(sys_socket_timeout(&map, socket), Ok(Some(whole)));
    assert_eq!(sys_socket_set_timeout(&mut map, socket, None), Ok(()));
    assert_eq!(sys_socket_timeout(&map, socket), Ok(None));
}

#[test]
fn behaviour_goes_by_the_options() {
    let blocking = Options { non_blocking: false, timeout: Some(5) };
    assert_eq!(Behaviour::from(blocking), Behaviour::Blocking(Some(5)));
    let non_blocking = Options { non_blocking: true, timeout: Some(5) };
    assert_eq!(Behaviour::from(non_blocking), Behaviour::NonBlocking);
}

#[test]
fn closing_an_unbound_or_unknown_socket_fails() {
    let mut map = SocketMap::new();
    let mut nic = interface();
    let mut wakes = Vec::new();
    let (_, waker) = counting();
    assert_eq!(sys_socket_close(&map, Socket { id: 0 }).unwrap_err(), unknown());
    let socket = sys_socket(&mut map).unwrap();
    let (mut future, behaviour) = sys_socket_close(&map, socket).unwrap();
    assert_eq!(behaviour, Behaviour::Blocking(None));
    match future.poll(&mut map, &mut nic, &waker, &mut wakes) {
        TaskPoll::Ready(Err(error)) => {
            assert_eq!(error, Error::new(ErrorKind::InvalidInput, "this socket is unbound"));
        }
        other => panic!("{:?}", other),
    }
    assert!(!map.get(socket).unwrap().closing);
    let mut nobody = CloseFuture::new(Socket { id: 8 });
    match nobody.poll(&mut map, &mut nic, &waker, &mut wakes) {
        TaskPoll::Ready(Err(error)) => assert_eq!(error, unknown()),
        other => panic!("{:?}", other),
    }
}

#[test]
fn closing_takes_the_socket_out() {
    let mut map = SocketMap::new();
    let mut nic = interface();
    let mut wakes = Vec::new();
    let (_, waker) = counting();
    let socket = sys_socket(&mut map).unwrap();
    sys_socket_set_non_blocking(&mut map, socket, true).unwrap();
    sys_tcp_bind(&mut map, &mut nic, &mut wakes, socket, addr(80)).unwrap();
    let (mut future, behaviour) = sys_socket_close(&map, socket).unwrap();
    assert_eq!(behaviour, Behaviour::NonBlocking);
    match future.poll(&mut map, &mut nic, &waker, &mut wakes) {
        TaskPoll::Ready(Ok(())) => {}
        other => panic!("{:?}", other),
    }
    assert_eq!(map.get(socket).unwrap_err(), unknown());
    assert_eq!(sys_socket(&mut map), Ok(socket));
}

#[test]
fn closing_a_waker_socket_wakes_whoever_waits() {
    let mut map = SocketMap::new();
    let mut nic = interface();
    let mut wakes = Vec::new();
    let (count, waker) = counting();
    let socket = sys_socket(&mut map).unwrap();
    sys_waker_bind(&mut map, &mut nic, &mut wakes, socket).unwrap();
    map.register_wake_task_waker(socket, &waker, WakeOn::SendRecv, &mut nic);
    let mut future = CloseFuture { socket, phase: ClosePhase::Waiting };
    match future.poll(&mut map, &mut nic, &waker, &mut wakes) {
        TaskPoll::Ready(Ok(())) => {}
        other => panic!("{:?}", other),
    }
    assert_eq!(wakes.len(), 2);
    for wake in wakes.drain(..) {
        wake.wake();
    }
    assert_eq!(count.0.load(Ordering::SeqCst), 2);
}

#[test]
fn tasks_wake_those_who_wait_and_end_with_the_socket() {
    let mut map = SocketMap::new();
    let mut nic = interface();
    let mut wakes = Vec::new();
    let socket = sys_socket(&mut map).unwrap();
    let (writers, writer) = counting();
    let (readers, reader) = counting();
    map.get_mut(socket).unwrap().register_send_waker(&writer);
    map.get_mut(socket).unwrap().register_send_waker(&writer);
    map.get_mut(socket).unwrap().register_recv_waker(&reader);
    let (tasks, task) = counting();
    match map.poll_send_task(socket, &task, &mut nic, &mut wakes) {
        TaskPoll::Pending => {}
        TaskPoll::Ready(()) => panic!("the socket is there"),
    }
    for wake in wakes.drain(..) {
        wake.wake();
    }
    assert_eq!(writers.0.load(Ordering::SeqCst), 2);
    assert_eq!(readers.0.load(Ordering::SeqCst), 0);
    match map.poll_recv_task(socket, &task, &mut nic, &mut wakes) {
        TaskPoll::Pending => {}
        TaskPoll::Ready(()) => panic!("the socket is there"),
    }
    for wake in wakes.drain(..) {
        wake.wake();
    }
    assert_eq!(readers.0.load(Ordering::SeqCst), 1);
    // Binding the socket wakes both tasks.
    sys_event_bind(&mut map, &mut nic, &mut wakes, socket).unwrap();
    for wake in wakes.drain(..) {
        wake.wake();
    }
    assert_eq!(tasks.0.load(Ordering::SeqCst), 2);
    assert!(map.take(socket).is_ok());
    match map.poll_send_task(socket, &task, &mut nic, &mut wakes) {
        TaskPoll::Ready(()) => {}
        TaskPoll::Pending => panic!("the socket is gone"),
    }
    match map.poll_recv_task(socket, &task, &mut nic, &mut wakes) {
        TaskPoll::Ready(()) => {}
        TaskPoll::Pending => panic!("the socket is gone"),
    }
}

#[test]
fn waker_registration_keeps_the_last_waker() {
    let mut registration = WakerRegistration::new();
    let mut wakes = Vec::new();
    registration.wake(&mut wakes);
    assert!(wakes.is_empty());
    let (first, first_waker) = counting();
    let (second, second_waker) = counting();
    registration.register(&first_waker);
    registration.register(&second_waker);
    registration.wake(&mut wakes);
    registration.wake(&mut wakes);
    assert_eq!(wakes.len(), 1);
    wakes.pop().unwrap().wake();
    assert_eq!(first.0.load(Ordering::SeqCst), 0);
    assert_eq!(second.0.load(Ordering::SeqCst), 1);
}

#[test]
fn waker_socket_wakes_readers_only() {
    let mut socket = AsyncWakerSocket::new(None);
    let mut wakes = Vec::new();
    let (_, waker) = counting();
    socket.register_exclusive_send_waker(&waker);
    socket.register_exclusive_recv_waker(&waker);
    socket.send_event(EventFlags(EventFlags::WRITABLE), &mut wakes);
    assert!(wakes.is_empty());
    socket.send_event(EventFlags(EventFlags::RCLOSED), &mut wakes);
    assert_eq!(wakes.len(), 1);
    assert_eq!(socket.get_event_flags().0, EventFlags::RCLOSED);
    assert_eq!(socket.get_event_flags().0, EventFlags::NONE);
    assert!(socket.send_waker.is_some());
    socket.set_socket(Socket { id: 4 });
    assert_eq!(socket.socket, Some(Socket { id: 4 }));
}

#[test]
fn events_are_sent_to_waker_sockets_only() {
    let mut map = SocketMap::new();
    let mut wakes = Vec::new();
    let flags = EventFlags(EventFlags::READABLE);
    let nobody = sys_waker_send_event(&mut map, &mut wakes, Socket { id: 0 }, flags);
    assert_eq!(nobody, Err(unknown()));
    let socket = sys_socket(&mut map).unwrap();
    let other = sys_waker_send_event(&mut map, &mut wakes, socket, flags);
    assert_eq!(other, Err(Error::new(ErrorKind::InvalidInput, "not a tcp listener")));
    let mut nic = interface();
    sys_waker_bind(&mut map, &mut nic, &mut wakes, socket).unwrap();
    assert_eq!(sys_waker_send_event(&mut map, &mut wakes, socket, flags), Ok(()));
    assert_eq!(map.get_event_flags(socket, &mut nic), Some(EventFlags::READABLE));
    assert_eq!(map.get_event_flags(socket, &mut nic), Some(EventFlags::NONE));
    let bind = sys_waker_bind(&mut map, &mut nic, &mut wakes, Socket { id: 1 });
    assert_eq!(bind, Err(unknown()));
}

#[test]
fn kinds_of_sockets_are_told_apart() {
    let mut map = SocketMap::new();
    let mut nic = interface();
    let mut wakes = Vec::new();
    let tcp = sys_socket(&mut map).unwrap();
    let event = sys_socket(&mut map).unwrap();
    let waker = sys_socket(&mut map).unwrap();
    sys_tcp_bind(&mut map, &mut nic, &mut wakes, tcp, addr(1)).unwrap();
    sys_event_bind(&mut map, &mut nic, &mut wakes, event).unwrap();
    sys_waker_bind(&mut map, &mut nic, &mut wakes, waker).unwrap();
    let not_tcp = Error::new(ErrorKind::InvalidInput, "not a tcp socket");
    let not_listener = Error::new(ErrorKind::InvalidInput, "not a tcp listener");
    let not_event = Error::new(ErrorKind::InvalidInput, "not an event socket");
    assert!(AsyncSocketProxy::new(tcp).tcp_ref(&map).is_ok());
    assert_eq!(AsyncSocketProxy::new(event).tcp_ref(&map).unwrap_err(), not_tcp);
    assert_eq!(AsyncSocketProxy::new(event).tcp_mut(&mut map).unwrap_err(), not_tcp);
    assert!(AsyncSocketProxy::new(event).event_ref(&map).is_ok());
    assert_eq!(AsyncSocketProxy::new(tcp).event_ref(&map).unwrap_err(), not_listener);
    assert_eq!(AsyncSocketProxy::new(tcp).event_mut(&mut map).unwrap_err(), not_listener);
    assert!(AsyncSocketProxy::new(waker).waker_ref(&map).is_ok());
    assert_eq!(AsyncSocketProxy::new(tcp).waker_ref(&map).unwrap_err(), not_listener);
    assert_eq!(AsyncSocketProxy::new(tcp).waker_mut(&mut map).unwrap_err(), not_listener);
    let unbound = AsyncSocket::new();
    assert_eq!(unbound.as_tcp_proxy(tcp).unwrap_err(), not_tcp);
    assert_eq!(unbound.as_event_proxy(tcp).unwrap_err(), not_event);
    assert_eq!(unbound.as_waker_proxy(tcp).unwrap_err(), not_event);
    assert!(map.get(tcp).unwrap().async_socket.as_tcp_proxy(tcp).is_ok());
    assert!(map.get(event).unwrap().async_socket.as_event_proxy(event).is_ok());
    assert!(map.get(waker).unwrap().async_socket.as_waker_proxy(waker).is_ok());
    AsyncSocketProxy::new(tcp).tcp_mut(&mut map).unwrap().wclose();
    assert!(!AsyncSocketProxy::new(tcp).tcp_ref(&map).unwrap().allow_write);
    assert_eq!(unbound.is_closed().unwrap_err().kind, ErrorKind::InvalidInput);
    assert_eq!(map.get(waker).unwrap().async_socket.is_closed(), Ok(true));
    let (socket, options) = map.get_mut(tcp).unwrap().split_mut();
    assert!(socket.as_tcp_mut().is_ok());
    options.timeout = Some(1);
    assert_eq!(map.get(tcp).unwrap().split_ref().1.timeout, Some(1));
}

#[test]
fn a_hold_that_is_given_up_was_taken() {
    let mut nic = interface();
    let first = nic.create_tcp_handle();
    let second = first.duplicate(&mut nic);
    assert_eq!(first.inner(), second.inner());
    let handle = second.inner();
    second.release(&mut nic);
    first.release(&mut nic);
    // Sockets that nobody holds stay in the set until it is pruned.
    assert!(!nic.socket_set.get::<TcpSocket>(handle).is_open());
    nic.socket_set.prune();
    assert_eq!(nic.socket_set.iter().count(), 0);
}

#[test]
fn replaced_and_closed_sockets_are_given_up() {
    let mut map = SocketMap::new();
    let mut nic = interface();
    let mut wakes = Vec::new();
    let (_, waker) = counting();
    let socket = sys_socket(&mut map).unwrap();
    sys_tcp_bind(&mut map, &mut nic, &mut wakes, socket, addr(1)).unwrap();
    sys_tcp_bind(&mut map, &mut nic, &mut wakes, socket, addr(2)).unwrap();
    assert_eq!(nic.socket_set.iter().count(), 2);
    nic.socket_set.prune();
    assert_eq!(nic.socket_set.iter().count(), 1);
    // A wait holds the socket on its own.
    let mut ports = LocalEndpoint::new(0);
    let wait = match sys_tcp_connect(&map, &mut nic, socket, addr(3), &mut ports) {
        hermit_sys::turn::Turn::Wait(_, wait) => wait,
        _ => panic!("a blocking connect waits"),
    };
    let mut future = CloseFuture::new(socket);
    match future.poll(&mut map, &mut nic, &waker, &mut wakes) {
        TaskPoll::Ready(Ok(())) => {}
        other => panic!("{:?}", other),
    }
    assert!(nic.status(wait.raw.handle.inner()).is_active);
    wait.release(&mut nic);
}

#[test]
fn socket_that_is_to_send_may_not_be_closed_yet() {
    let mut map = SocketMap::new();
    let mut nic = interface();
    let mut wakes = Vec::new();
    let socket = sys_socket(&mut map).unwrap();
    sys_tcp_bind(&mut map, &mut nic, &mut wakes, socket, addr(1)).unwrap();
    let tcp = AsyncSocketProxy::new(socket).tcp_ref(&map).unwrap();
    assert_eq!(tcp.has_remaining_packets(&mut nic), Ok(false));
    assert!(tcp.may_close(&mut nic));
    match &tcp.inner {
        Inner::Handle(_) => {}
        Inner::Backlog(_) => panic!("the socket does not listen"),
    }
}

#[test]
fn interface_is_polled_until_nothing_changes() {
    let mut nic = interface();
    nic.wake();
    assert!(nic.was_woken());
    assert_eq!(nic.poll(NicEvent::Start), NicAction::PollDevice);
    assert!(!nic.was_woken());
    assert_eq!(nic.poll(NicEvent::Polled(Some(true))), NicAction::PollDevice);
    assert_eq!(nic.poll(NicEvent::Polled(None)), NicAction::PollDevice);
    assert_eq!(nic.poll(NicEvent::Polled(Some(false))), NicAction::PollDhcp);
    let nothing = NicAction::Configure { address: None, router: None };
    assert_eq!(nic.poll(NicEvent::Configured(None)), nothing);
}

#[test]
fn dhcp_address_is_applied_once() {
    let mut nic = interface();
    let cidr = Ipv4Cidr { address: Ipv4Addr { a: 10, b: 0, c: 0, d: 3 }, prefix_len: 24 };
    let router = Some(Ipv4Addr { a: 10, b: 0, c: 0, d: 1 });
    let config = DhcpConfig { address: Some(cidr), router };
    let applied = NicAction::Configure { address: Some(cidr), router };
    assert_eq!(nic.poll(NicEvent::Configured(Some(config))), applied);
    assert_eq!(nic.prev_cidr, cidr);
    let known = NicAction::Configure { address: None, router };
    assert_eq!(nic.poll(NicEvent::Configured(Some(config))), known);
    let zero = Ipv4Cidr { address: Ipv4Addr { a: 0, b: 1, c: 2, d: 3 }, prefix_len: 8 };
    let unspecified = DhcpConfig { address: Some(zero), router: None };
    let nothing = NicAction::Configure { address: None, router: None };
    assert_eq!(nic.poll(NicEvent::Configured(Some(unspecified))), nothing);
    assert_eq!(nic.prev_cidr, cidr);
}

#[test]
fn interface_is_used_once_it_is_initialized() {
    let missing: NetworkState<NetworkInterface> = NetworkState::Missing;
    assert!(!missing.is_initialized());
    let mut state = NetworkState::Initialized(interface());
    assert!(state.is_initialized());
    state.with().wake();
    assert!(state.with().was_woken());
}
