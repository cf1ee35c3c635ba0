//! Event sockets: interests, and what they report.
use std::sync::atomic::{AtomicUsize, Ordering};
use std::sync::Arc;
use std::task::{Wake, Waker};

use hermit_sys::event::{Event, EventFlags};
use hermit_sys::event_socket::AsyncEventSocket;
use hermit_sys::look::poll_event;
use hermit_sys::io::{Error, ErrorKind, IoResult};
use hermit_sys::net::{Ipv4Addr, Socket};
use hermit_sys::nic::{Ipv4Cidr, NetworkInterface};
use hermit_sys::poll::{Poll, TaskPoll, WakeOn};
use hermit_sys::socket_map::SocketMap;
use hermit_sys::sys::{
    sys_event_add, sys_event_bind, sys_event_modify, sys_event_remove, sys_event_wait, sys_socket,
    sys_socket_set_non_blocking, sys_waker_bind, sys_waker_send_event,
};
use hermit_sys::turn::{Step, Turn};

struct Count(AtomicUsize);

impl Wake for Count {
    fn wake(self: Arc<Self>) {
        self.0.fetch_add(1, Ordering::SeqCst);
    }
}

fn counting() -> (Arc<Count>, Waker) {
    let count = Arc::new(Count(AtomicUsize::new(0)));
    let waker = Waker::from(count.clone());
    (count, waker)
}

struct Host {
    map: SocketMap,
    nic: NetworkInterface,
    wakes: Vec<Waker>,
}

fn host() -> Host {
    let cidr = Ipv4Cidr { address: Ipv4Addr::unspecified(), prefix_len: 0 };
    Host { map: SocketMap::new(), nic: NetworkInterface::new(cidr), wakes: Vec::new() }
}

impl Host {
    fn event_socket(&mut self) -> Socket {
        let socket = sys_socket(&mut self.map).unwrap();
        sys_socket_set_non_blocking(&mut self.map, socket, true).unwrap();
        sys_event_bind(&mut self.map, &mut self.nic, &mut self.wakes, socket).unwrap();
        socket
    }

    fn waker_socket(&mut self) -> Socket {
        let socket = sys_socket(&mut self.map).unwrap();
        sys_waker_bind(&mut self.map, &mut self.nic, &mut self.wakes, socket).unwrap();
        socket
    }

    fn add(&mut self, socket: Socket, target: Socket, flags: u32, data: u64) {
        let event = event(target, flags, data);
        sys_event_add(&mut self.map, &mut self.wakes, socket, event).unwrap();
    }

    fn send(&mut self, socket: Socket, flags: u32) {
        sys_waker_send_event(&mut self.map, &mut self.wakes, socket, EventFlags(flags)).unwrap();
    }

    fn wait(&mut self, socket: Socket, most: usize) -> IoResult<Vec<(usize, u32, u64)>> {
        match sys_event_wait(&mut self.map, &mut self.nic, socket, most, Step::Begin) {
            Turn::Done(result) => result.map(plain),
            _ => panic!("the wait is not done"),
        }
    }
}

fn event(socket: Socket, flags: u32, data: u64) -> Event {
    Event { flags: EventFlags(flags), socket, data }
}

fn plain(events: Vec<Event>) -> Vec<(usize, u32, u64)> {
    events.iter().map(|event| (event.socket.id, event.flags.0, event.data)).collect()
}

fn would_block() -> Error {
    Error::new(ErrorKind::WouldBlock, "this operation would block")
}

const R: u32 = EventFlags::READABLE;
const W: u32 = EventFlags::WRITABLE;
const RC: u32 = EventFlags::RCLOSED;
const WC: u32 = EventFlags::WCLOSED;

#[test]
fn interests_are_added_once_per_socket() {
    let mut socket = AsyncEventSocket::new();
    let (a, b) = (Socket { id: 1 }, Socket { id: 2 });
    assert_eq!(socket.add_event(event(a, R, 1)), Ok(()));
    assert_eq!(socket.add_event(event(b, W, 2)), Ok(()));
    let exists =
        Error::new(ErrorKind::AlreadyExists, "an event for the specified socket already exists");
    assert_eq!(socket.add_event(event(a, W, 3)), Err(exists));
    assert_eq!(plain(socket.events), vec![(1, R, 1), (2, W, 2)]);
}

#[test]
fn interests_are_replaced_in_place() {
    let mut socket = AsyncEventSocket::new();
    let (a, b) = (Socket { id: 1 }, Socket { id: 2 });
    assert_eq!(socket.add_event(event(a, R, 1)), Ok(()));
    assert_eq!(socket.add_event(event(b, W, 2)), Ok(()));
    assert_eq!(socket.modify_event(event(a, W, 5)), Ok(()));
    let not_found = Error::new(
        ErrorKind::NotFound,
        "this socket is not part of the specified event socket",
    );
    assert_eq!(socket.modify_event(event(Socket { id: 3 }, W, 5)), Err(not_found));
    assert_eq!(plain(socket.events), vec![(1, W, 5), (2, W, 2)]);
}

#[test]
fn interests_ask_for_some_event() {
    let mut socket = AsyncEventSocket::new();
    let a = Socket { id: 1 };
    let no_events = Error::new(ErrorKind::InvalidData, "no events specified");
    assert_eq!(socket.add_event(event(a, EventFlags::NONE, 1)), Err(no_events));
    assert_eq!(socket.add_event(event(a, 0b10000, 1)), Err(no_events));
    assert!(socket.events.is_empty());
    assert_eq!(socket.add_event(event(a, RC, 2)), Ok(()));
    assert_eq!(socket.add_event(event(a, EventFlags::NONE, 3)), Err(no_events));
    assert_eq!(socket.modify_event(event(a, EventFlags::NONE, 3)), Err(no_events));
    assert_eq!(plain(socket.events), vec![(1, RC, 2)]);
    let mut host = host();
    let events = host.event_socket();
    let none = event(a, EventFlags::NONE, 0);
    let result = sys_event_add(&mut host.map, &mut host.wakes, events, none);
    assert_eq!(result, Err(no_events));
    let result = sys_event_modify(&mut host.map, &mut host.wakes, events, none);
    assert_eq!(result, Err(no_events));
    assert_eq!(host.wait(events, 4), Err(would_block()));
}

#[test]
fn removing_undoes_adding() {
    let mut socket = AsyncEventSocket::new();
    let (a, b) = (Socket { id: 1 }, Socket { id: 2 });
    assert_eq!(socket.add_event(event(a, R, 1)), Ok(()));
    assert_eq!(socket.add_event(event(b, W, 2)), Ok(()));
    assert_eq!(socket.remove_socket(b), Ok(()));
    let not_found = Error::new(
        ErrorKind::NotFound,
        "this socket is not part of the specified event socket",
    );
    assert_eq!(socket.remove_socket(b), Err(not_found));
    assert_eq!(socket.modify_event(event(b, W, 2)), Err(not_found));
    assert_eq!(plain(socket.events), vec![(1, R, 1)]);
}

#[test]
fn interests_tell_where_a_reader_is_to_be_woken() {
    let mut socket = AsyncEventSocket::new();
    socket.add_event(event(Socket { id: 1 }, R | W, 0)).unwrap();
    socket.add_event(event(Socket { id: 2 }, WC, 0)).unwrap();
    socket.add_event(event(Socket { id: 3 }, RC, 0)).unwrap();
    let (send, recv) = socket.register_recv_waker();
    assert_eq!(send, vec![Socket { id: 1 }, Socket { id: 2 }]);
    assert_eq!(recv, vec![Socket { id: 1 }, Socket { id: 3 }]);
}

#[test]
fn calls_on_interests_wake_the_tasks_in_any_case() {
    let mut host = host();
    let socket = host.event_socket();
    let (_, waker) = counting();
    let target = Socket { id: 9 };
    host.map.poll_send_task(socket, &waker, &mut host.nic, &mut host.wakes);
    host.map.poll_recv_task(socket, &waker, &mut host.nic, &mut host.wakes);
    let result = sys_event_remove(&mut host.map, &mut host.wakes, socket, target);
    assert_eq!(result.unwrap_err().kind, ErrorKind::NotFound);
    assert_eq!(host.wakes.len(), 2);
    let result = sys_event_modify(&mut host.map, &mut host.wakes, socket, event(target, R, 0));
    assert_eq!(result.unwrap_err().kind, ErrorKind::NotFound);
    assert_eq!(host.wakes.len(), 2);
    let other = host.waker_socket();
    let not_listener = Error::new(ErrorKind::InvalidInput, "not a tcp listener");
    let result = sys_event_add(&mut host.map, &mut host.wakes, other, event(target, R, 0));
    assert_eq!(result, Err(not_listener));
    let unknown = Error::new(ErrorKind::NotSocket, "unknown socket");
    let result = sys_event_add(&mut host.map, &mut host.wakes, target, event(target, R, 0));
    assert_eq!(result, Err(unknown));
    let bind = sys_event_bind(&mut host.map, &mut host.nic, &mut host.wakes, target);
    assert_eq!(bind, Err(unknown));
}

#[test]
fn wait_needs_an_event_socket() {
    let mut host = host();
    let socket = host.waker_socket();
    let not_event = Error::new(ErrorKind::InvalidInput, "not an event socket");
    assert_eq!(host.wait(socket, 4), Err(not_event));
    let unknown = Error::new(ErrorKind::NotSocket, "unknown socket");
    assert_eq!(host.wait(Socket { id: 7 }, 4), Err(unknown));
    let options = host.map.get(socket).unwrap().options;
    let step = Step::Waited(options, Ok(()));
    let not_listener = Error::new(ErrorKind::InvalidInput, "not a tcp listener");
    match sys_event_wait(&mut host.map, &mut host.nic, socket, 4, step) {
        Turn::Done(result) => assert_eq!(result.unwrap_err(), not_listener),
        _ => panic!("the wait is over"),
    }
    let late = Error::new(ErrorKind::TimedOut, "late");
    let step = Step::Waited(options, Err(late));
    match sys_event_wait(&mut host.map, &mut host.nic, socket, 4, step) {
        Turn::Done(result) => assert_eq!(result.unwrap_err(), late),
        _ => panic!("the wait is over"),
    }
}

#[test]
fn gone_sockets_are_reported_as_closed() {
    let mut host = host();
    let socket = host.event_socket();
    host.add(socket, Socket { id: 8 }, R, 1);
    // The same look gives the same event each time.
    assert_eq!(host.wait(socket, 2), Ok(vec![(8, RC, 1), (8, RC, 1)]));
    assert_eq!(host.wait(socket, 0), Ok(vec![]));
    let writer = host.event_socket();
    host.add(writer, Socket { id: 8 }, W | WC, 2);
    assert_eq!(host.wait(writer, 1), Ok(vec![(8, WC, 2)]));
}

#[test]
fn event_that_ends_the_wait_is_not_kept() {
    let mut host = host();
    let socket = host.event_socket();
    let target = host.waker_socket();
    host.add(socket, target, R, 3);
    assert_eq!(host.wait(socket, 4), Err(would_block()));
    host.send(target, R | W);
    // The look that ends the wait sees the event of the waker socket.
    assert_eq!(host.wait(socket, 4), Ok(vec![]));
    let options = host.map.get(socket).unwrap().options;
    host.send(target, R | W);
    let step = Step::Waited(options, Ok(()));
    match sys_event_wait(&mut host.map, &mut host.nic, socket, 4, step) {
        Turn::Done(result) => assert_eq!(result.map(plain), Ok(vec![(target.id, R, 3)])),
        _ => panic!("the wait is over"),
    }
}

#[test]
fn blocking_wait_registers_with_the_event_socket() {
    let mut host = host();
    let socket = host.event_socket();
    let (first, second) = (host.waker_socket(), host.waker_socket());
    host.add(socket, first, R, 1);
    host.add(socket, second, R, 2);
    sys_socket_set_non_blocking(&mut host.map, socket, false).unwrap();
    let wait = match sys_event_wait(&mut host.map, &mut host.nic, socket, 4, Step::Begin) {
        Turn::Wait(_, wait) => wait,
        _ => panic!("a blocking wait waits"),
    };
    let (_, waker) = counting();
    match wait.poll_future(&mut host.map, &mut host.nic, &waker) {
        TaskPoll::Pending => {}
        other => panic!("{:?}", other),
    }
    assert_eq!(host.map.get(socket).unwrap().recv_wakers.len(), 2);
    assert_eq!(host.map.get(socket).unwrap().send_wakers.len(), 1);
    host.send(second, R);
    match wait.poll_future(&mut host.map, &mut host.nic, &waker) {
        TaskPoll::Ready(Ok(event)) => {
            assert_eq!((event.socket, event.flags.0, event.data), (second, R, 2));
        }
        other => panic!("{:?}", other),
    }
    assert_eq!(host.map.get(socket).unwrap().recv_wakers.len(), 3);
    let entry = host.map.take(socket).unwrap();
    assert_eq!(entry.send_wakers.len(), 1);
    match wait.poll_future(&mut host.map, &mut host.nic, &waker) {
        TaskPoll::Ready(Err(error)) => {
            assert_eq!(error, Error::new(ErrorKind::NotSocket, "unknown socket"));
        }
        other => panic!("{:?}", other),
    }
}

#[test]
fn reader_is_woken_through_nested_event_sockets() {
    let mut host = host();
    let outer = host.event_socket();
    let inner = host.event_socket();
    let target = host.waker_socket();
    host.add(outer, inner, R, 1);
    host.add(inner, target, R | W, 2);
    let (count, waker) = counting();
    host.map.poll_recv_task(outer, &waker, &mut host.nic, &mut host.wakes);
    assert!(host.wakes.is_empty());
    let registered = host.map.get(target).unwrap().async_socket.as_waker_ref().unwrap();
    assert!(registered.recv_waker.is_some());
    assert!(registered.send_waker.is_some());
    host.send(target, R);
    for wake in host.wakes.drain(..) {
        wake.wake();
    }
    assert_eq!(count.0.load(Ordering::SeqCst), 1);
    assert_eq!(host.map.get_event_flags(outer, &mut host.nic), Some(R));
    assert_eq!(host.map.get_event_flags(outer, &mut host.nic), Some(0));
    assert_eq!(host.map.get_event_flags(Socket { id: 9 }, &mut host.nic), None);
}

#[test]
fn looks_stop_at_the_first_match() {
    let mut host = host();
    let socket = host.event_socket();
    let (first, second) = (host.waker_socket(), host.waker_socket());
    host.add(socket, first, R, 1);
    host.add(socket, second, R, 2);
    host.send(first, R);
    host.send(second, R);
    assert_eq!(host.map.get_event_flags(socket, &mut host.nic), Some(R));
    // The second socket was not looked at: its event is still there.
    assert_eq!(host.map.get_event_flags(first, &mut host.nic), Some(0));
    assert_eq!(host.map.get_event_flags(second, &mut host.nic), Some(R));
}

#[test]
fn circles_of_interests_are_found() {
    let mut host = host();
    let outer = host.event_socket();
    let inner = host.event_socket();
    host.add(outer, inner, R, 1);
    assert!(host.map.is_nested(outer, 2));
    assert!(!host.map.is_nested(outer, 1));
    assert!(host.map.is_nested(Socket { id: 9 }, 0));
    host.add(inner, outer, R, 1);
    assert!(!host.map.is_nested(outer, 8));
    let sideless = vec![event(Socket { id: 9 }, 0, 1)];
    assert!(!host.map.are_nested(&sideless, 8));
    let sided = vec![event(Socket { id: 9 }, W, 1)];
    assert!(host.map.are_nested(&sided, 8));
}

#[test]
fn interest_amounts_to_what_matches() {
    let interest = event(Socket { id: 1 }, R | WC, 7);
    match poll_event(Some(R | W), interest) {
        Poll::Ready(Ok(event)) => {
            assert_eq!((event.socket.id, event.flags.0, event.data), (1, R, 7));
        }
        other => panic!("{:?}", other),
    }
    match poll_event(Some(W), interest) {
        Poll::Pending(wake_on) => assert_eq!(wake_on, WakeOn::Recv),
        other => panic!("{:?}", other),
    }
    match poll_event(None, event(Socket { id: 1 }, W, 7)) {
        Poll::Ready(Ok(event)) => assert_eq!(event.flags.0, WC),
        other => panic!("{:?}", other),
    }
}

#[test]
fn flags_belong_to_sides() {
    assert!(EventFlags(R).reads() && EventFlags(RC).reads());
    assert!(!EventFlags(W | WC).reads());
    assert!(EventFlags(W).writes() && EventFlags(WC).writes());
    assert!(!EventFlags(R | RC).writes());
}
