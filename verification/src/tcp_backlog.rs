//! Backlogs of TCP sockets, each of which listens for one connection.
use vstd::prelude::*;

use smoltcp::socket::SocketHandle;
use std::task::Waker;

use crate::endpoint::IpEndpoint;
use crate::event::EventFlags;
use crate::io::{Error, ErrorKind, IoResult};
use crate::net::Socket;
use crate::nic::{NetworkInterface, TCP_BUFFER_SIZE};
use crate::poll::TaskPoll;
use crate::smol::{tcp_listen, TcpModel};
use crate::socket::{AsyncSocket, HandleWrapper};
use crate::socket_map::SocketMap;
use crate::tcp::{release_all, AsyncTcpSocket, Held, Inner, TcpSocketView};

verus! {

broadcast use vstd::map::group_map_axioms;

/// A TCP socket with the socket that it belongs to; none if it was made without one.
#[derive(Debug)]
pub struct NamedTcpSocket {
    pub socket: Option<Socket>,
    pub tcp: AsyncTcpSocket,
}

/// TCP sockets that listen for connections on behalf of a socket, one connection each.
#[derive(Debug)]
pub struct AsyncTcpBacklog {
    pub backlog: Vec<NamedTcpSocket>,
    /// The socket that the connections come in on.
    pub socket: Socket,
    pub local: IpEndpoint,
}

/// The error of a backlog for a socket without a number.
pub open spec fn legacy_socket() -> Error {
    Error { kind: ErrorKind::Other, msg: "can't create tcp backlog from legacy socket" }
}

/// The error of a backlog on a local endpoint that cannot be listened on.
pub open spec fn cannot_listen() -> Error {
    Error { kind: ErrorKind::AddrNotAvailable, msg: "can't listen on this endpoint" }
}

/// The error of accepting when no connection came in.
pub open spec fn none_ready() -> Error {
    Error { kind: ErrorKind::WouldBlock, msg: "no socket in backlog is ready" }
}

/// The first of some sockets that is connected.
pub open spec fn first_connected(
    tcp: Map<SocketHandle, TcpModel>,
    handles: Seq<SocketHandle>,
) -> Option<int>
    decreases handles.len(),
{
    if handles.len() == 0 {
        None
    } else if tcp[handles[0]].is_connected() {
        Some(0)
    } else {
        match first_connected(tcp, handles.skip(1)) {
            Some(i) => Some(i + 1),
            None => None,
        }
    }
}

/// A new socket of the interface that nobody holds any more.
pub open spec fn abandoned() -> TcpModel {
    TcpModel { refs: 0, ..TcpModel::fresh(TCP_BUFFER_SIZE as nat) }
}

/// Whether sockets of the interface went from `before` to `after` by giving up some and adding new
/// ones, all of them alike.
pub open spec fn exchanged(
    before: Map<SocketHandle, TcpModel>,
    after: Map<SocketHandle, TcpModel>,
    given_up: Set<SocketHandle>,
    new: Seq<SocketHandle>,
    model: TcpModel,
) -> bool {
    &&& new.no_duplicates()
    &&& forall|i: int| 0 <= i < new.len() ==> !before.dom().contains(#[trigger] new[i])
    &&& after =~= crate::smol::released(before, given_up).union_prefer_right(
        Map::new(|handle: SocketHandle| new.contains(handle), |handle: SocketHandle| model),
    )
}

impl AsyncTcpBacklog {
    /// The sockets of the interface that the sockets of the backlog hold.
    pub open spec fn handles(self) -> Seq<SocketHandle> {
        self.backlog@.map_values(|socket: NamedTcpSocket| socket.tcp@.held->Handle_0)
    }

    /// Each socket of the backlog holds one socket of the interface, which nobody else holds.
    pub open spec fn wf(self, map: SocketMap, nic: NetworkInterface) -> bool {
        &&& forall|i: int|
            0 <= i < self.backlog@.len() ==> {
                &&& (#[trigger] self.backlog@[i]).tcp@.held == Held::Handle(self.handles()[i])
                &&& self.backlog@[i].tcp@.local == self.local
            }
        &&& self.handles().no_duplicates()
        &&& forall|i: int|
            0 <= i < self.handles().len() ==> {
                &&& nic.tcp().dom().contains(#[trigger] self.handles()[i])
                &&& nic.tcp()[self.handles()[i]].refs > 0
            }
        &&& forall|id: int, handle: SocketHandle| #[trigger]
            crate::socket_map::held(map@, id).contains(handle) ==> !self.handles().contains(handle)
    }

    /// What can be done with the sockets of the backlog, as event flags: what can be done with any.
    pub open spec fn flags(sockets: Seq<NamedTcpSocket>, tcp: Map<SocketHandle, TcpModel>) -> u32
        decreases sockets.len(),
    {
        if sockets.len() == 0 {
            EventFlags::NONE
        } else {
            Self::flags(sockets.drop_last(), tcp) | sockets.last().tcp@.flags(tcp)
        }
    }

    /// Makes as many sockets listen as connections may come in, on behalf of the socket that a TCP
    /// socket belongs to and on its local endpoint. The TCP socket is given up.
    ///
    /// If the endpoint cannot be listened on, the new sockets are given up too.
    pub fn listen_on(
        async_socket: NamedTcpSocket,
        capacity: usize,
        nic: &mut NetworkInterface,
    ) -> (result: IoResult<Self>)
        requires
            old(nic).wf(),
            async_socket.tcp@.live(old(nic).tcp()),
        ensures
            match (async_socket.socket, result) {
                (None, Err(error)) => {
                    &&& error == legacy_socket()
                    &&& final(nic).tcp() == crate::smol::released(
                        old(nic).tcp(),
                        async_socket.tcp@.held.handles().to_set(),
                    )
                },
                (Some(_), Err(error)) => {
                    &&& capacity > 0 && async_socket.tcp@.local.port == 0
                    &&& error == cannot_listen()
                    &&& exists|new: Seq<SocketHandle>|
                        new.len() == capacity && #[trigger] exchanged(
                            old(nic).tcp(),
                            final(nic).tcp(),
                            async_socket.tcp@.held.handles().to_set(),
                            new,
                            abandoned(),
                        )
                },
                (Some(socket), Ok(backlog)) => {
                    &&& capacity == 0 || async_socket.tcp@.local.port != 0
                    &&& backlog.socket == socket
                    &&& backlog.local == async_socket.tcp@.local
                    &&& backlog.backlog@.len() == capacity
                    &&& forall|i: int|
                        0 <= i < capacity ==> {
                            &&& (#[trigger] backlog.backlog@[i]).socket == Some(socket)
                            &&& backlog.backlog@[i].tcp@ == TcpSocketView::fresh(
                                backlog.handles()[i],
                                backlog.local,
                            )
                        }
                    &&& exchanged(
                        old(nic).tcp(),
                        final(nic).tcp(),
                        async_socket.tcp@.held.handles().to_set(),
                        backlog.handles(),
                        TcpModel::fresh(TCP_BUFFER_SIZE as nat).told_to_listen(backlog.local),
                    )
                },
                _ => false,
            },
            final(nic).same_but_sockets(*old(nic)),
    {
        let local = async_socket.tcp.local_addr();
        let ghost tcp = nic.tcp();
        let ghost given_up = async_socket.tcp@.held.handles();
        let socket = match async_socket.socket {
            Some(socket) => socket,
            None => {
                async_socket.tcp.release(nic);
                return Err(
                    Error::new(ErrorKind::Other, "can't create tcp backlog from legacy socket"),
                );
            },
        };
        let ghost fresh = TcpModel::fresh(TCP_BUFFER_SIZE as nat);
        let ghost listening = fresh.told_to_listen(local);
        let mut backlog: Vec<NamedTcpSocket> = Vec::with_capacity(capacity);
        let mut i: usize = 0;
        while i < capacity
            invariant
                i <= capacity,
                i == backlog@.len(),
                tcp == old(nic).tcp(),
                fresh == TcpModel::fresh(TCP_BUFFER_SIZE as nat),
                nic.wf(),
                nic.same_but_sockets(*old(nic)),
                members(backlog@, socket, local),
                added(tcp, nic.tcp(), handles_of(backlog@)),
                forall|j: int| 0 <= j < i ==> nic.tcp()[#[trigger] handles_of(backlog@)[j]] == fresh,
            decreases capacity - i,
        {
            let ghost before = handles_of(backlog@);
            let member = AsyncTcpSocket::new(local, nic);
            let ghost new = member@.held->Handle_0;
            backlog.push(NamedTcpSocket { socket: Some(socket), tcp: member });
            proof {
                assert(handles_of(backlog@) =~= before.push(new));
                assert forall|j: int| 0 <= j < i implies #[trigger] before[j] != new by {
                    assert(before.contains(before[j]));
                }
                lemma_contains_pushed(before, new);
            }
            i += 1;
        }
        let ghost handles = handles_of(backlog@);
        let mut k: usize = 0;
        while k < backlog.len()
            invariant
                k <= backlog@.len(),
                backlog@.len() == capacity,
                k > 0 ==> local.port != 0,
                tcp == old(nic).tcp(),
                async_socket.socket == Some(socket),
                async_socket.tcp@.live(tcp),
                local == async_socket.tcp@.local,
                given_up == async_socket.tcp@.held.handles(),
                fresh == TcpModel::fresh(TCP_BUFFER_SIZE as nat),
                listening == fresh.told_to_listen(local),
                nic.wf(),
                nic.same_but_sockets(*old(nic)),
                handles == handles_of(backlog@),
                members(backlog@, socket, local),
                added(tcp, nic.tcp(), handles),
                forall|j: int| 0 <= j < k ==> nic.tcp()[#[trigger] handles[j]] == listening,
                forall|j: int| k <= j < handles.len() ==> nic.tcp()[#[trigger] handles[j]] == fresh,
            decreases backlog@.len() - k,
        {
            let ghost mid = nic.tcp();
            assert(backlog@[k as int].tcp@.held == Held::Handle(handles[k as int]));
            assert(handles.contains(handles[k as int]));
            let result: IoResult<()> = match backlog[k].tcp.inner.as_handle() {
                Ok(handle) => match tcp_listen(&mut nic.socket_set, handle.inner(), local) {
                    Ok(()) => Ok(()),
                    Err(_) => Err(
                        Error::new(ErrorKind::AddrNotAvailable, "can't listen on this endpoint"),
                    ),
                },
                Err(error) => Err(error),
            };
            if let Err(error) = result {
                proof {
                    assert(nic.tcp() =~= mid);
                }
                release_members(backlog, nic);
                let ghost emptied = nic.tcp();
                proof {
                    lemma_added_live(tcp, emptied, given_up, handles);
                }
                async_socket.tcp.release(nic);
                proof {
                    lemma_exchanged(
                        (tcp, emptied, nic.tcp()),
                        given_up,
                        handles,
                        abandoned(),
                    );
                }
                return Err(error);
            }
            assert(nic.tcp() =~= mid.insert(handles[k as int], listening));
            k += 1;
        }
        let ghost mid = nic.tcp();
        proof {
            lemma_added_live(tcp, mid, given_up, handles);
        }
        async_socket.tcp.release(nic);
        let result = AsyncTcpBacklog { backlog, socket, local };
        proof {
            assert(result.handles() =~= handles);
            lemma_exchanged((tcp, mid, nic.tcp()), given_up, handles, listening);
        }
        Ok(result)
    }

    /// Names the socket that the sockets of the backlog belong to. The one that the connections
    /// come in on stays.
    pub fn set_socket(&mut self, socket: Socket)
        ensures
            final(self).backlog@ == old(self).backlog@.map_values(
                |member: NamedTcpSocket| NamedTcpSocket { socket: Some(socket), ..member },
            ),
            final(self).socket == old(self).socket,
            final(self).local == old(self).local,
    {
        let mut i: usize = 0;
        while i < self.backlog.len()
            invariant
                i <= self.backlog@.len(),
                self.backlog@.len() == old(self).backlog@.len(),
                forall|j: int|
                    0 <= j < i ==> (#[trigger] self.backlog@[j]) == (NamedTcpSocket {
                        socket: Some(socket),
                        ..old(self).backlog@[j]
                    }),
                forall|j: int|
                    i <= j < self.backlog@.len() ==> (#[trigger] self.backlog@[j])
                        == old(self).backlog@[j],
                self.socket == old(self).socket,
                self.local == old(self).local,
            decreases self.backlog@.len() - i,
        {
            self.backlog[i].socket = Some(socket);
            i += 1;
        }
    }

    /// What can be done with the sockets of the backlog, as event flags: what can be done with any.
    pub fn get_event_flags(&self, nic: &mut NetworkInterface) -> (flags: EventFlags)
        requires
            forall|i: int|
                0 <= i < self.backlog@.len() ==> (#[trigger] self.backlog@[i]).tcp@.live(
                    old(nic).tcp(),
                ),
        ensures
            flags.0 == Self::flags(self.backlog@, old(nic).tcp()),
            final(nic).tcp() == old(nic).tcp(),
            final(nic).same_but_sockets(*old(nic)),
    {
        let mut flags: u32 = EventFlags::NONE;
        let mut i: usize = 0;
        while i < self.backlog.len()
            invariant
                i <= self.backlog@.len(),
                forall|i: int|
                    0 <= i < self.backlog@.len() ==> (#[trigger] self.backlog@[i]).tcp@.live(
                        old(nic).tcp(),
                    ),
                flags == Self::flags(self.backlog@.take(i as int), old(nic).tcp()),
                nic.tcp() == old(nic).tcp(),
                nic.same_but_sockets(*old(nic)),
            decreases self.backlog@.len() - i,
        {
            assert(self.backlog@[i as int].tcp@.live(nic.tcp()));
            let found = self.backlog[i].tcp.get_event_flags(nic);
            flags |= found.0;
            assert(self.backlog@.take(i + 1).drop_last() =~= self.backlog@.take(i as int));
            i += 1;
        }
        assert(self.backlog@.take(i as int) =~= self.backlog@);
        EventFlags(flags)
    }

    /// Registers a waker to be woken when one of the sockets can be written to.
    pub fn register_exclusive_send_waker(
        &self,
        waker: &Waker,
        nic: &mut NetworkInterface,
        socket_map: &SocketMap,
    )
        requires
            self.wf(*socket_map, *old(nic)),
        ensures
            crate::smol::wakers_registered(
                old(nic).tcp(),
                final(nic).tcp(),
                *waker,
                self.handles().to_set(),
                Set::empty(),
            ),
            final(nic).same_but_sockets(*old(nic)),
    {
        let ghost tcp = nic.tcp();
        let ghost handles = self.handles();
        let mut i: usize = 0;
        assert(handles.take(0).to_set() =~= Set::empty());
        while i < self.backlog.len()
            invariant
                i <= self.backlog@.len(),
                tcp == old(nic).tcp(),
                handles == self.handles(),
                self.wf(*socket_map, *old(nic)),
                crate::smol::wakers_registered(
                    tcp,
                    nic.tcp(),
                    *waker,
                    handles.take(i as int).to_set(),
                    Set::empty(),
                ),
                nic.same_but_sockets(*old(nic)),
            decreases self.backlog@.len() - i,
        {
            proof {
                lemma_holder_live(self.backlog@[i as int].tcp@, handles[i as int], tcp, nic.tcp());
                crate::tcp::lemma_take_next(handles, i as int);
            }
            self.backlog[i].tcp.register_send_waker(waker, nic);
            i += 1;
        }
        assert(handles.take(i as int) =~= handles);
    }

    /// Registers a waker to be woken when there is something to read from one of the sockets.
    pub fn register_exclusive_recv_waker(
        &self,
        waker: &Waker,
        nic: &mut NetworkInterface,
        socket_map: &SocketMap,
    )
        requires
            self.wf(*socket_map, *old(nic)),
        ensures
            crate::smol::wakers_registered(
                old(nic).tcp(),
                final(nic).tcp(),
                *waker,
                Set::empty(),
                self.handles().to_set(),
            ),
            final(nic).same_but_sockets(*old(nic)),
    {
        let ghost tcp = nic.tcp();
        let ghost handles = self.handles();
        let mut i: usize = 0;
        assert(handles.take(0).to_set() =~= Set::empty());
        while i < self.backlog.len()
            invariant
                i <= self.backlog@.len(),
                tcp == old(nic).tcp(),
                handles == self.handles(),
                self.wf(*socket_map, *old(nic)),
                crate::smol::wakers_registered(
                    tcp,
                    nic.tcp(),
                    *waker,
                    Set::empty(),
                    handles.take(i as int).to_set(),
                ),
                nic.same_but_sockets(*old(nic)),
            decreases self.backlog@.len() - i,
        {
            proof {
                lemma_holder_live(self.backlog@[i as int].tcp@, handles[i as int], tcp, nic.tcp());
                crate::tcp::lemma_take_next(handles, i as int);
            }
            self.backlog[i].tcp.register_recv_waker(waker, nic);
            i += 1;
        }
        assert(handles.take(i as int) =~= handles);
    }

    /// Closes the sockets of the backlog.
    pub fn close(&mut self)
        ensures
            final(self).backlog@.len() == old(self).backlog@.len(),
            forall|i: int|
                0 <= i < old(self).backlog@.len() ==> (#[trigger] final(self).backlog@[i]).tcp@ == (
                TcpSocketView {
                    allow_write: false,
                    allow_read: false,
                    ..old(self).backlog@[i].tcp@
                }),
            forall|i: int|
                0 <= i < old(self).backlog@.len() ==> (#[trigger] final(self).backlog@[i]).socket
                    == old(self).backlog@[i].socket,
            final(self).socket == old(self).socket,
            final(self).local == old(self).local,
    {
        let mut i: usize = 0;
        while i < self.backlog.len()
            invariant
                i <= self.backlog@.len(),
                self.backlog@.len() == old(self).backlog@.len(),
                forall|j: int|
                    0 <= j < i ==> (#[trigger] self.backlog@[j]).socket
                        == old(self).backlog@[j].socket,
                forall|j: int|
                    0 <= j < i ==> (#[trigger] self.backlog@[j]).tcp@ == (TcpSocketView {
                        allow_write: false,
                        allow_read: false,
                        ..old(self).backlog@[j].tcp@
                    }),
                forall|j: int|
                    i <= j < self.backlog@.len() ==> (#[trigger] self.backlog@[j])
                        == old(self).backlog@[j],
                self.socket == old(self).socket,
                self.local == old(self).local,
            decreases self.backlog@.len() - i,
        {
            self.backlog[i].tcp.close();
            i += 1;
        }
    }

    /// Tells whether a connection came in.
    fn find_connected(&self, nic: &mut NetworkInterface, socket_map: &SocketMap) -> (found: Option<
        usize,
    >)
        requires
            self.wf(*socket_map, *old(nic)),
        ensures
            match found {
                Some(i) => i < self.backlog@.len() && first_connected(
                    old(nic).tcp(),
                    self.handles(),
                ) == Some(i as int),
                None => first_connected(old(nic).tcp(), self.handles()) is None,
            },
            final(nic).tcp() == old(nic).tcp(),
            final(nic).same_but_sockets(*old(nic)),
    {
        let ghost handles = self.handles();
        let ghost tcp = nic.tcp();
        let mut i: usize = 0;
        assert(handles.skip(0) =~= handles);
        while i < self.backlog.len()
            invariant
                i <= self.backlog@.len(),
                handles == self.handles(),
                tcp == old(nic).tcp(),
                nic.tcp() == tcp,
                nic.same_but_sockets(*old(nic)),
                self.wf(*socket_map, *old(nic)),
                first_connected(tcp, handles) == (match first_connected(
                    tcp,
                    handles.skip(i as int),
                ) {
                    Some(k) => Some(k + i),
                    None => None::<int>,
                }),
            decreases self.backlog@.len() - i,
        {
            assert(self.backlog@[i as int].tcp@.held == Held::Handle(handles[i as int]));
            assert(handles.skip(i as int)[0] == handles[i as int]);
            assert(handles.skip(i as int).skip(1) =~= handles.skip(i + 1));
            if let Inner::Handle(handle) = &self.backlog[i].tcp.inner {
                let status = nic.status(handle.inner());
                if status.may_recv && status.may_send {
                    return Some(i);
                }
            }
            i += 1;
        }
        None
    }

    /// Accepts the first connection that came in, as a new socket with the options of the socket
    /// that it came in on. Its two tasks are to be started.
    ///
    /// A new TCP socket, which does not listen, takes its place in the backlog. If the socket that
    /// the connections come in on is gone, so is the connection.
    pub fn accept(
        &mut self,
        socket_map: &mut SocketMap,
        nic: &mut NetworkInterface,
        wakes: &mut Vec<Waker>,
    ) -> (result: IoResult<Socket>)
        requires
            old(nic).wf(),
            old(socket_map).wf(*old(nic)),
            old(self).wf(*old(socket_map), *old(nic)),
        ensures
            match first_connected(old(nic).tcp(), old(self).handles()) {
                None => {
                    &&& result == Err::<Socket, Error>(none_ready())
                    &&& *final(self) == *old(self)
                    &&& final(socket_map)@ == old(socket_map)@
                    &&& final(nic).tcp() == old(nic).tcp()
                    &&& final(wakes)@ == old(wakes)@
                },
                Some(i) => {
                    let tcp = old(nic).tcp();
                    let id = old(self).socket.id as int;
                    let handle = old(self).handles()[i];
                    let new = final(self).handles()[i];
                    let replaced = tcp.insert(new, TcpModel::fresh(TCP_BUFFER_SIZE as nat));
                    &&& !tcp.dom().contains(new)
                    &&& final(self).socket == old(self).socket
                    &&& final(self).local == old(self).local
                    &&& final(self).backlog@.len() == old(self).backlog@.len()
                    &&& final(self).backlog@[i].tcp@ == TcpSocketView::fresh(new, old(self).local)
                    &&& final(self).backlog@[i].socket == Some(old(self).socket)
                    &&& forall|j: int|
                        0 <= j < old(self).backlog@.len() && j != i ==> #[trigger] final(self).backlog@[j]
                            == old(self).backlog@[j]
                    &&& match crate::socket_map::lookup(old(socket_map)@, id) {
                        None => {
                            &&& result == Err::<Socket, Error>(crate::socket_map::unknown())
                            &&& final(socket_map)@ == old(socket_map)@
                            &&& final(nic).tcp() == crate::smol::released(replaced, set![handle])
                            &&& final(wakes)@ == old(wakes)@
                        },
                        Some(entry) => {
                            let woken = old(socket_map)@.update(id, Some(entry.tasks_woken()));
                            &&& result matches Ok(socket)
                            &&& crate::socket_map::is_first_free(
                                old(socket_map)@,
                                socket.id as int,
                            )
                            &&& final(socket_map)@ == crate::sys_tcp::with_tcp(
                                crate::socket_map::with_new(
                                    woken,
                                    socket.id as int,
                                    entry.options,
                                ),
                                socket.id as int,
                                old(self).backlog@[i].tcp@,
                            )
                            &&& final(nic).tcp() == replaced
                            &&& final(wakes)@ == old(wakes)@ + entry.tasks()
                        },
                    }
                },
            },
            final(nic).same_but_sockets(*old(nic)),
            final(socket_map).wf(*final(nic)),
            final(self).wf(*final(socket_map), *final(nic)),
    {
        let ghost tcp = nic.tcp();
        let ghost handles = self.handles();
        let ghost before = socket_map@;
        let ghost id = self.socket.id as int;
        let index = match self.find_connected(nic, socket_map) {
            Some(index) => index,
            None => {
                return Err(Error::new(ErrorKind::WouldBlock, "no socket in backlog is ready"));
            },
        };
        let ghost handle = handles[index as int];
        let mut accepted = NamedTcpSocket {
            socket: Some(self.socket),
            tcp: AsyncTcpSocket::new(self.local, nic),
        };
        let ghost new = accepted.tcp@.held->Handle_0;
        let ghost mid = nic.tcp();
        std::mem::swap(&mut self.backlog[index], &mut accepted);
        proof {
            assert(old(self).backlog@[index as int].tcp@.held == Held::Handle(handle));
            assert(self.handles() =~= handles.update(index as int, new));
            assert forall|j: int| 0 <= j < handles.len() && j != index implies
                #[trigger] self.handles()[j] == handles[j] && handles[j] != new && handles[j]
                != handle by {
                assert(tcp.dom().contains(handles[j]));
                assert(self.backlog@[j] == old(self).backlog@[j]);
            }
            crate::socket_map::lemma_owned_kept((before, tcp), (before, mid));
            lemma_holder_live(accepted.tcp@, handle, tcp, mid);
        }
        let async_socket = AsyncSocket::from(accepted.tcp);
        proof {
            assert(async_socket@.handles() =~= seq![handle]);
            assert(async_socket@.handles()[0] == handle);
            assert(handles.contains(handle));
            assert(tcp.dom().contains(handle));
            assert forall|other: int, held: SocketHandle| #[trigger]
                crate::socket_map::held(before, other).contains(held) implies held != handle && held
                != new by {
                assert(tcp.dom().contains(held));
            }
            assert forall|i: int| 0 <= i < self.backlog@.len() implies {
                &&& (#[trigger] self.backlog@[i]).tcp@.held == Held::Handle(self.handles()[i])
                &&& self.backlog@[i].tcp@.local == self.local
            } by {
                if i != index {
                    assert(self.backlog@[i] == old(self).backlog@[i]);
                }
            }
        }
        let options = match socket_map.get_mut(self.socket) {
            Ok(entry) => {
                entry.wake_tasks(wakes);
                entry.options
            },
            Err(error) => {
                async_socket.release(nic);
                proof {
                    assert(async_socket@.handles().to_set() =~= set![handle]);
                    assert(nic.tcp() =~= crate::smol::released(mid, set![handle]));
                    crate::socket_map::lemma_owned_kept_by_others(
                        (before, mid),
                        nic.tcp(),
                        handle,
                    );
                    lemma_backlog_kept(*self, *socket_map, *nic, handles, new, index as int);
                }
                return Err(error);
            },
        };
        let ghost woken = socket_map@;
        proof {
            assert forall|other: int| #[trigger]
                crate::socket_map::held(woken, other) == crate::socket_map::held(before, other) by {
            }
            crate::socket_map::lemma_owned_kept((before, mid), (woken, mid));
        }
        let socket = socket_map.new_socket(options);
        let ghost with_new = socket_map@;
        proof {
            assert forall|other: int| #[trigger]
                crate::socket_map::held(with_new, other) == crate::socket_map::held(
                    before,
                    other,
                ) by {}
        }
        let result = socket_map.bind_socket(socket, async_socket, nic, wakes);
        proof {
            assert(crate::socket_map::held(with_new, socket.id as int).to_set() =~= Set::empty());
            assert(nic.tcp() =~= mid);
            let entry = crate::socket_map::lookup(before, id)->0;
            assert(wakes@ =~= old(wakes)@ + entry.tasks());
            assert(socket.id as int != id);
            assert(crate::socket_map::is_first_free(before, socket.id as int)) by {
                assert forall|k: int| 0 <= k < socket.id as int implies (
                #[trigger] before[k]) is Some by {
                    assert(woken[k] is Some);
                }
            }
            assert(socket_map@ =~= crate::sys_tcp::with_tcp(
                crate::socket_map::with_new(woken, socket.id as int, options),
                socket.id as int,
                old(self).backlog@[index as int].tcp@,
            ));
            assert forall|other: int, held: SocketHandle| #[trigger]
                crate::socket_map::held(socket_map@, other).contains(
                    held,
                ) implies held == handle || crate::socket_map::held(before, other).contains(
                held,
            ) by {
                if other == socket.id as int {
                    assert(crate::socket_map::held(socket_map@, other) =~= seq![handle]);
                }
            }
            lemma_backlog_kept(*self, *socket_map, *nic, handles, new, index as int);
        }
        match result {
            Ok(()) => Ok(socket),
            Err(error) => Err(error),
        }
    }

    /// Waits for a connection to come in: whether one came in, or to wait for the socket that it is
    /// to come in on.
    pub fn wait_for_incoming_connection(
        &self,
        socket_map: &mut SocketMap,
        nic: &mut NetworkInterface,
        waker: &Waker,
    ) -> (poll: TaskPoll<()>)
        requires
            self.wf(*old(socket_map), *old(nic)),
            crate::socket_map::lookup(old(socket_map)@, self.socket.id as int) is Some,
        ensures
            match first_connected(old(nic).tcp(), self.handles()) {
                Some(_) => {
                    &&& poll == TaskPoll::Ready(())
                    &&& final(socket_map)@ == old(socket_map)@
                },
                None => {
                    &&& poll == TaskPoll::<()>::Pending
                    &&& crate::poll::joined(
                        old(socket_map)@,
                        final(socket_map)@,
                        self.socket.id as int,
                        1,
                        0,
                        *waker,
                    )
                },
            },
            final(nic).tcp() == old(nic).tcp(),
            final(nic).same_but_sockets(*old(nic)),
    {
        if self.find_connected(nic, socket_map).is_some() {
            TaskPoll::Ready(())
        } else {
            let _ = crate::poll::WakeOn::Send.register(self.socket, waker, socket_map);
            TaskPoll::Pending
        }
    }
}

/// The sockets of the interface that some sockets hold, one each.
spec fn handles_of(sockets: Seq<NamedTcpSocket>) -> Seq<SocketHandle> {
    sockets.map_values(|socket: NamedTcpSocket| socket.tcp@.held->Handle_0)
}

/// The sockets are newly bound ones that belong to the given one.
spec fn members(sockets: Seq<NamedTcpSocket>, socket: Socket, local: IpEndpoint) -> bool {
    forall|i: int|
        0 <= i < sockets.len() ==> {
            &&& (#[trigger] sockets[i]).socket == Some(socket)
            &&& sockets[i].tcp@ == TcpSocketView::fresh(handles_of(sockets)[i], local)
        }
}

/// Sockets of the interface were added, and the others stayed as they were.
spec fn added(
    before: Map<SocketHandle, TcpModel>,
    after: Map<SocketHandle, TcpModel>,
    new: Seq<SocketHandle>,
) -> bool {
    &&& new.no_duplicates()
    &&& forall|i: int| 0 <= i < new.len() ==> !before.dom().contains(#[trigger] new[i])
    &&& forall|handle: SocketHandle| #[trigger]
        after.dom().contains(handle) <==> before.dom().contains(handle) || new.contains(handle)
    &&& forall|handle: SocketHandle| #[trigger]
        before.dom().contains(handle) ==> after[handle] == before[handle]
}

/// What a sequence contains once an item was pushed.
proof fn lemma_contains_pushed(before: Seq<SocketHandle>, new: SocketHandle)
    ensures
        forall|other: SocketHandle| #[trigger]
            before.push(new).contains(other) <==> before.contains(other) || other == new,
{
    let after = before.push(new);
    assert forall|other: SocketHandle| #[trigger]
        after.contains(other) <==> before.contains(other) || other == new by {
        if before.contains(other) {
            let j = choose|j: int| 0 <= j < before.len() && before[j] == other;
            assert(after[j] == other);
        }
        assert(after[before.len() as int] == new);
    }
}

/// What was held is still held after sockets were added.
proof fn lemma_added_live(
    before: Map<SocketHandle, TcpModel>,
    after: Map<SocketHandle, TcpModel>,
    held: Seq<SocketHandle>,
    new: Seq<SocketHandle>,
)
    requires
        added(before, after, new),
        forall|i: int|
            0 <= i < held.len() ==> {
                &&& before.dom().contains(#[trigger] held[i])
                &&& before[held[i]].refs > 0
            },
    ensures
        forall|i: int|
            0 <= i < held.len() ==> {
                &&& after.dom().contains(#[trigger] held[i])
                &&& after[held[i]].refs > 0
            },
{
    assert forall|i: int| 0 <= i < held.len() implies {
        &&& after.dom().contains(#[trigger] held[i])
        &&& after[held[i]].refs > 0
    } by {
        assert(before.dom().contains(held[i]));
    }
}

/// Sockets were added, and then others given up.
proof fn lemma_exchanged(
    steps: (Map<SocketHandle, TcpModel>, Map<SocketHandle, TcpModel>, Map<SocketHandle, TcpModel>),
    given_up: Seq<SocketHandle>,
    new: Seq<SocketHandle>,
    model: TcpModel,
)
    requires
        added(steps.0, steps.1, new),
        forall|i: int| 0 <= i < new.len() ==> steps.1[#[trigger] new[i]] == model,
        forall|i: int| 0 <= i < given_up.len() ==> steps.0.dom().contains(#[trigger] given_up[i]),
        steps.2 == crate::smol::released(steps.1, given_up.to_set()),
    ensures
        exchanged(steps.0, steps.2, given_up.to_set(), new, model),
{
    assert forall|handle: SocketHandle| given_up.to_set().contains(
        handle,
    ) implies steps.0.dom().contains(handle) by {
        let j = choose|j: int| 0 <= j < given_up.len() && given_up[j] == handle;
        assert(steps.0.dom().contains(given_up[j]));
    }
}

/// Gives up sockets that hold one socket of the interface each, which nobody else holds.
fn release_members(sockets: Vec<NamedTcpSocket>, nic: &mut NetworkInterface)
    requires
        handles_of(sockets@).no_duplicates(),
        forall|i: int|
            0 <= i < sockets@.len() ==> (#[trigger] sockets@[i]).tcp@.held == Held::Handle(
                handles_of(sockets@)[i],
            ),
        forall|i: int|
            0 <= i < sockets@.len() ==> {
                &&& old(nic).tcp().dom().contains(#[trigger] handles_of(sockets@)[i])
                &&& old(nic).tcp()[handles_of(sockets@)[i]].refs > 0
            },
    ensures
        final(nic).tcp() == crate::smol::released(
            old(nic).tcp(),
            handles_of(sockets@).to_set(),
        ),
        final(nic).same_but_sockets(*old(nic)),
{
    let mut handles: Vec<HandleWrapper> = Vec::new();
    let ghost expected = handles_of(sockets@);
    for member in iter: sockets
        invariant
            iter.seq() == sockets@,
            expected == handles_of(sockets@),
            handles@.len() == iter.index(),
            forall|i: int|
                0 <= i < sockets@.len() ==> (#[trigger] sockets@[i]).tcp@.held == Held::Handle(
                    expected[i],
                ),
            forall|j: int| 0 <= j < handles@.len() ==> (#[trigger] handles@[j]).0 == expected[j],
    {
        if let Inner::Handle(handle) = member.tcp.inner {
            handles.push(handle);
        }
    }
    assert(handles@.map_values(|handle: HandleWrapper| handle.0) =~= expected);
    release_all(handles, nic);
}

/// A socket is live whose one socket of the interface is held.
proof fn lemma_holder_live(
    socket: TcpSocketView,
    handle: SocketHandle,
    before: Map<SocketHandle, TcpModel>,
    after: Map<SocketHandle, TcpModel>,
)
    requires
        socket.held == Held::Handle(handle),
        before.dom().contains(handle),
        before[handle].refs > 0,
        after.dom().contains(handle),
        after[handle].refs == before[handle].refs,
    ensures
        socket.live(after),
        forall|other: SocketHandle| #[trigger]
            socket.held.handles().to_set().contains(other) <==> other == handle,
{
    assert(socket.held.handles() == seq![handle]);
    assert(seq![handle][0] == handle);
}

/// The backlog holds what nobody else does, after one of its sockets was replaced.
proof fn lemma_backlog_kept(
    backlog: AsyncTcpBacklog,
    map: SocketMap,
    nic: NetworkInterface,
    handles: Seq<SocketHandle>,
    new: SocketHandle,
    index: int,
)
    requires
        0 <= index < handles.len(),
        handles.no_duplicates(),
        backlog.handles() == handles.update(index, new),
        forall|j: int| 0 <= j < handles.len() && j != index ==> #[trigger] handles[j] != new,
        forall|i: int|
            0 <= i < backlog.backlog@.len() ==> {
                &&& (#[trigger] backlog.backlog@[i]).tcp@.held == Held::Handle(backlog.handles()[i])
                &&& backlog.backlog@[i].tcp@.local == backlog.local
            },
        forall|i: int|
            0 <= i < handles.len() ==> {
                &&& nic.tcp().dom().contains(#[trigger] backlog.handles()[i])
                &&& nic.tcp()[backlog.handles()[i]].refs > 0
            },
        forall|id: int, handle: SocketHandle| #[trigger]
            crate::socket_map::held(map@, id).contains(handle) ==> handle == handles[index] || (
            !handles.contains(handle) && handle != new),
        handles[index] != new,
    ensures
        backlog.wf(map, nic),
{
    let now = backlog.handles();
    assert(now.no_duplicates());
    assert forall|id: int, handle: SocketHandle| #[trigger]
        crate::socket_map::held(map@, id).contains(handle) implies !now.contains(handle) by {
        if now.contains(handle) {
            let j = choose|j: int| 0 <= j < now.len() && now[j] == handle;
            if j != index {
                assert(handles[j] == handle);
                assert(handles.contains(handle));
            }
        }
    }
}

/// The connection that is accepted first is that of the first socket that is connected; there is
/// none only if no socket is.
pub proof fn law_first_connection_is_accepted(
    tcp: Map<SocketHandle, TcpModel>,
    handles: Seq<SocketHandle>,
)
    ensures
        match first_connected(tcp, handles) {
            Some(i) => {
                &&& 0 <= i < handles.len()
                &&& tcp[handles[i]].may_recv() && tcp[handles[i]].may_send()
                &&& forall|j: int| 0 <= j < i ==> !tcp[#[trigger] handles[j]].is_connected()
            },
            None => forall|j: int|
                0 <= j < handles.len() ==> !tcp[#[trigger] handles[j]].is_connected(),
        },
    decreases handles.len(),
{
    if handles.len() > 0 && !tcp[handles[0]].is_connected() {
        let rest = handles.skip(1);
        law_first_connection_is_accepted(tcp, rest);
        let end = match first_connected(tcp, rest) {
            Some(i) => i + 1,
            None => handles.len() as int,
        };
        assert forall|j: int| 0 <= j < end implies !tcp[#[trigger] handles[j]].is_connected() by {
            if j > 0 {
                assert(rest[j - 1] == handles[j]);
            }
        }
    }
}

/// A flag is told of a backlog exactly if it is told of one of its sockets.
pub proof fn law_backlog_tells_the_flags_of_all(
    sockets: Seq<NamedTcpSocket>,
    tcp: Map<SocketHandle, TcpModel>,
    mask: u32,
)
    ensures
        AsyncTcpBacklog::flags(sockets, tcp) & mask != 0 <==> exists|i: int|
            0 <= i < sockets.len() && (#[trigger] sockets[i]).tcp@.flags(tcp) & mask != 0,
    decreases sockets.len(),
{
    if sockets.len() == 0 {
        assert(0u32 & mask == 0) by (bit_vector);
    } else {
        let rest = sockets.drop_last();
        law_backlog_tells_the_flags_of_all(rest, tcp, mask);
        let (some, last) = (AsyncTcpBacklog::flags(rest, tcp), sockets.last().tcp@.flags(tcp));
        assert((some | last) & mask != 0 <==> some & mask != 0 || last & mask != 0) by (bit_vector);
        if some & mask != 0 {
            let i = choose|i: int|
                0 <= i < rest.len() && (#[trigger] rest[i]).tcp@.flags(tcp) & mask != 0;
            assert(sockets[i] == rest[i]);
        }
        if last & mask != 0 {
            assert(sockets[sockets.len() - 1].tcp@.flags(tcp) & mask != 0);
        }
        if exists|i: int|
            0 <= i < sockets.len() && (#[trigger] sockets[i]).tcp@.flags(tcp) & mask != 0 {
            let i = choose|i: int|
                0 <= i < sockets.len() && (#[trigger] sockets[i]).tcp@.flags(tcp) & mask != 0;
            if i < rest.len() {
                assert(rest[i] == sockets[i]);
            }
        }
    }
}

/// Exchanging sockets of the interface adds the new ones, all of them alike, lets go of those given
/// up once, and leaves the others as they are.
pub proof fn law_exchange_leaves_the_others_alone(
    before: Map<SocketHandle, TcpModel>,
    after: Map<SocketHandle, TcpModel>,
    given_up: Set<SocketHandle>,
    new: Seq<SocketHandle>,
    model: TcpModel,
    handle: SocketHandle,
)
    requires
        exchanged(before, after, given_up, new, model),
    ensures
        new.contains(handle) ==> !before.dom().contains(handle) && after.dom().contains(handle)
            && after[handle] == model,
        before.dom().contains(handle) && !given_up.contains(handle) ==> after.dom().contains(handle)
            && after[handle] == before[handle],
        before.dom().contains(handle) && given_up.contains(handle) ==> after.dom().contains(handle)
            && after[handle] == (TcpModel {
            refs: (before[handle].refs - 1) as nat,
            ..before[handle]
        }),
        !before.dom().contains(handle) && !new.contains(handle) ==> !after.dom().contains(handle),
{
    if new.contains(handle) {
        let i = choose|i: int| 0 <= i < new.len() && new[i] == handle;
        assert(!before.dom().contains(new[i]));
    }
}

/// Each reason for which a backlog fails has the kind that tells it, and what it gives up nobody
/// holds.
pub proof fn law_backlog_errors_tell_the_reason()
    ensures
        legacy_socket().kind == ErrorKind::Other,
        cannot_listen().kind == ErrorKind::AddrNotAvailable,
        none_ready().kind == ErrorKind::WouldBlock,
        abandoned().refs == 0,
        !abandoned().is_open(),
{
}

} // verus!
