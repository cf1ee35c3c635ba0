//! TCP sockets.
use vstd::prelude::*;

use smoltcp::socket::SocketHandle;
use std::task::Waker;

use crate::endpoint::{IpEndpoint, LocalEndpoint};
use crate::event::EventFlags;
use crate::io::{Error, ErrorKind, IoResult};
use crate::nic::{NetworkInterface, TcpStatus, TCP_BUFFER_SIZE};
use crate::poll::{Poll, PollSocketRaw, PollSocketsRaw, TcpPoll, WakeOn};
use crate::smol::{
    tcp_connect, tcp_hop_limit, tcp_listen, tcp_recv, tcp_register_recv_waker,
    tcp_register_send_waker, tcp_remote_endpoint, tcp_send_queue, tcp_send_slice,
    tcp_set_hop_limit, TcpModel,
};
use crate::socket::HandleWrapper;

verus! {

broadcast use vstd::map::group_map_axioms;

/// What a TCP socket is in the middle of.
#[derive(Debug, Clone, Copy, PartialEq, Eq, Structural)]
pub enum Action {
    /// Listening.
    Listening,
    /// Connecting.
    Connecting,
}

/// The sockets of the network interface that a TCP socket holds.
#[derive(Debug)]
pub enum Inner {
    /// A single one.
    Handle(HandleWrapper),
    /// Those of a listening socket, one for each connection that may come in.
    Backlog(Vec<HandleWrapper>),
}

/// Default keep alive interval in milliseconds.
pub const DEFAULT_KEEP_ALIVE_INTERVAL: u64 = 75000;

/// A TCP socket.
#[derive(Debug)]
pub struct AsyncTcpSocket {
    /// The sockets in the network interface.
    pub inner: Inner,
    /// The bound local endpoint.
    pub local: IpEndpoint,
    /// Whether writing is allowed.
    ///
    /// Shutting down waits for remaining packets, so a socket that could still be written to by
    /// the state of its connection may not allow it.
    pub allow_write: bool,
    /// Whether reading is allowed.
    ///
    /// Only the peer can end what is received. Shutting down inhibits reads by this.
    pub allow_read: bool,
    /// What the socket is in the middle of.
    pub in_progress: Option<Action>,
}

/// The sockets of the network interface that a TCP socket holds, by their handles.
pub ghost enum Held {
    Handle(SocketHandle),
    Backlog(Seq<SocketHandle>),
}

impl Held {
    /// The handles.
    pub open spec fn handles(self) -> Seq<SocketHandle> {
        match self {
            Held::Handle(handle) => seq![handle],
            Held::Backlog(handles) => handles,
        }
    }
}

/// What a TCP socket is.
pub ghost struct TcpSocketView {
    pub held: Held,
    pub local: IpEndpoint,
    pub allow_write: bool,
    pub allow_read: bool,
    pub in_progress: Option<Action>,
}

impl View for Inner {
    type V = Held;

    open spec fn view(&self) -> Held {
        match *self {
            Inner::Handle(handle) => Held::Handle(handle.0),
            Inner::Backlog(handles) => Held::Backlog(
                handles@.map_values(|handle: HandleWrapper| handle.0),
            ),
        }
    }
}

impl View for AsyncTcpSocket {
    type V = TcpSocketView;

    open spec fn view(&self) -> TcpSocketView {
        TcpSocketView {
            held: self.inner@,
            local: self.local,
            allow_write: self.allow_write,
            allow_read: self.allow_read,
            in_progress: self.in_progress,
        }
    }
}

/// The error of an operation that a listening socket does not have.
pub open spec fn listening() -> Error {
    Error { kind: ErrorKind::InvalidInput, msg: "this socket is listening" }
}

/// The error of an operation that only a listening socket has.
pub open spec fn not_listening() -> Error {
    Error { kind: ErrorKind::NotListening, msg: "this socket is not listening" }
}

/// The error of a transfer over a connection that is closed.
pub open spec fn read_side_closed() -> Error {
    Error { kind: ErrorKind::NotConnected, msg: "the sockets read side is closed" }
}

/// The error of writing nothing, whose success could not be told from a socket that takes nothing.
pub open spec fn zero_write() -> Error {
    Error { kind: ErrorKind::WriteZero, msg: "tried to write 0 bytes" }
}

/// The error of connecting to the remote endpoint that the socket is connected to.
pub open spec fn already_connecting() -> Error {
    Error { kind: ErrorKind::AlreadyExists, msg: "already connecting to another remote" }
}

/// The error of connecting a socket that is in use for another connection.
pub open spec fn already_in_use() -> Error {
    Error { kind: ErrorKind::InUse, msg: "already in use" }
}

/// The error of connecting to a remote endpoint that does not allow it.
pub open spec fn invalid_remote() -> Error {
    Error { kind: ErrorKind::InvalidData, msg: "invalid remote" }
}

/// The error of listening on a socket that listens.
pub open spec fn already_listening() -> Error {
    Error { kind: ErrorKind::InvalidInput, msg: "already listening" }
}

/// The error of listening on a socket that is open.
pub open spec fn already_open() -> Error {
    Error { kind: ErrorKind::InvalidInput, msg: "already open" }
}

/// The error of waiting for a connection that does not come about.
pub open spec fn connection_refused() -> Error {
    Error { kind: ErrorKind::ConnectionRefused, msg: "connection refused" }
}

/// The error of a socket without a remote endpoint.
pub open spec fn no_endpoint() -> Error {
    Error { kind: ErrorKind::NotConnected, msg: "no endpoint available" }
}

/// Waiting for a connection to come in, for as long as the socket is open.
#[derive(Debug, Clone, Copy)]
pub struct IncomingConnection;

/// Waiting for a connection to be established.
#[derive(Debug, Clone, Copy)]
pub struct Connected;

/// Waiting for something to read.
#[derive(Debug, Clone, Copy)]
pub struct Readable;

/// Waiting for writing to be possible.
#[derive(Debug, Clone, Copy)]
pub struct Writable;

impl TcpPoll for IncomingConnection {
    open spec fn outcome(&self, status: TcpStatus) -> Poll<IoResult<()>> {
        if status.may_recv && status.may_send {
            Poll::Ready(Ok(()))
        } else if !status.is_open {
            Poll::Ready(Err(connection_refused()))
        } else {
            Poll::Pending(WakeOn::Send)
        }
    }

    fn poll(&self, status: TcpStatus) -> (outcome: Poll<IoResult<()>>) {
        if status.may_recv && status.may_send {
            Poll::Ready(Ok(()))
        } else if !status.is_open {
            Poll::Ready(Err(Error::new(ErrorKind::ConnectionRefused, "connection refused")))
        } else {
            Poll::Pending(WakeOn::Send)
        }
    }
}

impl TcpPoll for Connected {
    open spec fn outcome(&self, status: TcpStatus) -> Poll<IoResult<()>> {
        if status.may_recv && status.may_send {
            Poll::Ready(Ok(()))
        } else if !status.is_active {
            Poll::Ready(Err(connection_refused()))
        } else {
            Poll::Pending(WakeOn::Send)
        }
    }

    fn poll(&self, status: TcpStatus) -> (outcome: Poll<IoResult<()>>) {
        if status.may_recv && status.may_send {
            Poll::Ready(Ok(()))
        } else if !status.is_active {
            Poll::Ready(Err(Error::new(ErrorKind::ConnectionRefused, "connection refused")))
        } else {
            Poll::Pending(WakeOn::Send)
        }
    }
}

impl TcpPoll for Readable {
    open spec fn outcome(&self, status: TcpStatus) -> Poll<IoResult<()>> {
        if status.may_recv {
            Poll::Ready(Ok(()))
        } else if !status.is_active {
            Poll::Ready(Err(Error { kind: ErrorKind::NotConnected, msg: "not connected" }))
        } else {
            Poll::Pending(WakeOn::Recv)
        }
    }

    fn poll(&self, status: TcpStatus) -> (outcome: Poll<IoResult<()>>) {
        if status.may_recv {
            Poll::Ready(Ok(()))
        } else if !status.is_active {
            Poll::Ready(Err(Error::new(ErrorKind::NotConnected, "not connected")))
        } else {
            Poll::Pending(WakeOn::Recv)
        }
    }
}

impl TcpPoll for Writable {
    open spec fn outcome(&self, status: TcpStatus) -> Poll<IoResult<()>> {
        if status.may_send {
            Poll::Ready(Ok(()))
        } else if !status.is_active {
            Poll::Ready(Err(Error { kind: ErrorKind::NotConnected, msg: "not connected" }))
        } else {
            Poll::Pending(WakeOn::Send)
        }
    }

    fn poll(&self, status: TcpStatus) -> (outcome: Poll<IoResult<()>>) {
        if status.may_send {
            Poll::Ready(Ok(()))
        } else if !status.is_active {
            Poll::Ready(Err(Error::new(ErrorKind::NotConnected, "not connected")))
        } else {
            Poll::Pending(WakeOn::Send)
        }
    }
}

impl Inner {
    /// The one socket that is held.
    pub fn as_handle(&self) -> (handle: IoResult<&HandleWrapper>)
        ensures
            match *self {
                Inner::Handle(inner) => handle matches Ok(handle) && *handle == inner,
                Inner::Backlog(_) => handle == Err::<&HandleWrapper, Error>(listening()),
            },
    {
        match self {
            Inner::Handle(handle) => Ok(handle),
            Inner::Backlog(_) => Err(
                Error::new(ErrorKind::InvalidInput, "this socket is listening"),
            ),
        }
    }

    /// The sockets of a listening socket.
    pub fn as_backlog_ref(&self) -> (backlog: IoResult<&Vec<HandleWrapper>>)
        ensures
            match *self {
                Inner::Backlog(inner) => backlog matches Ok(backlog) && *backlog == inner,
                Inner::Handle(_) => backlog == Err::<&Vec<HandleWrapper>, Error>(not_listening()),
            },
    {
        match self {
            Inner::Backlog(backlog) => Ok(backlog),
            Inner::Handle(_) => Err(
                Error::new(ErrorKind::NotListening, "this socket is not listening"),
            ),
        }
    }

    /// The sockets of a listening socket, to be changed.
    pub fn as_backlog_mut(&mut self) -> (backlog: IoResult<&mut Vec<HandleWrapper>>)
        ensures
            match backlog {
                Ok(backlog) => {
                    &&& *old(self) == Inner::Backlog(*backlog)
                    &&& *final(self) == Inner::Backlog(*final(backlog))
                },
                Err(error) => {
                    &&& *old(self) is Handle
                    &&& error == not_listening()
                    &&& *final(self) == *old(self)
                },
            },
    {
        match self {
            Inner::Backlog(backlog) => Ok(backlog),
            Inner::Handle(_) => Err(
                Error::new(ErrorKind::NotListening, "this socket is not listening"),
            ),
        }
    }
}

/// The one of some sockets that is connected and comes last.
pub open spec fn last_connected(
    tcp: Map<SocketHandle, TcpModel>,
    handles: Seq<SocketHandle>,
) -> Option<int>
    decreases handles.len(),
{
    if handles.len() == 0 {
        None
    } else if tcp[handles.last()].is_connected() {
        Some(handles.len() - 1)
    } else {
        last_connected(tcp, handles.drop_last())
    }
}

/// The connected one that comes last is connected, and none after it is.
pub proof fn lemma_last_connected(tcp: Map<SocketHandle, TcpModel>, handles: Seq<SocketHandle>)
    ensures
        match last_connected(tcp, handles) {
            Some(i) => {
                &&& 0 <= i < handles.len()
                &&& tcp[handles[i]].is_connected()
                &&& forall|j: int|
                    i < j < handles.len() ==> !tcp[#[trigger] handles[j]].is_connected()
            },
            None => forall|j: int|
                0 <= j < handles.len() ==> !tcp[#[trigger] handles[j]].is_connected(),
        },
    decreases handles.len(),
{
    if handles.len() > 0 && !tcp[handles.last()].is_connected() {
        let rest = handles.drop_last();
        lemma_last_connected(tcp, rest);
        assert forall|j: int| 0 <= j < rest.len() implies handles[j] == #[trigger] rest[j] by {}
        match last_connected(tcp, rest) {
            Some(i) => {
                assert forall|j: int| i < j < handles.len() implies !tcp[
                    #[trigger] handles[j]
                ].is_connected() by {
                    if j < rest.len() {
                        assert(rest[j] == handles[j]);
                    }
                }
            },
            None => {
                assert forall|j: int| 0 <= j < handles.len() implies !tcp[
                    #[trigger] handles[j]
                ].is_connected() by {
                    if j < rest.len() {
                        assert(rest[j] == handles[j]);
                    }
                }
            },
        }
    }
}

impl TcpSocketView {
    /// A newly bound socket.
    pub open spec fn fresh(handle: SocketHandle, local: IpEndpoint) -> TcpSocketView {
        TcpSocketView {
            held: Held::Handle(handle),
            local,
            allow_write: true,
            allow_read: true,
            in_progress: None,
        }
    }

    /// The sockets that are held are different ones, and each is held at least once.
    pub open spec fn live(self, tcp: Map<SocketHandle, TcpModel>) -> bool {
        &&& self.held.handles().no_duplicates()
        &&& forall|i: int|
            0 <= i < self.held.handles().len() ==> {
                &&& tcp.dom().contains(#[trigger] self.held.handles()[i])
                &&& tcp[self.held.handles()[i]].refs > 0
            }
    }

    /// What can be done with the socket, as event flags.
    pub open spec fn flags(self, tcp: Map<SocketHandle, TcpModel>) -> u32 {
        match self.held {
            Held::Handle(handle) => {
                (if tcp[handle].can_send() {
                    EventFlags::WRITABLE
                } else if !self.allow_write || !tcp[handle].may_send() {
                    EventFlags::WCLOSED
                } else {
                    EventFlags::NONE
                }) | (if tcp[handle].can_recv() {
                    EventFlags::READABLE
                } else if !self.allow_read || !tcp[handle].may_recv() {
                    EventFlags::RCLOSED
                } else {
                    EventFlags::NONE
                })
            },
            Held::Backlog(handles) => {
                if exists|i: int| 0 <= i < handles.len() && tcp[#[trigger] handles[i]].is_active() {
                    EventFlags::WRITABLE
                } else {
                    EventFlags::NONE
                }
            },
        }
    }

    /// What comes of reading into a buffer of the given length.
    pub open spec fn reads(self, tcp: Map<SocketHandle, TcpModel>, len: int) -> IoResult<
        Option<usize>,
    > {
        if !self.allow_read {
            Err(read_side_closed())
        } else {
            match self.held {
                Held::Backlog(_) => Err(listening()),
                Held::Handle(handle) => {
                    if tcp[handle].can_recv() {
                        Ok(Some(tcp[handle].recv_len(len) as usize))
                    } else if !tcp[handle].may_recv() {
                        Err(read_side_closed())
                    } else {
                        Ok(None)
                    }
                },
            }
        }
    }

    /// What comes of writing from a buffer of the given length.
    pub open spec fn writes(self, tcp: Map<SocketHandle, TcpModel>, len: int) -> IoResult<
        Option<usize>,
    > {
        if !self.allow_write {
            Err(read_side_closed())
        } else if len == 0 {
            Err(zero_write())
        } else {
            match self.held {
                Held::Backlog(_) => Err(listening()),
                Held::Handle(handle) => {
                    if tcp[handle].can_send() {
                        Ok(Some(tcp[handle].send_len(len) as usize))
                    } else if !tcp[handle].may_send() {
                        Err(read_side_closed())
                    } else {
                        Ok(None)
                    }
                },
            }
        }
    }

    /// Connecting takes a port that is handed out: the socket is bound to none, and is not in use.
    pub open spec fn draws_port(self, tcp: Map<SocketHandle, TcpModel>) -> bool {
        &&& self.held matches Held::Handle(handle)
        &&& !tcp[handle].is_active()
        &&& self.local.port == 0
    }

    /// The local endpoint that a connection is started from: the bound one, with the port that is
    /// handed out next if none was bound.
    pub open spec fn connects_from(self, ports: LocalEndpoint) -> IpEndpoint {
        if self.local.port == 0 {
            IpEndpoint { addr: self.local.addr, port: ports.port() }
        } else {
            self.local
        }
    }

    /// The error of connecting to a remote endpoint, or none if it can be done.
    pub open spec fn connect_error(
        self,
        tcp: Map<SocketHandle, TcpModel>,
        remote: IpEndpoint,
    ) -> Option<Error> {
        match self.held {
            Held::Backlog(_) => Some(listening()),
            Held::Handle(handle) => {
                if tcp[handle].is_active() {
                    if tcp[handle].remote.is_specified() && tcp[handle].remote == remote {
                        Some(already_connecting())
                    } else {
                        Some(already_in_use())
                    }
                } else if !tcp[handle].is_open() && remote.is_specified() {
                    None
                } else {
                    Some(invalid_remote())
                }
            },
        }
    }

    /// The error of making the socket listen, or none if it can be done.
    pub open spec fn listen_error(self, tcp: Map<SocketHandle, TcpModel>) -> Option<Error> {
        match self.held {
            Held::Backlog(_) => Some(already_listening()),
            Held::Handle(handle) => {
                if tcp[handle].is_open() {
                    Some(already_open())
                } else {
                    None
                }
            },
        }
    }

    /// The remote endpoint of the connection.
    pub open spec fn remote(self, tcp: Map<SocketHandle, TcpModel>) -> IoResult<IpEndpoint> {
        match self.held {
            Held::Backlog(_) => Err(listening()),
            Held::Handle(handle) => {
                if tcp[handle].is_active() {
                    Ok(tcp[handle].remote)
                } else {
                    Err(no_endpoint())
                }
            },
        }
    }

    /// Whether something that was written is still to be sent.
    pub open spec fn has_remaining_packets(self, tcp: Map<SocketHandle, TcpModel>) -> IoResult<
        bool,
    > {
        match self.held {
            Held::Backlog(_) => Err(listening()),
            Held::Handle(handle) => Ok(tcp[handle].may_send() && tcp[handle].tx.len() > 0),
        }
    }
}

/// A socket of the interface that was made to stand beside another one: its hop limit is the same.
pub open spec fn duplicated(tcp: TcpModel) -> TcpModel {
    TcpModel { hop_limit: tcp.hop_limit, ..TcpModel::fresh(TCP_BUFFER_SIZE as nat) }
}

impl AsyncTcpSocket {
    /// A socket that is bound to a local endpoint, with a new socket of the interface.
    pub fn new(local: IpEndpoint, nic: &mut NetworkInterface) -> (socket: Self)
        requires
            old(nic).wf(),
        ensures
            socket@.held is Handle,
            socket@ == TcpSocketView::fresh(socket@.held->Handle_0, local),
            !old(nic).tcp().dom().contains(socket@.held->Handle_0),
            final(nic).tcp() == old(nic).tcp().insert(
                socket@.held->Handle_0,
                TcpModel::fresh(TCP_BUFFER_SIZE as nat),
            ),
            final(nic).same_but_sockets(*old(nic)),
    {
        let handle = nic.create_tcp_handle();
        AsyncTcpSocket {
            inner: Inner::Handle(handle),
            local,
            allow_read: true,
            allow_write: true,
            in_progress: None,
        }
    }

    /// Gives up the sockets that are held.
    pub fn release(self, nic: &mut NetworkInterface)
        requires
            self@.live(old(nic).tcp()),
        ensures
            final(nic).tcp() == crate::smol::released(
                old(nic).tcp(),
                self@.held.handles().to_set(),
            ),
            final(nic).same_but_sockets(*old(nic)),
    {
        match self.inner {
            Inner::Handle(handle) => {
                assert(self@.held.handles()[0] == handle.0);
                handle.release(nic);
                assert(nic.tcp() =~= crate::smol::released(
                    old(nic).tcp(),
                    self@.held.handles().to_set(),
                ));
            },
            Inner::Backlog(backlog) => {
                release_all(backlog, nic);
            },
        }
    }

    /// Registers a waker to be woken when the socket can be written to.
    pub fn register_send_waker(&self, waker: &Waker, nic: &mut NetworkInterface)
        requires
            self@.live(old(nic).tcp()),
        ensures
            crate::smol::wakers_registered(
                old(nic).tcp(),
                final(nic).tcp(),
                *waker,
                self@.held.handles().to_set(),
                Set::empty(),
            ),
            final(nic).same_but_sockets(*old(nic)),
    {
        match &self.inner {
            Inner::Handle(handle) => {
                assert(self@.held.handles()[0] == handle.0);
                tcp_register_send_waker(&mut nic.socket_set, handle.inner(), waker);
            },
            Inner::Backlog(backlog) => {
                let mut i: usize = 0;
                let ghost handles = self@.held.handles();
                assert(handles.take(0).to_set() =~= Set::empty());
                while i < backlog.len()
                    invariant
                        i <= backlog@.len(),
                        handles == self@.held.handles(),
                        handles == backlog@.map_values(|handle: HandleWrapper| handle.0),
                        self@.live(old(nic).tcp()),
                        crate::smol::wakers_registered(
                            old(nic).tcp(),
                            nic.tcp(),
                            *waker,
                            handles.take(i as int).to_set(),
                            Set::empty(),
                        ),
                        nic.same_but_sockets(*old(nic)),
                    decreases backlog@.len() - i,
                {
                    assert(handles[i as int] == backlog@[i as int].0);
                    tcp_register_send_waker(&mut nic.socket_set, backlog[i].inner(), waker);
                    proof {
                        lemma_take_next(handles, i as int);
                    }
                    i += 1;
                }
                assert(handles.take(i as int) =~= handles);
            },
        }
    }

    /// Registers a waker to be woken when there is something to read.
    pub fn register_recv_waker(&self, waker: &Waker, nic: &mut NetworkInterface)
        requires
            self@.live(old(nic).tcp()),
        ensures
            crate::smol::wakers_registered(
                old(nic).tcp(),
                final(nic).tcp(),
                *waker,
                Set::empty(),
                self@.held.handles().to_set(),
            ),
            final(nic).same_but_sockets(*old(nic)),
    {
        match &self.inner {
            Inner::Handle(handle) => {
                assert(self@.held.handles()[0] == handle.0);
                tcp_register_recv_waker(&mut nic.socket_set, handle.inner(), waker);
            },
            Inner::Backlog(backlog) => {
                let mut i: usize = 0;
                let ghost handles = self@.held.handles();
                assert(handles.take(0).to_set() =~= Set::empty());
                while i < backlog.len()
                    invariant
                        i <= backlog@.len(),
                        handles == self@.held.handles(),
                        handles == backlog@.map_values(|handle: HandleWrapper| handle.0),
                        self@.live(old(nic).tcp()),
                        crate::smol::wakers_registered(
                            old(nic).tcp(),
                            nic.tcp(),
                            *waker,
                            Set::empty(),
                            handles.take(i as int).to_set(),
                        ),
                        nic.same_but_sockets(*old(nic)),
                    decreases backlog@.len() - i,
                {
                    assert(handles[i as int] == backlog@[i as int].0);
                    tcp_register_recv_waker(&mut nic.socket_set, backlog[i].inner(), waker);
                    proof {
                        lemma_take_next(handles, i as int);
                    }
                    i += 1;
                }
                assert(handles.take(i as int) =~= handles);
            },
        }
    }

    /// What can be done with the socket, as event flags.
    ///
    /// A listening socket counts as writable as soon as a connection is coming in.
    pub fn get_event_flags(&self, nic: &mut NetworkInterface) -> (flags: EventFlags)
        requires
            self@.live(old(nic).tcp()),
        ensures
            flags.0 == self@.flags(old(nic).tcp()),
            final(nic).tcp() == old(nic).tcp(),
            final(nic).same_but_sockets(*old(nic)),
    {
        match &self.inner {
            Inner::Handle(handle) => {
                assert(self@.held.handles()[0] == handle.0);
                let status = nic.status(handle.inner());
                let send: u32 = if status.can_send {
                    EventFlags::WRITABLE
                } else if !self.allow_write || !status.may_send {
                    EventFlags::WCLOSED
                } else {
                    EventFlags::NONE
                };
                let recv: u32 = if status.can_recv {
                    EventFlags::READABLE
                } else if !self.allow_read || !status.may_recv {
                    EventFlags::RCLOSED
                } else {
                    EventFlags::NONE
                };
                EventFlags(send | recv)
            },
            Inner::Backlog(backlog) => {
                let mut i: usize = 0;
                let ghost handles = self@.held.handles();
                while i < backlog.len()
                    invariant
                        i <= backlog@.len(),
                        self@.held == Held::Backlog(handles),
                        handles == backlog@.map_values(|handle: HandleWrapper| handle.0),
                        self@.live(old(nic).tcp()),
                        nic.tcp() == old(nic).tcp(),
                        nic.same_but_sockets(*old(nic)),
                        forall|j: int|
                            0 <= j < i ==> !nic.tcp()[#[trigger] handles[j]].is_active(),
                    decreases backlog@.len() - i,
                {
                    assert(handles[i as int] == backlog@[i as int].0);
                    let status = nic.status(backlog[i].inner());
                    if status.is_active {
                        return EventFlags(EventFlags::WRITABLE);
                    }
                    i += 1;
                }
                EventFlags(EventFlags::NONE)
            },
        }
    }

    /// Tells whether the socket may be closed for good: nothing is left to be sent.
    pub fn may_close(&self, nic: &mut NetworkInterface) -> (may_close: bool)
        requires
            self@.live(old(nic).tcp()),
        ensures
            may_close == (self@.has_remaining_packets(old(nic).tcp()) != Ok::<bool, Error>(true)),
            final(nic).tcp() == old(nic).tcp(),
            final(nic).same_but_sockets(*old(nic)),
    {
        match self.has_remaining_packets(nic) {
            Ok(remaining) => !remaining,
            Err(_) => true,
        }
    }

    /// Closes the socket.
    pub fn close(&mut self)
        ensures
            final(self)@ == (TcpSocketView { allow_write: false, allow_read: false, ..old(self)@ }),
    {
        self.rclose();
        self.wclose();
    }

    /// Ends writing.
    pub fn wclose(&mut self)
        ensures
            final(self)@ == (TcpSocketView { allow_write: false, ..old(self)@ }),
    {
        self.allow_write = false;
    }

    /// Ends reading.
    pub fn rclose(&mut self)
        ensures
            final(self)@ == (TcpSocketView { allow_read: false, ..old(self)@ }),
    {
        self.allow_read = false;
    }

    /// Reads what was received into a buffer, as far as it lies in one piece, and takes it out
    /// unless it is only looked at.
    ///
    /// Gives how much was read, or nothing if there is nothing to read yet. A socket that could be
    /// read from wakes the interface.
    pub fn read(&self, nic: &mut NetworkInterface, buffer: &mut [u8], peek: bool) -> (result:
        IoResult<Option<usize>>)
        requires
            self@.live(old(nic).tcp()),
        ensures
            result == self@.reads(old(nic).tcp(), old(buffer)@.len() as int),
            match result {
                Ok(Some(n)) => {
                    let handle = self@.held->Handle_0;
                    let tcp = old(nic).tcp()[handle];
                    &&& n <= old(buffer)@.len()
                    &&& n <= tcp.rx.len()
                    &&& n == 0 ==> old(buffer)@.len() == 0
                    &&& final(buffer)@ == tcp.rx.take(n as int) + old(buffer)@.skip(n as int)
                    &&& final(nic).tcp() == (if peek {
                        old(nic).tcp()
                    } else {
                        old(nic).tcp().insert(handle, tcp.received(n as int))
                    })
                },
                _ => final(buffer)@ == old(buffer)@ && final(nic).tcp() == old(nic).tcp(),
            },
            final(nic).woken == (old(nic).woken || self@.allow_read && self@.held is Handle),
            final(nic).prev_cidr == old(nic).prev_cidr,
            final(nic).wf() == old(nic).wf(),
    {
        if !self.allow_read {
            return Err(Error::new(ErrorKind::NotConnected, "the sockets read side is closed"));
        }
        let handle = self.inner.as_handle()?.inner();
        assert(self@.held.handles()[0] == handle);
        let status = nic.status(handle);
        let result = if status.can_recv {
            match tcp_recv(&mut nic.socket_set, handle, buffer, peek) {
                Ok(n) => Ok(Some(n)),
                Err(_) => Err(
                    Error::new(ErrorKind::NotConnected, "the sockets read side is closed"),
                ),
            }
        } else if !status.may_recv {
            Err(Error::new(ErrorKind::NotConnected, "the sockets read side is closed"))
        } else {
            Ok(None)
        };
        assert(old(nic).tcp().insert(handle, old(nic).tcp()[handle]) =~= old(nic).tcp());
        nic.wake();
        result
    }

    /// Hands octets over to be sent, as far as there is room for them.
    ///
    /// Gives how many were taken, or nothing if nothing can be taken yet. Writing nothing is
    /// refused. A socket that could be written to wakes the interface.
    pub fn write(&self, nic: &mut NetworkInterface, buffer: &[u8]) -> (result: IoResult<
        Option<usize>,
    >)
        requires
            self@.live(old(nic).tcp()),
        ensures
            result == self@.writes(old(nic).tcp(), buffer@.len() as int),
            final(nic).tcp() == (match result {
                Ok(Some(n)) => {
                    let handle = self@.held->Handle_0;
                    old(nic).tcp().insert(
                        handle,
                        old(nic).tcp()[handle].sending(buffer@.take(n as int)),
                    )
                },
                _ => old(nic).tcp(),
            }),
            final(nic).woken == (old(nic).woken || self@.allow_write && buffer@.len() > 0
                && self@.held is Handle),
            final(nic).prev_cidr == old(nic).prev_cidr,
            final(nic).wf() == old(nic).wf(),
    {
        if !self.allow_write {
            return Err(Error::new(ErrorKind::NotConnected, "the sockets read side is closed"));
        }
        if buffer.len() == 0 {
            return Err(Error::new(ErrorKind::WriteZero, "tried to write 0 bytes"));
        }
        let handle = self.inner.as_handle()?.inner();
        assert(self@.held.handles()[0] == handle);
        let status = nic.status(handle);
        let result = if status.can_send {
            match tcp_send_slice(&mut nic.socket_set, handle, buffer) {
                Ok(n) => Ok(Some(n)),
                Err(_) => Err(
                    Error::new(ErrorKind::NotConnected, "the sockets read side is closed"),
                ),
            }
        } else if !status.may_send {
            Err(Error::new(ErrorKind::NotConnected, "the sockets read side is closed"))
        } else {
            Ok(None)
        };
        nic.wake();
        result
    }

    /// Takes the connected socket that comes last out of the backlog, and puts a new listening one
    /// into it instead.
    pub fn accept(&mut self, nic: &mut NetworkInterface) -> (result: IoResult<
        Option<AsyncTcpSocket>,
    >)
        requires
            old(self)@.live(old(nic).tcp()),
            old(nic).wf(),
        ensures
            match (old(self)@.held, result) {
                (Held::Handle(_), Err(error)) => {
                    &&& error == not_listening()
                    &&& final(self)@ == old(self)@
                    &&& final(nic).tcp() == old(nic).tcp()
                },
                (Held::Backlog(handles), Ok(None)) => {
                    &&& last_connected(old(nic).tcp(), handles) is None
                    &&& final(self)@ == old(self)@
                    &&& final(nic).tcp() == old(nic).tcp()
                },
                (Held::Backlog(handles), Ok(Some(socket))) => {
                    let tcp = old(nic).tcp();
                    let i = last_connected(tcp, handles)->0;
                    let new = (final(self)@.held->Backlog_0).last();
                    &&& last_connected(tcp, handles) is Some
                    &&& socket@ == TcpSocketView::fresh(handles[i], old(self)@.local)
                    &&& !tcp.dom().contains(new)
                    &&& final(self)@ == TcpSocketView {
                        held: Held::Backlog(handles.remove(i).push(new)),
                        ..old(self)@
                    }
                    &&& final(nic).tcp() == tcp.insert(
                        new,
                        duplicated(tcp[handles[i]]).told_to_listen(old(self)@.local),
                    )
                },
                _ => false,
            },
            final(nic).same_but_sockets(*old(nic)),
    {
        let local = self.local;
        let ghost before = self@;
        let ghost tcp = nic.tcp();
        let backlog = match self.inner.as_backlog_mut() {
            Ok(backlog) => backlog,
            Err(error) => {
                return Err(error);
            },
        };
        let ghost wrappers = backlog@;
        let ghost handles = before.held->Backlog_0;
        assert(handles == wrappers.map_values(|handle: HandleWrapper| handle.0));
        let mut index: Option<usize> = None;
        let mut i: usize = 0;
        while i < backlog.len()
            invariant
                i <= backlog@.len(),
                backlog@ == wrappers,
                before.held == Held::Backlog(handles),
                handles == wrappers.map_values(|handle: HandleWrapper| handle.0),
                before.live(tcp),
                nic.tcp() == tcp,
                nic.same_but_sockets(*old(nic)),
                match index {
                    Some(index) => index < i && last_connected(tcp, handles.take(i as int)) == Some(
                        index as int,
                    ),
                    None => last_connected(tcp, handles.take(i as int)) is None,
                },
            decreases backlog@.len() - i,
        {
            assert(handles[i as int] == backlog@[i as int].0);
            let status = nic.status(backlog[i].inner());
            if status.may_recv && status.may_send {
                index = Some(i);
            }
            assert(handles.take(i + 1).drop_last() =~= handles.take(i as int));
            i += 1;
        }
        assert(handles.take(i as int) =~= handles);
        match index {
            Some(index) => {
                let handle = backlog.remove(index);
                assert(handles[index as int] == handle.0);
                let new = Self::duplicate_handle(&handle, nic);
                let _ = tcp_listen(&mut nic.socket_set, new.inner(), local);
                assert(nic.tcp() =~= tcp.insert(
                    new.0,
                    duplicated(tcp[handle.0]).told_to_listen(local),
                ));
                let ghost added = new.0;
                backlog.push(new);
                assert(backlog@.map_values(|handle: HandleWrapper| handle.0) =~= handles.remove(
                    index as int,
                ).push(added));
                Ok(
                    Some(
                        AsyncTcpSocket {
                            inner: Inner::Handle(handle),
                            local,
                            allow_write: true,
                            allow_read: true,
                            in_progress: None,
                        },
                    ),
                )
            },
            None => Ok(None),
        }
    }

    /// Sets the hop limit of what is sent; none for the default one.
    pub fn set_hop_limit(&self, nic: &mut NetworkInterface, hop_limit: Option<u8>) -> (result:
        IoResult<()>)
        requires
            self@.live(old(nic).tcp()),
            self@.held is Handle ==> hop_limit != Some(0u8),
        ensures
            match self@.held {
                Held::Handle(handle) => {
                    &&& result == Ok::<(), Error>(())
                    &&& final(nic).tcp() == old(nic).tcp().insert(
                        handle,
                        TcpModel { hop_limit, ..old(nic).tcp()[handle] },
                    )
                    &&& final(nic).woken
                },
                Held::Backlog(_) => {
                    &&& result == Err::<(), Error>(listening())
                    &&& final(nic).tcp() == old(nic).tcp()
                    &&& final(nic).woken == old(nic).woken
                },
            },
            final(nic).prev_cidr == old(nic).prev_cidr,
            final(nic).wf() == old(nic).wf(),
    {
        let handle = self.inner.as_handle()?.inner();
        assert(self@.held.handles()[0] == handle);
        tcp_set_hop_limit(&mut nic.socket_set, handle, hop_limit);
        nic.wake();
        Ok(())
    }

    /// The hop limit of what is sent; none if it is the default one.
    pub fn hop_limit(&self, nic: &mut NetworkInterface) -> (hop_limit: IoResult<Option<u8>>)
        requires
            self@.live(old(nic).tcp()),
        ensures
            hop_limit == (match self@.held {
                Held::Handle(handle) => Ok(old(nic).tcp()[handle].hop_limit),
                Held::Backlog(_) => Err(listening()),
            }),
            final(nic).tcp() == old(nic).tcp(),
            final(nic).same_but_sockets(*old(nic)),
    {
        let handle = self.inner.as_handle()?.inner();
        assert(self@.held.handles()[0] == handle);
        Ok(tcp_hop_limit(&mut nic.socket_set, handle))
    }

    /// The bound local endpoint. A port that was handed out for a connection is not part of it.
    pub fn local_addr(&self) -> (local: IpEndpoint)
        ensures
            local == self@.local,
    {
        self.local
    }

    /// Starts to connect to a remote endpoint, and gives what to wait for. The one who waits holds
    /// the socket of the interface too.
    ///
    /// A socket that is bound to port zero connects from a port that is handed out.
    pub fn connect(
        &self,
        nic: &mut NetworkInterface,
        remote: IpEndpoint,
        ports: &mut LocalEndpoint,
    ) -> (result: IoResult<PollSocketRaw<Connected>>)
        requires
            self@.live(old(nic).tcp()),
            self@.held matches Held::Handle(handle) ==> old(nic).tcp()[handle].refs < usize::MAX,
        ensures
            match (self@.connect_error(old(nic).tcp(), remote), result) {
                (None, Ok(raw)) => {
                    let handle = self@.held->Handle_0;
                    let tcp = old(nic).tcp()[handle];
                    &&& raw.handle.0 == handle
                    &&& final(nic).tcp() == old(nic).tcp().insert(
                        handle,
                        TcpModel {
                            refs: tcp.refs + 1,
                            ..tcp.told_to_connect(remote, self@.connects_from(*old(ports)))
                        },
                    )
                },
                (Some(expected), Err(error)) => {
                    &&& error == expected
                    &&& final(nic).tcp() == old(nic).tcp()
                },
                _ => false,
            },
            *final(ports) == (if self@.draws_port(old(nic).tcp()) {
                old(ports).advanced()
            } else {
                *old(ports)
            }),
            final(nic).woken == (old(nic).woken || self@.held is Handle),
            final(nic).prev_cidr == old(nic).prev_cidr,
            final(nic).wf() == old(nic).wf(),
    {
        let handle = self.inner.as_handle()?.inner();
        assert(self@.held.handles()[0] == handle);
        let is_active = nic.status(handle).is_active;
        let current = tcp_remote_endpoint(&mut nic.socket_set, handle);
        let result: IoResult<()> = if is_active && current.is_specified() && current == remote {
            Err(Error::new(ErrorKind::AlreadyExists, "already connecting to another remote"))
        } else if is_active {
            Err(Error::new(ErrorKind::InUse, "already in use"))
        } else {
            let local = if self.local.port == 0 {
                IpEndpoint { addr: self.local.addr, port: ports.local_endpoint() }
            } else {
                self.local
            };
            match tcp_connect(&mut nic.socket_set, handle, remote, local) {
                Ok(()) => Ok(()),
                Err(_) => Err(Error::new(ErrorKind::InvalidData, "invalid remote")),
            }
        };
        nic.wake();
        assert(old(nic).tcp().insert(handle, old(nic).tcp()[handle]) =~= old(nic).tcp());
        result?;
        let raw = self.poll_connected(nic);
        assert(nic.tcp() =~= old(nic).tcp().insert(
            handle,
            TcpModel {
                refs: old(nic).tcp()[handle].refs + 1,
                ..old(nic).tcp()[handle].told_to_connect(remote, self@.connects_from(*old(ports)))
            },
        ));
        raw
    }

    /// Makes the socket listen, with as many sockets of the interface as connections may come in
    /// at a time. The socket of the interface that was held is given up.
    pub fn listen(&mut self, nic: &mut NetworkInterface, backlog: usize) -> (result: IoResult<()>)
        requires
            old(self)@.live(old(nic).tcp()),
            old(nic).wf(),
        ensures
            match (old(self)@.listen_error(old(nic).tcp()), result) {
                (None, Ok(())) => {
                    let handle = old(self)@.held->Handle_0;
                    let tcp = old(nic).tcp();
                    let handles = final(self)@.held->Backlog_0;
                    &&& final(self)@ == TcpSocketView {
                        held: Held::Backlog(handles),
                        ..old(self)@
                    }
                    &&& handles.len() == backlog
                    &&& handles.no_duplicates()
                    &&& forall|i: int|
                        0 <= i < backlog ==> !tcp.dom().contains(#[trigger] handles[i])
                    &&& final(nic).tcp() == crate::smol::released(
                        tcp,
                        set![handle],
                    ).union_prefer_right(
                        Map::new(
                            |new: SocketHandle| handles.contains(new),
                            |new: SocketHandle|
                                duplicated(tcp[handle]).told_to_listen(old(self)@.local),
                        ),
                    )
                },
                (Some(expected), Err(error)) => {
                    &&& error == expected
                    &&& final(self)@ == old(self)@
                    &&& final(nic).tcp() == old(nic).tcp()
                },
                _ => false,
            },
            final(nic).same_but_sockets(*old(nic)),
    {
        let local = self.local;
        let ghost tcp = nic.tcp();
        let handle = match &self.inner {
            Inner::Backlog(_) => {
                return Err(Error::new(ErrorKind::InvalidInput, "already listening"));
            },
            Inner::Handle(handle) => handle.inner(),
        };
        assert(self@.held.handles()[0] == handle);
        if nic.status(handle).is_open {
            return Err(Error::new(ErrorKind::InvalidInput, "already open"));
        }
        let duplicates = Self::duplicate_handles(handle, nic, backlog);
        let ghost handles = duplicates@.map_values(|handle: HandleWrapper| handle.0);
        let ghost mid = nic.tcp();
        let mut i: usize = 0;
        while i < duplicates.len()
            invariant
                i <= duplicates@.len(),
                handles == duplicates@.map_values(|handle: HandleWrapper| handle.0),
                handles.no_duplicates(),
                tcp.dom().contains(handle),
                forall|j: int|
                    0 <= j < handles.len() ==> !tcp.dom().contains(#[trigger] handles[j]),
                nic.tcp().dom() == mid.dom(),
                mid.dom() == tcp.dom().union(handles.to_set()),
                forall|other: SocketHandle| #[trigger]
                    tcp.dom().contains(other) ==> nic.tcp()[other] == tcp[other],
                forall|j: int|
                    0 <= j < i ==> nic.tcp()[#[trigger] handles[j]] == duplicated(
                        tcp[handle],
                    ).told_to_listen(local),
                forall|j: int|
                    i <= j < handles.len() ==> nic.tcp()[#[trigger] handles[j]] == duplicated(
                        tcp[handle],
                    ),
                nic.same_but_sockets(*old(nic)),
            decreases duplicates@.len() - i,
        {
            assert(handles[i as int] == duplicates@[i as int].0);
            assert(handles.to_set().contains(handles[i as int]));
            let _ = tcp_listen(&mut nic.socket_set, duplicates[i].inner(), local);
            i += 1;
        }
        let mut inner = Inner::Backlog(duplicates);
        std::mem::swap(&mut self.inner, &mut inner);
        if let Inner::Handle(held) = inner {
            held.release(nic);
        }
        assert(self@.held == Held::Backlog(handles));
        assert(nic.tcp() =~= crate::smol::released(tcp, set![handle]).union_prefer_right(
            Map::new(
                |new: SocketHandle| handles.contains(new),
                |new: SocketHandle| duplicated(tcp[handle]).told_to_listen(local),
            ),
        ));
        Ok(())
    }

    /// The remote endpoint of the connection.
    pub fn remote_addr(&self, nic: &mut NetworkInterface) -> (remote: IoResult<IpEndpoint>)
        requires
            self@.live(old(nic).tcp()),
        ensures
            remote == self@.remote(old(nic).tcp()),
            final(nic).tcp() == old(nic).tcp(),
            final(nic).same_but_sockets(*old(nic)),
    {
        let handle = self.inner.as_handle()?.inner();
        assert(self@.held.handles()[0] == handle);
        if nic.status(handle).is_active {
            Ok(tcp_remote_endpoint(&mut nic.socket_set, handle))
        } else {
            Err(Error::new(ErrorKind::NotConnected, "no endpoint available"))
        }
    }

    /// Tells whether something that was written is still to be sent.
    pub fn has_remaining_packets(&self, nic: &mut NetworkInterface) -> (remaining: IoResult<bool>)
        requires
            self@.live(old(nic).tcp()),
        ensures
            remaining == self@.has_remaining_packets(old(nic).tcp()),
            final(nic).tcp() == old(nic).tcp(),
            final(nic).same_but_sockets(*old(nic)),
    {
        let handle = self.inner.as_handle()?.inner();
        assert(self@.held.handles()[0] == handle);
        Ok(nic.status(handle).may_send && tcp_send_queue(&mut nic.socket_set, handle) > 0)
    }

    /// Waits for something on the socket. The one who waits holds the socket of the interface too.
    pub fn poll_socket<F: TcpPoll>(&self, nic: &mut NetworkInterface, poll_fn: F) -> (result:
        IoResult<PollSocketRaw<F>>)
        requires
            self@.live(old(nic).tcp()),
            self@.held matches Held::Handle(handle) ==> old(nic).tcp()[handle].refs < usize::MAX,
        ensures
            match (self@.held, result) {
                (Held::Handle(handle), Ok(raw)) => {
                    &&& raw == PollSocketRaw { poll_fn, handle: HandleWrapper(handle) }
                    &&& final(nic).tcp() == crate::smol::retained(old(nic).tcp(), set![handle])
                },
                (Held::Backlog(_), Err(error)) => {
                    &&& error == listening()
                    &&& final(nic).tcp() == old(nic).tcp()
                },
                _ => false,
            },
            final(nic).same_but_sockets(*old(nic)),
    {
        let handle = self.inner.as_handle()?;
        assert(self@.held.handles()[0] == handle.0);
        let held = handle.duplicate(nic);
        assert(nic.tcp() =~= crate::smol::retained(old(nic).tcp(), set![handle.0]));
        Ok(PollSocketRaw::new(held, poll_fn))
    }

    /// Waits for something on the sockets of a listening socket. The one who waits holds the
    /// sockets of the interface too.
    pub fn poll_sockets<F: TcpPoll>(&self, nic: &mut NetworkInterface, poll_fn: F) -> (result:
        IoResult<PollSocketsRaw<F>>)
        requires
            self@.live(old(nic).tcp()),
            forall|i: int|
                0 <= i < self@.held.handles().len()
                    ==> old(nic).tcp()[#[trigger] self@.held.handles()[i]].refs < usize::MAX,
        ensures
            match (self@.held, result) {
                (Held::Backlog(handles), Ok(raw)) => {
                    &&& raw.poll_fn == poll_fn
                    &&& raw.handles@.map_values(|handle: HandleWrapper| handle.0) == handles
                    &&& final(nic).tcp() == crate::smol::retained(
                        old(nic).tcp(),
                        handles.to_set(),
                    )
                },
                (Held::Handle(_), Err(error)) => {
                    &&& error == not_listening()
                    &&& final(nic).tcp() == old(nic).tcp()
                },
                _ => false,
            },
            final(nic).same_but_sockets(*old(nic)),
    {
        let backlog = self.inner.as_backlog_ref()?;
        let ghost handles = self@.held.handles();
        let mut held: Vec<HandleWrapper> = Vec::new();
        let mut i: usize = 0;
        assert(handles.take(0).to_set() =~= Set::empty());
        assert(nic.tcp() =~= crate::smol::retained(old(nic).tcp(), handles.take(0).to_set()));
        while i < backlog.len()
            invariant
                i <= backlog@.len(),
                i == held@.len(),
                self@.held == Held::Backlog(handles),
                handles == backlog@.map_values(|handle: HandleWrapper| handle.0),
                self@.live(old(nic).tcp()),
                forall|i: int|
                    0 <= i < self@.held.handles().len()
                        ==> old(nic).tcp()[#[trigger] self@.held.handles()[i]].refs < usize::MAX,
                forall|j: int| 0 <= j < i ==> #[trigger] held@[j].0 == handles[j],
                nic.tcp() == crate::smol::retained(
                    old(nic).tcp(),
                    handles.take(i as int).to_set(),
                ),
                nic.same_but_sockets(*old(nic)),
            decreases backlog@.len() - i,
        {
            assert(self@.held.handles()[i as int] == backlog@[i as int].0);
            proof {
                lemma_take_next(handles, i as int);
                assert(!handles.take(i as int).to_set().contains(handles[i as int]));
            }
            held.push(backlog[i].duplicate(nic));
            i += 1;
            assert(nic.tcp() =~= crate::smol::retained(
                old(nic).tcp(),
                handles.take(i as int).to_set(),
            ));
        }
        assert(handles.take(i as int) =~= handles);
        assert(held@.map_values(|handle: HandleWrapper| handle.0) =~= handles);
        Ok(PollSocketsRaw::new(held, poll_fn))
    }

    /// Waits for a connection to come in.
    pub fn poll_incoming_connection(&self, nic: &mut NetworkInterface) -> (result: IoResult<
        PollSocketsRaw<IncomingConnection>,
    >)
        requires
            self@.live(old(nic).tcp()),
            forall|i: int|
                0 <= i < self@.held.handles().len()
                    ==> old(nic).tcp()[#[trigger] self@.held.handles()[i]].refs < usize::MAX,
        ensures
            match (self@.held, result) {
                (Held::Backlog(handles), Ok(raw)) => {
                    &&& raw.handles@.map_values(|handle: HandleWrapper| handle.0) == handles
                    &&& final(nic).tcp() == crate::smol::retained(
                        old(nic).tcp(),
                        handles.to_set(),
                    )
                },
                (Held::Handle(_), Err(error)) => {
                    &&& error == not_listening()
                    &&& final(nic).tcp() == old(nic).tcp()
                },
                _ => false,
            },
            final(nic).same_but_sockets(*old(nic)),
    {
        self.poll_sockets(nic, IncomingConnection)
    }

    /// Waits for the connection to be established.
    pub fn poll_connected(&self, nic: &mut NetworkInterface) -> (result: IoResult<
        PollSocketRaw<Connected>,
    >)
        requires
            self@.live(old(nic).tcp()),
            self@.held matches Held::Handle(handle) ==> old(nic).tcp()[handle].refs < usize::MAX,
        ensures
            match (self@.held, result) {
                (Held::Handle(handle), Ok(raw)) => {
                    &&& raw.handle.0 == handle
                    &&& final(nic).tcp() == crate::smol::retained(old(nic).tcp(), set![handle])
                },
                (Held::Backlog(_), Err(error)) => {
                    &&& error == listening()
                    &&& final(nic).tcp() == old(nic).tcp()
                },
                _ => false,
            },
            final(nic).same_but_sockets(*old(nic)),
    {
        self.poll_socket(nic, Connected)
    }

    /// Waits for something to read.
    pub fn poll_readable(&self, nic: &mut NetworkInterface) -> (result: IoResult<
        PollSocketRaw<Readable>,
    >)
        requires
            self@.live(old(nic).tcp()),
            self@.held matches Held::Handle(handle) ==> old(nic).tcp()[handle].refs < usize::MAX,
        ensures
            match (self@.held, result) {
                (Held::Handle(handle), Ok(raw)) => {
                    &&& raw.handle.0 == handle
                    &&& final(nic).tcp() == crate::smol::retained(old(nic).tcp(), set![handle])
                },
                (Held::Backlog(_), Err(error)) => {
                    &&& error == listening()
                    &&& final(nic).tcp() == old(nic).tcp()
                },
                _ => false,
            },
            final(nic).same_but_sockets(*old(nic)),
    {
        self.poll_socket(nic, Readable)
    }

    /// Waits for writing to be possible.
    pub fn poll_writable(&self, nic: &mut NetworkInterface) -> (result: IoResult<
        PollSocketRaw<Writable>,
    >)
        requires
            self@.live(old(nic).tcp()),
            self@.held matches Held::Handle(handle) ==> old(nic).tcp()[handle].refs < usize::MAX,
        ensures
            match (self@.held, result) {
                (Held::Handle(handle), Ok(raw)) => {
                    &&& raw.handle.0 == handle
                    &&& final(nic).tcp() == crate::smol::retained(old(nic).tcp(), set![handle])
                },
                (Held::Backlog(_), Err(error)) => {
                    &&& error == listening()
                    &&& final(nic).tcp() == old(nic).tcp()
                },
                _ => false,
            },
            final(nic).same_but_sockets(*old(nic)),
    {
        self.poll_socket(nic, Writable)
    }

    /// Makes a new socket of the interface with the hop limit of another one.
    pub fn duplicate_handle(handle: &HandleWrapper, nic: &mut NetworkInterface) -> (new:
        HandleWrapper)
        requires
            old(nic).wf(),
            old(nic).tcp().dom().contains(handle.0),
        ensures
            !old(nic).tcp().dom().contains(new.0),
            final(nic).tcp() == old(nic).tcp().insert(
                new.0,
                duplicated(old(nic).tcp()[handle.0]),
            ),
            final(nic).same_but_sockets(*old(nic)),
    {
        let new = nic.create_tcp_handle();
        let hop_limit = tcp_hop_limit(&mut nic.socket_set, handle.inner());
        tcp_set_hop_limit(&mut nic.socket_set, new.inner(), hop_limit);
        assert(nic.tcp() =~= old(nic).tcp().insert(
            new.0,
            duplicated(old(nic).tcp()[handle.0]),
        ));
        new
    }

    /// Makes several new sockets of the interface with the hop limit of another one.
    fn duplicate_handles(handle: SocketHandle, nic: &mut NetworkInterface, count: usize) -> (new:
        Vec<HandleWrapper>)
        requires
            old(nic).wf(),
            old(nic).tcp().dom().contains(handle),
        ensures
            new@.len() == count,
            ({
                let handles = new@.map_values(|handle: HandleWrapper| handle.0);
                &&& handles.no_duplicates()
                &&& forall|i: int|
                    0 <= i < count ==> !old(nic).tcp().dom().contains(#[trigger] handles[i])
                &&& final(nic).tcp().dom() == old(nic).tcp().dom().union(handles.to_set())
                &&& forall|i: int|
                    0 <= i < count ==> final(nic).tcp()[#[trigger] handles[i]] == duplicated(
                        old(nic).tcp()[handle],
                    )
            }),
            forall|other: SocketHandle| #[trigger]
                old(nic).tcp().dom().contains(other) ==> final(nic).tcp()[other]
                    == old(nic).tcp()[other],
            final(nic).same_but_sockets(*old(nic)),
    {
        let wrapper = HandleWrapper::new(handle);
        let ghost tcp = nic.tcp();
        let mut new: Vec<HandleWrapper> = Vec::new();
        let mut i: usize = 0;
        let ghost mut handles: Seq<SocketHandle> = seq![];
        assert(tcp.dom() =~= tcp.dom().union(handles.to_set()));
        while i < count
            invariant
                i <= count,
                i == new@.len(),
                i == handles.len(),
                wrapper.0 == handle,
                tcp == old(nic).tcp(),
                tcp.dom().contains(handle),
                nic.wf(),
                forall|j: int| 0 <= j < i ==> #[trigger] handles[j] == new@[j].0,
                handles.no_duplicates(),
                forall|j: int| 0 <= j < i ==> !tcp.dom().contains(#[trigger] handles[j]),
                nic.tcp().dom() == tcp.dom().union(handles.to_set()),
                forall|other: SocketHandle| #[trigger]
                    tcp.dom().contains(other) ==> nic.tcp()[other] == tcp[other],
                forall|j: int|
                    0 <= j < i ==> nic.tcp()[#[trigger] handles[j]] == duplicated(tcp[handle]),
                nic.same_but_sockets(*old(nic)),
            decreases count - i,
        {
            let ghost mid = nic.tcp();
            let added = Self::duplicate_handle(&wrapper, nic);
            proof {
                assert forall|j: int| 0 <= j < i implies #[trigger] handles[j] != added.0 by {
                    assert(handles.to_set().contains(handles[j]));
                }
                let before = handles;
                handles = handles.push(added.0);
                lemma_take_next(handles, i as int);
                assert(handles.take(i as int) =~= before);
                assert(handles.take(i + 1) =~= handles);
                assert(nic.tcp().dom() =~= tcp.dom().union(handles.to_set()));
            }
            new.push(added);
            i += 1;
        }
        assert(new@.map_values(|handle: HandleWrapper| handle.0) =~= handles);
        new
    }
}

/// The set of the first elements of a sequence grows by the next one.
pub proof fn lemma_take_next(handles: Seq<SocketHandle>, i: int)
    requires
        0 <= i < handles.len(),
    ensures
        forall|handle: SocketHandle| #[trigger]
            handles.take(i + 1).to_set().contains(handle) <==> handles.take(i).to_set().contains(
                handle,
            ) || handle == handles[i],
{
    let (less, more) = (handles.take(i), handles.take(i + 1));
    assert(more =~= less.push(handles[i]));
    assert forall|handle: SocketHandle| #[trigger]
        more.to_set().contains(handle) <==> less.to_set().contains(handle) || handle
            == handles[i] by {
        if less.contains(handle) {
            let j = choose|j: int| 0 <= j < less.len() && less[j] == handle;
            assert(more[j] == handle);
        }
        assert(more[i] == handles[i]);
        if more.contains(handle) {
            let j = choose|j: int| 0 <= j < more.len() && more[j] == handle;
            if j < i {
                assert(less[j] == handle);
            }
        }
    }
}

/// Gives up the holds on several sockets of the interface.
pub(crate) fn release_all(held: Vec<HandleWrapper>, nic: &mut NetworkInterface)
    requires
        ({
            let handles = held@.map_values(|handle: HandleWrapper| handle.0);
            &&& handles.no_duplicates()
            &&& forall|i: int|
                0 <= i < handles.len() ==> {
                    &&& old(nic).tcp().dom().contains(#[trigger] handles[i])
                    &&& old(nic).tcp()[handles[i]].refs > 0
                }
        }),
    ensures
        final(nic).tcp() == crate::smol::released(
            old(nic).tcp(),
            held@.map_values(|handle: HandleWrapper| handle.0).to_set(),
        ),
        final(nic).same_but_sockets(*old(nic)),
{
    let ghost handles = held@.map_values(|handle: HandleWrapper| handle.0);
    let ghost tcp = nic.tcp();
    let mut held = held;
    assert(handles.take(held@.len() as int) =~= handles);
    let ghost mut done: Set<SocketHandle> = Set::empty();
    assert(nic.tcp() =~= crate::smol::released(tcp, done));
    loop
        invariant_except_break
            held@.len() <= handles.len(),
            forall|j: int| 0 <= j < held@.len() ==> #[trigger] handles[j] == held@[j].0,
            handles.no_duplicates(),
            forall|i: int|
                0 <= i < handles.len() ==> {
                    &&& tcp.dom().contains(#[trigger] handles[i])
                    &&& tcp[handles[i]].refs > 0
                },
            forall|handle: SocketHandle| #[trigger]
                done.contains(handle) <==> exists|i: int|
                    held@.len() <= i < handles.len() && handles[i] == handle,
            nic.tcp() == crate::smol::released(tcp, done),
            nic.same_but_sockets(*old(nic)),
        ensures
            nic.tcp() == crate::smol::released(tcp, handles.to_set()),
            nic.same_but_sockets(*old(nic)),
        decreases held@.len(),
    {
        match held.pop() {
            Some(handle) => {
                let ghost i = held@.len() as int;
                assert(handles[i] == handle.0);
                assert(!done.contains(handles[i]));
                let ghost gone = handle.0;
                handle.release(nic);
                proof {
                    done = done.insert(gone);
                    assert(nic.tcp() =~= crate::smol::released(tcp, done));
                }
            },
            None => {
                assert(done =~= handles.to_set()) by {
                    assert forall|handle: SocketHandle| #[trigger]
                        done.contains(handle) == handles.to_set().contains(handle) by {}
                }
                break;
            },
        }
    }
}

/// A socket that is connecting cannot be connected again: not to the same remote endpoint, and not
/// to another.
pub proof fn law_connecting_is_exclusive(
    socket: TcpSocketView,
    tcp: Map<SocketHandle, TcpModel>,
    remote: IpEndpoint,
    ports: LocalEndpoint,
    again: IpEndpoint,
)
    requires
        socket.held is Handle,
        tcp.dom().contains(socket.held->Handle_0),
        socket.connect_error(tcp, remote) is None,
    ensures
        ({
            let handle = socket.held->Handle_0;
            let connecting = tcp.insert(
                handle,
                tcp[handle].told_to_connect(remote, socket.connects_from(ports)),
            );
            socket.connect_error(connecting, again) == Some(
                if again == remote {
                    already_connecting()
                } else {
                    already_in_use()
                },
            )
        }),
{
    law_connects_from_a_port(socket, ports);
}

/// A socket always has a port to connect from: the bound one, or else one of the dynamic range.
pub proof fn law_connects_from_a_port(socket: TcpSocketView, ports: LocalEndpoint)
    ensures
        socket.connects_from(ports).port != 0,
        socket.connects_from(ports).addr == socket.local.addr,
        socket.connects_from(ports).port == (if socket.local.port != 0 {
            socket.local.port as int
        } else {
            0xC000 + ports.next % 0x4000
        }),
{
    crate::endpoint::law_local_endpoint_low_bits(ports.next);
}

/// Whether something was received decides nothing about writing: one that can be written to takes
/// at least one octet, and no more than there are.
pub proof fn law_writable_takes_octets(
    socket: TcpSocketView,
    tcp: Map<SocketHandle, TcpModel>,
    len: int,
)
    requires
        socket.held is Handle,
        socket.allow_write,
        tcp[socket.held->Handle_0].can_send(),
        0 < len <= usize::MAX,
    ensures
        socket.writes(tcp, len) matches Ok(Some(n)) && 0 < n <= len,
{
}

/// Each of the four flags of a socket that does not listen tells one thing, and no other flag is
/// set.
pub proof fn law_flags_tell_apart(socket: TcpSocketView, tcp: Map<SocketHandle, TcpModel>)
    requires
        socket.held is Handle,
    ensures
        ({
            let flags = socket.flags(tcp);
            let model = tcp[socket.held->Handle_0];
            &&& flags & EventFlags::WRITABLE != 0 <==> model.can_send()
            &&& flags & EventFlags::READABLE != 0 <==> model.can_recv()
            &&& flags & EventFlags::WCLOSED != 0 <==> !model.can_send() && (!socket.allow_write
                || !model.may_send())
            &&& flags & EventFlags::RCLOSED != 0 <==> !model.can_recv() && (!socket.allow_read
                || !model.may_recv())
            &&& flags < 0b10000
        }),
{
    let flags = socket.flags(tcp);
    let model = tcp[socket.held->Handle_0];
    let send: u32 = if model.can_send() {
        0b0010
    } else if !socket.allow_write || !model.may_send() {
        0b1000
    } else {
        0
    };
    let recv: u32 = if model.can_recv() {
        0b0001
    } else if !socket.allow_read || !model.may_recv() {
        0b0100
    } else {
        0
    };
    assert(flags == send | recv);
    assert(flags & 0b0010 != 0 <==> send == 0b0010) by (bit_vector)
        requires
            flags == send | recv,
            send == 0 || send == 0b0010 || send == 0b1000,
            recv == 0 || recv == 0b0001 || recv == 0b0100,
    ;
    assert(flags & 0b1000 != 0 <==> send == 0b1000) by (bit_vector)
        requires
            flags == send | recv,
            send == 0 || send == 0b0010 || send == 0b1000,
            recv == 0 || recv == 0b0001 || recv == 0b0100,
    ;
    assert(flags & 0b0001 != 0 <==> recv == 0b0001) by (bit_vector)
        requires
            flags == send | recv,
            send == 0 || send == 0b0010 || send == 0b1000,
            recv == 0 || recv == 0b0001 || recv == 0b0100,
    ;
    assert(flags & 0b0100 != 0 <==> recv == 0b0100) by (bit_vector)
        requires
            flags == send | recv,
            send == 0 || send == 0b0010 || send == 0b1000,
            recv == 0 || recv == 0b0001 || recv == 0b0100,
    ;
    assert(flags < 0b10000) by (bit_vector)
        requires
            flags == send | recv,
            send == 0 || send == 0b0010 || send == 0b1000,
            recv == 0 || recv == 0b0001 || recv == 0b0100,
    ;
}

/// A socket that listens can neither be made to listen again nor be connected, read from or written
/// to.
pub proof fn law_listening_is_exclusive(
    socket: TcpSocketView,
    tcp: Map<SocketHandle, TcpModel>,
    remote: IpEndpoint,
    len: int,
)
    requires
        socket.held is Backlog,
        socket.allow_read,
        socket.allow_write,
        len > 0,
    ensures
        socket.listen_error(tcp) == Some(already_listening()),
        socket.connect_error(tcp, remote) == Some(listening()),
        socket.reads(tcp, len) == Err::<Option<usize>, Error>(listening()),
        socket.writes(tcp, len) == Err::<Option<usize>, Error>(listening()),
        socket.remote(tcp) == Err::<IpEndpoint, Error>(listening()),
{
}

/// A socket that was closed can be neither read from nor written to.
pub proof fn law_closed_transfers_nothing(
    socket: TcpSocketView,
    tcp: Map<SocketHandle, TcpModel>,
    len: int,
)
    ensures
        (TcpSocketView { allow_write: false, allow_read: false, ..socket }).reads(tcp, len) == Err::<
            Option<usize>,
            Error,
        >(read_side_closed()),
        (TcpSocketView { allow_write: false, allow_read: false, ..socket }).writes(tcp, len)
            == Err::<Option<usize>, Error>(read_side_closed()),
{
}

/// A backlog stays as large as it is: for the connection that is taken out of it, a new socket
/// comes in.
pub proof fn law_backlog_keeps_its_size(
    tcp: Map<SocketHandle, TcpModel>,
    handles: Seq<SocketHandle>,
    new: SocketHandle,
)
    requires
        last_connected(tcp, handles) is Some,
    ensures
        handles.remove(last_connected(tcp, handles)->0).push(new).len() == handles.len(),
        handles.remove(last_connected(tcp, handles)->0).push(new).last() == new,
{
    lemma_last_connected(tcp, handles);
}

/// A connection has come in exactly if both halves are open, whatever was received over it. Until
/// then it is waited for while the socket is open, and refused once it is not.
pub proof fn law_incoming_connection_ends_the_wait(tcp: TcpModel)
    ensures
        match IncomingConnection.outcome(tcp.status()) {
            Poll::Ready(Ok(())) => tcp.may_recv() && tcp.may_send(),
            Poll::Ready(Err(error)) => {
                &&& !(tcp.may_recv() && tcp.may_send()) && !tcp.is_open()
                &&& error.kind == ErrorKind::ConnectionRefused
            },
            Poll::Pending(wake_on) => {
                &&& !(tcp.may_recv() && tcp.may_send()) && tcp.is_open()
                &&& wake_on == WakeOn::Send
            },
        },
{
}

/// A connection is established exactly if both halves are open. Until then it is waited for while
/// the socket exchanges packets, and refused once it does not.
pub proof fn law_connection_ends_the_wait(tcp: TcpModel)
    ensures
        match Connected.outcome(tcp.status()) {
            Poll::Ready(Ok(())) => tcp.may_recv() && tcp.may_send(),
            Poll::Ready(Err(error)) => {
                &&& !(tcp.may_recv() && tcp.may_send()) && !tcp.is_active()
                &&& error.kind == ErrorKind::ConnectionRefused
            },
            Poll::Pending(wake_on) => {
                &&& !(tcp.may_recv() && tcp.may_send()) && tcp.is_active()
                &&& wake_on == WakeOn::Send
            },
        },
{
}

/// A socket is ready for reading exactly if its receive half is open. Until then it is waited for
/// while the socket exchanges packets, and not connected once it does not.
pub proof fn law_readable_ends_the_wait(tcp: TcpModel)
    ensures
        match Readable.outcome(tcp.status()) {
            Poll::Ready(Ok(())) => tcp.may_recv(),
            Poll::Ready(Err(error)) => !tcp.may_recv() && !tcp.is_active() && error.kind
                == ErrorKind::NotConnected,
            Poll::Pending(wake_on) => !tcp.may_recv() && tcp.is_active() && wake_on == WakeOn::Recv,
        },
{
}

/// A socket is ready for writing exactly if its transmit half is open. Until then it is waited for
/// while the socket exchanges packets, and not connected once it does not.
pub proof fn law_writable_ends_the_wait(tcp: TcpModel)
    ensures
        match Writable.outcome(tcp.status()) {
            Poll::Ready(Ok(())) => tcp.may_send(),
            Poll::Ready(Err(error)) => !tcp.may_send() && !tcp.is_active() && error.kind
                == ErrorKind::NotConnected,
            Poll::Pending(wake_on) => !tcp.may_send() && tcp.is_active() && wake_on == WakeOn::Send,
        },
{
}

/// A socket that is not open can be connected to any endpoint that has an address and a port. It
/// then asks exactly that endpoint for a connection, and holds on to what it is bound to.
pub proof fn law_closed_socket_connects(
    socket: TcpSocketView,
    tcp: Map<SocketHandle, TcpModel>,
    remote: IpEndpoint,
    ports: LocalEndpoint,
)
    requires
        socket.held is Handle,
        !tcp[socket.held->Handle_0].is_open(),
        !remote.addr.is_unspecified(),
        remote.port != 0,
    ensures
        socket.connect_error(tcp, remote) is None,
        ({
            let after = tcp[socket.held->Handle_0].told_to_connect(
                remote,
                socket.connects_from(ports),
            );
            &&& after.state is SynSent
            &&& after.remote == remote
            &&& socket.local.port != 0 ==> after.local.port == socket.local.port
            &&& socket.local.port == 0 ==> after.local.port >= 0xC000
            &&& after.is_active() && !after.may_send() && !after.may_recv()
        }),
{
    law_connects_from_a_port(socket, ports);
}

/// Connecting fails exactly for these reasons: the socket listens; it exchanges packets, with the
/// remote endpoint or with another; it is open otherwise, or the remote endpoint lacks an address
/// or a port.
pub proof fn law_connecting_fails_for_a_reason(
    socket: TcpSocketView,
    tcp: Map<SocketHandle, TcpModel>,
    remote: IpEndpoint,
)
    ensures
        match (socket.held, socket.connect_error(tcp, remote)) {
            (Held::Backlog(_), Some(error)) => error.kind == ErrorKind::InvalidInput,
            (Held::Handle(handle), Some(error)) => {
                let to_remote = tcp[handle].remote == remote && !remote.addr.is_unspecified()
                    && remote.port != 0;
                if tcp[handle].is_active() {
                    error.kind == (if to_remote {
                        ErrorKind::AlreadyExists
                    } else {
                        ErrorKind::InUse
                    })
                } else {
                    &&& error.kind == ErrorKind::InvalidData
                    &&& tcp[handle].is_open() || remote.addr.is_unspecified() || remote.port == 0
                }
            },
            (Held::Handle(handle), None) => !tcp[handle].is_open()
                && !remote.addr.is_unspecified() && remote.port != 0,
            (Held::Backlog(_), None) => false,
        },
{
}

/// Connecting draws a port exactly if the socket has none and is not in use: the connection is
/// started from it, and the next socket gets another one.
pub proof fn law_port_is_drawn_once(
    socket: TcpSocketView,
    tcp: Map<SocketHandle, TcpModel>,
    ports: LocalEndpoint,
)
    ensures
        socket.draws_port(tcp) <==> socket.local.port == 0 && (socket.held matches Held::Handle(
            handle,
        ) && !tcp[handle].is_active()),
        socket.local.port == 0 ==> {
            &&& socket.connects_from(ports).port == ports.port()
            &&& socket.connects_from(ports.advanced()).port != socket.connects_from(ports).port
        },
        socket.local.port != 0 ==> socket.connects_from(ports) == socket.local,
{
    crate::endpoint::law_ports_are_handed_out_in_turn(ports);
}

/// A socket can be made to listen exactly if it does not listen and is not open.
pub proof fn law_closed_socket_listens(socket: TcpSocketView, tcp: Map<SocketHandle, TcpModel>)
    ensures
        match socket.held {
            Held::Backlog(_) => socket.listen_error(tcp) matches Some(error) && error.kind
                == ErrorKind::InvalidInput,
            Held::Handle(handle) => {
                &&& !tcp[handle].is_open() ==> socket.listen_error(tcp) is None
                &&& tcp[handle].is_open() ==> (socket.listen_error(tcp) matches Some(error)
                    && error.kind == ErrorKind::InvalidInput)
            },
        },
{
}

/// A socket that is made to stand beside another listens on the local endpoint with empty buffers
/// of full size, and is held once. A port it needs.
pub proof fn law_duplicate_listens(tcp: TcpModel, local: IpEndpoint)
    requires
        local.port != 0,
    ensures
        ({
            let listener = duplicated(tcp).told_to_listen(local);
            &&& duplicated(tcp).hop_limit == tcp.hop_limit
            &&& listener.state is Listen
            &&& listener.local == local
            &&& listener.refs == 1
            &&& listener.rx.len() == 0 && listener.tx.len() == 0
            &&& listener.rx_capacity == 65535 && listener.tx_capacity == 65535
            &&& listener.is_open() && !listener.is_connected()
        }),
{
}

/// What reading comes to: refused where it is not allowed or the socket listens, else something
/// exactly if something was received, nothing yet while the receive half is open, and refused after
/// that.
pub proof fn law_reading_gives_what_was_received(
    socket: TcpSocketView,
    tcp: Map<SocketHandle, TcpModel>,
    len: int,
)
    requires
        0 <= len <= usize::MAX,
        socket.held matches Held::Handle(handle) ==> tcp[handle].rx_at < tcp[handle].rx_capacity,
    ensures
        match socket.reads(tcp, len) {
            Err(error) => {
                if !socket.allow_read {
                    error.kind == ErrorKind::NotConnected
                } else {
                    match socket.held {
                        Held::Backlog(_) => error.kind == ErrorKind::InvalidInput,
                        Held::Handle(handle) => error.kind == ErrorKind::NotConnected
                            && !tcp[handle].may_recv(),
                    }
                }
            },
            Ok(found) => socket.allow_read && match socket.held {
                Held::Backlog(_) => false,
                Held::Handle(handle) => match found {
                    Some(n) => {
                        &&& tcp[handle].rx.len() > 0
                        &&& n <= len && n <= tcp[handle].rx.len()
                        &&& len > 0 ==> n > 0
                        &&& tcp[handle].rx_at + tcp[handle].rx.len() <= tcp[handle].rx_capacity
                            ==> n == len || n == tcp[handle].rx.len()
                    },
                    None => tcp[handle].rx.len() == 0 && tcp[handle].may_recv(),
                },
            },
        },
{
}

/// What writing comes to: refused where it is not allowed, for nothing at all or if the socket
/// listens, else as many octets as there is room for exactly if there is room, nothing yet while
/// the transmit half is open, and refused after that.
pub proof fn law_writing_takes_what_there_is_room_for(
    socket: TcpSocketView,
    tcp: Map<SocketHandle, TcpModel>,
    len: int,
)
    requires
        0 <= len <= usize::MAX,
    ensures
        match socket.writes(tcp, len) {
            Err(error) => {
                if !socket.allow_write {
                    error.kind == ErrorKind::NotConnected
                } else if len == 0 {
                    error.kind == ErrorKind::WriteZero
                } else {
                    match socket.held {
                        Held::Backlog(_) => error.kind == ErrorKind::InvalidInput,
                        Held::Handle(handle) => error.kind == ErrorKind::NotConnected
                            && !tcp[handle].may_send(),
                    }
                }
            },
            Ok(found) => socket.allow_write && len > 0 && match socket.held {
                Held::Backlog(_) => false,
                Held::Handle(handle) => {
                    let room = tcp[handle].tx_capacity - tcp[handle].tx.len();
                    &&& tcp[handle].may_send()
                    &&& match found {
                        Some(n) => room > 0 && 0 < n <= len && n <= room && (n == len || n
                            == room),
                        None => room <= 0,
                    }
                },
            },
        },
{
}

/// A socket has a remote endpoint exactly while it exchanges packets with one.
pub proof fn law_remote_is_the_peer(socket: TcpSocketView, tcp: Map<SocketHandle, TcpModel>)
    ensures
        match (socket.held, socket.remote(tcp)) {
            (Held::Handle(handle), Ok(remote)) => tcp[handle].is_active() && remote
                == tcp[handle].remote,
            (Held::Handle(handle), Err(error)) => !tcp[handle].is_active() && error.kind
                == ErrorKind::NotConnected,
            (Held::Backlog(_), Ok(_)) => false,
            (Held::Backlog(_), Err(error)) => error.kind == ErrorKind::InvalidInput,
        },
{
}

/// Something is left to be sent exactly while the transmit half is open and the octets to be sent
/// are not the empty sequence, however many they are.
pub proof fn law_remaining_packets_are_those_to_be_sent(
    socket: TcpSocketView,
    tcp: Map<SocketHandle, TcpModel>,
)
    ensures
        match (socket.held, socket.has_remaining_packets(tcp)) {
            (Held::Handle(handle), Ok(remaining)) => remaining <==> tcp[handle].may_send()
                && tcp[handle].tx != Seq::<u8>::empty(),
            (Held::Backlog(_), Err(error)) => error.kind == ErrorKind::InvalidInput,
            _ => false,
        },
{
    if let Held::Handle(handle) = socket.held {
        if tcp[handle].tx.len() == 0 {
            assert(tcp[handle].tx =~= Seq::<u8>::empty());
        }
    }
}

/// A socket that listens is reported as writable exactly if a connection is coming in on one of
/// those that it holds, and nothing else is reported of it.
pub proof fn law_listening_socket_tells_of_connections(
    socket: TcpSocketView,
    tcp: Map<SocketHandle, TcpModel>,
)
    requires
        socket.held is Backlog,
    ensures
        socket.flags(tcp) == EventFlags::WRITABLE || socket.flags(tcp) == EventFlags::NONE,
        socket.flags(tcp) == EventFlags::WRITABLE <==> exists|i: int|
            0 <= i < (socket.held->Backlog_0).len() && tcp[
                #[trigger] (socket.held->Backlog_0)[i]
            ].is_active(),
{
}

/// A newly bound socket holds its one socket of the interface, is bound to its endpoint, and may be
/// read from and written to.
pub proof fn law_new_socket_allows_transfers(handle: SocketHandle, local: IpEndpoint)
    ensures
        ({
            let socket = TcpSocketView::fresh(handle, local);
            &&& socket.held == Held::Handle(handle)
            &&& socket.held.handles() == seq![handle]
            &&& socket.local == local
            &&& socket.allow_read && socket.allow_write
            &&& socket.in_progress is None
        }),
{
}

/// Each reason for which a call fails has the kind that tells it.
pub proof fn law_errors_tell_the_reason()
    ensures
        listening().kind == ErrorKind::InvalidInput,
        not_listening().kind == ErrorKind::NotListening,
        read_side_closed().kind == ErrorKind::NotConnected,
        zero_write().kind == ErrorKind::WriteZero,
        already_connecting().kind == ErrorKind::AlreadyExists,
        already_in_use().kind == ErrorKind::InUse,
        invalid_remote().kind == ErrorKind::InvalidData,
        already_listening().kind == ErrorKind::InvalidInput,
        already_open().kind == ErrorKind::InvalidInput,
        connection_refused().kind == ErrorKind::ConnectionRefused,
        no_endpoint().kind == ErrorKind::NotConnected,
{
}

/// A connection is accepted whenever one came in: of those that are connected, the one that comes
/// last, whatever was received over it.
pub proof fn law_last_connection_is_accepted(
    tcp: Map<SocketHandle, TcpModel>,
    handles: Seq<SocketHandle>,
    i: int,
)
    requires
        0 <= i < handles.len(),
        tcp[handles[i]].may_recv() && tcp[handles[i]].may_send(),
        forall|j: int| i < j < handles.len() ==> !tcp[#[trigger] handles[j]].is_connected(),
    ensures
        last_connected(tcp, handles) == Some(i),
{
    lemma_last_connected(tcp, handles);
    assert(tcp[handles[i]].is_connected());
}

/// A connection that was just asked for is neither established nor refused: who does not wait for
/// it is told that the call would block.
pub proof fn law_started_connection_would_block(
    socket: TcpSocketView,
    tcp: Map<SocketHandle, TcpModel>,
    remote: IpEndpoint,
    ports: LocalEndpoint,
)
    requires
        socket.held is Handle,
        socket.connect_error(tcp, remote) is None,
    ensures
        ({
            let after = tcp[socket.held->Handle_0].told_to_connect(
                remote,
                socket.connects_from(ports),
            );
            &&& Connected.outcome(after.status()) == Poll::<IoResult<()>>::Pending(WakeOn::Send)
            &&& crate::poll::once(Connected.outcome(after.status())) matches Err(error)
            &&& error.kind == ErrorKind::WouldBlock
        }),
{
    law_connecting_fails_for_a_reason(socket, tcp, remote);
    law_closed_socket_connects(socket, tcp, remote, ports);
}

} // verus!
