//! Sockets.
use vstd::prelude::*;

use smoltcp::socket::SocketHandle;
use std::task::Waker;

use crate::event::Event;
use crate::event_socket::AsyncEventSocket;
use crate::io::{Error, ErrorKind, IoResult};
use crate::net::Socket;
use crate::nic::NetworkInterface;
use crate::smol::{set_release, set_retain, TcpModel};
use crate::tcp::{AsyncTcpSocket, TcpSocketView};
use crate::waker_socket::AsyncWakerSocket;

verus! {

/// One hold on a TCP socket of the network interface.
#[derive(Debug)]
pub struct HandleWrapper(pub SocketHandle);

impl HandleWrapper {
    /// Takes over the hold that comes with a handle.
    pub fn new(handle: SocketHandle) -> (wrapper: Self)
        ensures
            wrapper.0 == handle,
    {
        HandleWrapper(handle)
    }

    /// The handle.
    pub fn inner(&self) -> (handle: SocketHandle)
        ensures
            handle == self.0,
    {
        self.0
    }

    /// The handle, with the hold on it.
    pub fn into_inner(self) -> (handle: SocketHandle)
        ensures
            handle == self.0,
    {
        self.0
    }

    /// A second hold on the same socket.
    pub fn duplicate(&self, nic: &mut NetworkInterface) -> (wrapper: Self)
        requires
            old(nic).tcp().dom().contains(self.0),
            old(nic).tcp()[self.0].refs < usize::MAX,
        ensures
            wrapper == *self,
            final(nic).tcp() == old(nic).tcp().insert(
                self.0,
                (TcpModel { refs: old(nic).tcp()[self.0].refs + 1, ..old(nic).tcp()[self.0] }),
            ),
            final(nic).same_but_sockets(*old(nic)),
    {
        set_retain(&mut nic.socket_set, self.0);
        HandleWrapper(self.0)
    }

    /// Gives the hold up.
    pub fn release(self, nic: &mut NetworkInterface)
        requires
            old(nic).tcp().dom().contains(self.0),
            old(nic).tcp()[self.0].refs > 0,
        ensures
            final(nic).tcp() == old(nic).tcp().insert(
                self.0,
                (TcpModel {
                    refs: (old(nic).tcp()[self.0].refs - 1) as nat,
                    ..old(nic).tcp()[self.0]
                }),
            ),
            final(nic).same_but_sockets(*old(nic)),
    {
        set_release(&mut nic.socket_set, self.0);
    }
}

/// A socket of any kind.
#[non_exhaustive]
#[derive(Debug)]
pub enum AsyncSocket {
    /// Not bound to any kind yet.
    Unbound,
    Tcp(AsyncTcpSocket),
    Event(AsyncEventSocket),
    Waker(AsyncWakerSocket),
}

/// What a socket is.
pub ghost enum SocketView {
    Unbound,
    Tcp(TcpSocketView),
    Event(Seq<Event>),
    Waker(AsyncWakerSocket),
}

impl View for AsyncSocket {
    type V = SocketView;

    open spec fn view(&self) -> SocketView {
        match *self {
            AsyncSocket::Unbound => SocketView::Unbound,
            AsyncSocket::Tcp(tcp) => SocketView::Tcp(tcp@),
            AsyncSocket::Event(event) => SocketView::Event(event@),
            AsyncSocket::Waker(waker) => SocketView::Waker(waker),
        }
    }
}

/// The error of using a socket that is not bound.
pub open spec fn unbound() -> Error {
    Error { kind: ErrorKind::InvalidInput, msg: "this socket is unbound" }
}

/// The error of using a socket as a TCP socket that is none.
pub open spec fn not_tcp() -> Error {
    Error { kind: ErrorKind::InvalidInput, msg: "not a tcp socket" }
}

/// The error of using a socket as an event or a waker socket that is none.
pub open spec fn not_listener() -> Error {
    Error { kind: ErrorKind::InvalidInput, msg: "not a tcp listener" }
}

/// The error of a wait for events on a socket that is no event socket.
pub open spec fn not_event() -> Error {
    Error { kind: ErrorKind::InvalidInput, msg: "not an event socket" }
}

impl SocketView {
    /// The sockets of the interface that are held.
    pub open spec fn handles(self) -> Seq<SocketHandle> {
        match self {
            SocketView::Tcp(tcp) => tcp.held.handles(),
            _ => seq![],
        }
    }

    /// The sockets of the interface that are held are different ones, and each is held at least
    /// once.
    pub open spec fn live(self, tcp: Map<SocketHandle, TcpModel>) -> bool {
        self matches SocketView::Tcp(socket) ==> socket.live(tcp)
    }

    /// Whether the socket may be closed for good.
    pub open spec fn may_close(self, tcp: Map<SocketHandle, TcpModel>) -> bool {
        self matches SocketView::Tcp(socket) ==> socket.has_remaining_packets(tcp) != Ok::<
            bool,
            Error,
        >(true)
    }

    /// The socket after it was closed.
    pub open spec fn closed(self) -> SocketView {
        match self {
            SocketView::Tcp(tcp) => SocketView::Tcp(
                TcpSocketView { allow_write: false, allow_read: false, ..tcp },
            ),
            SocketView::Waker(waker) => SocketView::Waker(
                AsyncWakerSocket { send_waker: None, recv_waker: None, ..waker },
            ),
            _ => self,
        }
    }

    /// Who is woken when the socket is closed.
    pub open spec fn close_wakes(self) -> Seq<Waker> {
        match self {
            SocketView::Waker(waker) => crate::waker::pending(waker.send_waker)
                + crate::waker::pending(waker.recv_waker),
            _ => seq![],
        }
    }
}

impl AsyncSocket {
    /// A socket that is not bound.
    pub fn new() -> (socket: Self)
        ensures
            socket@ == SocketView::Unbound,
    {
        AsyncSocket::Unbound
    }

    /// Gives up the sockets of the interface that are held.
    pub fn release(self, nic: &mut NetworkInterface)
        requires
            self@.live(old(nic).tcp()),
        ensures
            final(nic).tcp() == crate::smol::released(old(nic).tcp(), self@.handles().to_set()),
            final(nic).same_but_sockets(*old(nic)),
    {
        match self {
            AsyncSocket::Tcp(tcp) => tcp.release(nic),
            _ => {
                assert(nic.tcp() =~= crate::smol::released(
                    old(nic).tcp(),
                    self@.handles().to_set(),
                ));
            },
        }
    }

    /// Prepares the socket for being closed, without freeing anything yet. No kind of socket needs
    /// that.
    pub fn init_close(&mut self) -> (result: IoResult<()>)
        ensures
            final(self)@ == old(self)@,
            result == (if old(self)@ is Unbound {
                Err::<(), Error>(unbound())
            } else {
                Ok(())
            }),
    {
        match self {
            AsyncSocket::Unbound => Err(
                Error::new(ErrorKind::InvalidInput, "this socket is unbound"),
            ),
            _ => Ok(()),
        }
    }

    /// Tells whether the socket may be closed for good.
    pub fn may_close(&self, nic: &mut NetworkInterface) -> (result: IoResult<bool>)
        requires
            self@.live(old(nic).tcp()),
        ensures
            result == (if self@ is Unbound {
                Err::<bool, Error>(unbound())
            } else {
                Ok(self@.may_close(old(nic).tcp()))
            }),
            final(nic).tcp() == old(nic).tcp(),
            final(nic).same_but_sockets(*old(nic)),
    {
        match self {
            AsyncSocket::Unbound => Err(
                Error::new(ErrorKind::InvalidInput, "this socket is unbound"),
            ),
            AsyncSocket::Tcp(tcp) => Ok(tcp.may_close(nic)),
            _ => Ok(true),
        }
    }

    /// Closes the socket.
    pub fn close(&mut self, wakes: &mut Vec<Waker>) -> (result: IoResult<()>)
        ensures
            final(self)@ == old(self)@.closed(),
            final(wakes)@ == old(wakes)@ + old(self)@.close_wakes(),
            result == (if old(self)@ is Unbound {
                Err::<(), Error>(unbound())
            } else {
                Ok(())
            }),
    {
        assert(wakes@ + seq![] =~= wakes@);
        match self {
            AsyncSocket::Unbound => Err(
                Error::new(ErrorKind::InvalidInput, "this socket is unbound"),
            ),
            AsyncSocket::Tcp(tcp) => {
                tcp.close();
                Ok(())
            },
            AsyncSocket::Event(_) => Ok(()),
            AsyncSocket::Waker(waker) => {
                waker.close(wakes);
                assert(wakes@ =~= old(wakes)@ + old(self)@.close_wakes());
                Ok(())
            },
        }
    }

    /// Tells whether closing the socket has finished. No kind of socket lingers.
    pub fn is_closed(&self) -> (result: IoResult<bool>)
        ensures
            result == (if self@ is Unbound {
                Err::<bool, Error>(unbound())
            } else {
                Ok(true)
            }),
    {
        match self {
            AsyncSocket::Unbound => Err(
                Error::new(ErrorKind::InvalidInput, "this socket is unbound"),
            ),
            _ => Ok(true),
        }
    }

    /// The socket as a TCP socket.
    pub fn as_tcp_ref(&self) -> (tcp: IoResult<&AsyncTcpSocket>)
        ensures
            match *self {
                AsyncSocket::Tcp(inner) => tcp matches Ok(tcp) && *tcp == inner,
                _ => tcp == Err::<&AsyncTcpSocket, Error>(not_tcp()),
            },
    {
        match self {
            AsyncSocket::Tcp(tcp) => Ok(tcp),
            _ => Err(Error::new(ErrorKind::InvalidInput, "not a tcp socket")),
        }
    }

    /// The socket as a TCP socket, to be changed.
    pub fn as_tcp_mut(&mut self) -> (tcp: IoResult<&mut AsyncTcpSocket>)
        ensures
            match tcp {
                Ok(tcp) => {
                    &&& *old(self) == AsyncSocket::Tcp(*tcp)
                    &&& *final(self) == AsyncSocket::Tcp(*final(tcp))
                },
                Err(error) => {
                    &&& !(*old(self) is Tcp)
                    &&& error == not_tcp()
                    &&& *final(self) == *old(self)
                },
            },
    {
        match self {
            AsyncSocket::Tcp(tcp) => Ok(tcp),
            _ => Err(Error::new(ErrorKind::InvalidInput, "not a tcp socket")),
        }
    }

    /// A way to the TCP socket through the socket map.
    pub fn as_tcp_proxy(&self, socket: Socket) -> (proxy: IoResult<AsyncSocketProxy>)
        ensures
            proxy == (if self@ is Tcp {
                Ok::<AsyncSocketProxy, Error>(AsyncSocketProxy { socket })
            } else {
                Err(not_tcp())
            }),
    {
        match self {
            AsyncSocket::Tcp(_) => Ok(AsyncSocketProxy::new(socket)),
            _ => Err(Error::new(ErrorKind::InvalidInput, "not a tcp socket")),
        }
    }

    /// The socket as an event socket.
    pub fn as_event_ref(&self) -> (event: IoResult<&AsyncEventSocket>)
        ensures
            match *self {
                AsyncSocket::Event(inner) => event matches Ok(event) && *event == inner,
                _ => event == Err::<&AsyncEventSocket, Error>(not_listener()),
            },
    {
        match self {
            AsyncSocket::Event(event) => Ok(event),
            _ => Err(Error::new(ErrorKind::InvalidInput, "not a tcp listener")),
        }
    }

    /// The socket as an event socket, to be changed.
    pub fn as_event_mut(&mut self) -> (event: IoResult<&mut AsyncEventSocket>)
        ensures
            match event {
                Ok(event) => {
                    &&& *old(self) == AsyncSocket::Event(*event)
                    &&& *final(self) == AsyncSocket::Event(*final(event))
                },
                Err(error) => {
                    &&& !(*old(self) is Event)
                    &&& error == not_listener()
                    &&& *final(self) == *old(self)
                },
            },
    {
        match self {
            AsyncSocket::Event(event) => Ok(event),
            _ => Err(Error::new(ErrorKind::InvalidInput, "not a tcp listener")),
        }
    }

    /// A way to the event socket through the socket map.
    pub fn as_event_proxy(&self, socket: Socket) -> (proxy: IoResult<AsyncSocketProxy>)
        ensures
            proxy == (if self@ is Event {
                Ok::<AsyncSocketProxy, Error>(AsyncSocketProxy { socket })
            } else {
                Err(not_event())
            }),
    {
        match self {
            AsyncSocket::Event(_) => Ok(AsyncSocketProxy::new(socket)),
            _ => Err(Error::new(ErrorKind::InvalidInput, "not an event socket")),
        }
    }

    /// The socket as a waker socket.
    pub fn as_waker_ref(&self) -> (waker: IoResult<&AsyncWakerSocket>)
        ensures
            match *self {
                AsyncSocket::Waker(inner) => waker matches Ok(waker) && *waker == inner,
                _ => waker == Err::<&AsyncWakerSocket, Error>(not_listener()),
            },
    {
        match self {
            AsyncSocket::Waker(waker) => Ok(waker),
            _ => Err(Error::new(ErrorKind::InvalidInput, "not a tcp listener")),
        }
    }

    /// The socket as a waker socket, to be changed.
    pub fn as_waker_mut(&mut self) -> (waker: IoResult<&mut AsyncWakerSocket>)
        ensures
            match waker {
                Ok(waker) => {
                    &&& *old(self) == AsyncSocket::Waker(*waker)
                    &&& *final(self) == AsyncSocket::Waker(*final(waker))
                },
                Err(error) => {
                    &&& !(*old(self) is Waker)
                    &&& error == not_listener()
                    &&& *final(self) == *old(self)
                },
            },
    {
        match self {
            AsyncSocket::Waker(waker) => Ok(waker),
            _ => Err(Error::new(ErrorKind::InvalidInput, "not a tcp listener")),
        }
    }

    /// A way to the waker socket through the socket map.
    pub fn as_waker_proxy(&self, socket: Socket) -> (proxy: IoResult<AsyncSocketProxy>)
        ensures
            proxy == (if self@ is Waker {
                Ok::<AsyncSocketProxy, Error>(AsyncSocketProxy { socket })
            } else {
                Err(not_event())
            }),
    {
        match self {
            AsyncSocket::Waker(_) => Ok(AsyncSocketProxy::new(socket)),
            _ => Err(Error::new(ErrorKind::InvalidInput, "not an event socket")),
        }
    }
}

impl From<AsyncTcpSocket> for AsyncSocket {
    fn from(socket: AsyncTcpSocket) -> (async_socket: Self) {
        AsyncSocket::Tcp(socket)
    }
}

impl vstd::std_specs::convert::FromSpecImpl<AsyncTcpSocket> for AsyncSocket {
    open spec fn obeys_from_spec() -> bool {
        true
    }

    open spec fn from_spec(socket: AsyncTcpSocket) -> AsyncSocket {
        AsyncSocket::Tcp(socket)
    }
}

impl From<AsyncEventSocket> for AsyncSocket {
    fn from(event: AsyncEventSocket) -> (async_socket: Self) {
        AsyncSocket::Event(event)
    }
}

impl vstd::std_specs::convert::FromSpecImpl<AsyncEventSocket> for AsyncSocket {
    open spec fn obeys_from_spec() -> bool {
        true
    }

    open spec fn from_spec(event: AsyncEventSocket) -> AsyncSocket {
        AsyncSocket::Event(event)
    }
}

impl From<AsyncWakerSocket> for AsyncSocket {
    fn from(waker: AsyncWakerSocket) -> (async_socket: Self) {
        AsyncSocket::Waker(waker)
    }
}

impl vstd::std_specs::convert::FromSpecImpl<AsyncWakerSocket> for AsyncSocket {
    open spec fn obeys_from_spec() -> bool {
        true
    }

    open spec fn from_spec(waker: AsyncWakerSocket) -> AsyncSocket {
        AsyncSocket::Waker(waker)
    }
}

/// A way to a socket through the socket map, to be gone anew each time.
#[derive(Debug, Clone, Copy)]
pub struct AsyncSocketProxy {
    pub socket: Socket,
}

impl AsyncSocketProxy {
    pub fn new(socket: Socket) -> (proxy: Self)
        ensures
            proxy.socket == socket,
    {
        AsyncSocketProxy { socket }
    }
}

/// A socket may be closed exactly if nothing that was written to it is left to be sent: of a TCP
/// socket that holds one socket of the interface whose transmit half is open, the octets to be sent
/// are then the empty sequence. All others may be closed at once.
pub proof fn law_closing_waits_for_what_is_to_be_sent(
    socket: SocketView,
    tcp: Map<SocketHandle, TcpModel>,
)
    ensures
        socket.may_close(tcp) <==> match socket {
            SocketView::Tcp(view) => match view.held {
                crate::tcp::Held::Handle(handle) => tcp[handle].may_send() ==> tcp[handle].tx
                    == Seq::<u8>::empty(),
                crate::tcp::Held::Backlog(_) => true,
            },
            _ => true,
        },
{
    if let SocketView::Tcp(view) = socket {
        crate::tcp::law_remaining_packets_are_those_to_be_sent(view, tcp);
    }
}

/// A closed socket transfers nothing and keeps nobody waiting: whoever waited on a waker socket is
/// woken, first for writing, then for reading.
pub proof fn law_closed_socket_is_left_alone(socket: SocketView)
    ensures
        match (socket, socket.closed()) {
            (SocketView::Tcp(then), SocketView::Tcp(now)) => {
                &&& !now.allow_read && !now.allow_write
                &&& now == crate::tcp::TcpSocketView {
                    allow_read: false,
                    allow_write: false,
                    ..then
                }
            },
            (SocketView::Waker(then), SocketView::Waker(now)) => {
                &&& now.send_waker is None && now.recv_waker is None
                &&& now.event_flags == then.event_flags && now.socket == then.socket
            },
            (then, now) => now == then,
        },
        socket.closed().handles() == socket.handles(),
        match socket {
            SocketView::Waker(waker) => {
                &&& forall|task: Waker| #[trigger]
                    socket.close_wakes().contains(task) <==> waker.send_waker == Some(task)
                        || waker.recv_waker == Some(task)
                &&& waker.send_waker matches Some(task) ==> socket.close_wakes()[0] == task
                &&& waker.send_waker is None ==> (waker.recv_waker matches Some(task)
                    ==> socket.close_wakes() == seq![task])
            },
            _ => socket.close_wakes().len() == 0,
        },
{
    if let SocketView::Waker(waker) = socket {
        let wakes = socket.close_wakes();
        assert forall|task: Waker| #[trigger] wakes.contains(task) <==> waker.send_waker == Some(
            task,
        ) || waker.recv_waker == Some(task) by {
            if waker.send_waker == Some(task) {
                assert(wakes[0] == task);
            }
            if waker.recv_waker == Some(task) {
                assert(wakes[wakes.len() - 1] == task);
            }
        }
        if waker.send_waker is None && waker.recv_waker is Some {
            assert(wakes =~= seq![waker.recv_waker->0]);
        }
    }
}

/// A TCP socket holds its sockets of the interface, one or those of its backlog; no other socket
/// holds any.
pub proof fn law_only_tcp_holds(socket: SocketView)
    ensures
        match socket {
            SocketView::Tcp(view) => match view.held {
                crate::tcp::Held::Handle(handle) => socket.handles() == seq![handle],
                crate::tcp::Held::Backlog(handles) => socket.handles() == handles,
            },
            _ => socket.handles().len() == 0,
        },
{
}

/// Using a socket as what it is not is an invalid input.
pub proof fn law_wrong_kind_is_invalid_input()
    ensures
        unbound().kind == ErrorKind::InvalidInput,
        not_tcp().kind == ErrorKind::InvalidInput,
        not_listener().kind == ErrorKind::InvalidInput,
        not_event().kind == ErrorKind::InvalidInput,
{
}

} // verus!
