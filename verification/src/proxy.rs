//! Ways to a socket of a kind through the socket map.
use vstd::prelude::*;

use crate::event::Event;
use crate::event_socket::AsyncEventSocket;
use crate::io::{Error, IoResult};
use crate::socket::{AsyncSocketProxy, SocketView};
use crate::socket_map::{EntryView, SocketMap};
use crate::tcp::{AsyncTcpSocket, TcpSocketView};
use crate::waker_socket::AsyncWakerSocket;

verus! {

/// A socket as a TCP socket.
pub open spec fn tcp_of(map: Seq<Option<EntryView>>, id: int) -> IoResult<TcpSocketView> {
    match crate::socket_map::lookup(map, id) {
        Some(entry) => match entry.socket {
            SocketView::Tcp(tcp) => Ok(tcp),
            _ => Err(crate::socket::not_tcp()),
        },
        None => Err(crate::socket_map::unknown()),
    }
}

/// The interests of an event socket, or the given error if the socket is none.
pub open spec fn events_of(map: Seq<Option<EntryView>>, id: int, other: Error) -> IoResult<
    Seq<Event>,
> {
    match crate::socket_map::lookup(map, id) {
        Some(entry) => match entry.socket {
            SocketView::Event(events) => Ok(events),
            _ => Err(other),
        },
        None => Err(crate::socket_map::unknown()),
    }
}

/// A socket as a waker socket.
pub open spec fn waker_of(map: Seq<Option<EntryView>>, id: int) -> IoResult<AsyncWakerSocket> {
    match crate::socket_map::lookup(map, id) {
        Some(entry) => match entry.socket {
            SocketView::Waker(waker) => Ok(waker),
            _ => Err(crate::socket::not_listener()),
        },
        None => Err(crate::socket_map::unknown()),
    }
}

/// The sockets after one of them was replaced.
pub open spec fn with_socket(
    map: Seq<Option<EntryView>>,
    id: int,
    socket: SocketView,
) -> Seq<Option<EntryView>> {
    map.update(id, Some(EntryView { socket, ..crate::socket_map::lookup(map, id)->0 }))
}

impl AsyncSocketProxy {
    /// The TCP socket.
    pub fn tcp_ref<'a>(&self, socket_map: &'a SocketMap) -> (tcp: IoResult<&'a AsyncTcpSocket>)
        ensures
            match (tcp_of(socket_map@, self.socket.id as int), tcp) {
                (Ok(view), Ok(tcp)) => tcp@ == view,
                (Err(expected), Err(error)) => error == expected,
                _ => false,
            },
    {
        let entry = socket_map.get(self.socket)?;
        entry.async_socket.as_tcp_ref()
    }

    /// The TCP socket, to be changed.
    pub fn tcp_mut<'a>(&self, socket_map: &'a mut SocketMap) -> (tcp: IoResult<
        &'a mut AsyncTcpSocket,
    >)
        ensures
            match (tcp_of(old(socket_map)@, self.socket.id as int), tcp) {
                (Ok(view), Ok(tcp)) => {
                    &&& tcp@ == view
                    &&& final(socket_map)@ == with_socket(
                        old(socket_map)@,
                        self.socket.id as int,
                        SocketView::Tcp((*final(tcp))@),
                    )
                },
                (Err(expected), Err(error)) => {
                    &&& error == expected
                    &&& final(socket_map)@ == old(socket_map)@
                },
                _ => false,
            },
    {
        match socket_map.get_mut(self.socket) {
            Ok(entry) => entry.async_socket.as_tcp_mut(),
            Err(error) => Err(error),
        }
    }

    /// The event socket.
    pub fn event_ref<'a>(&self, socket_map: &'a SocketMap) -> (event: IoResult<
        &'a AsyncEventSocket,
    >)
        ensures
            match (
                events_of(socket_map@, self.socket.id as int, crate::socket::not_listener()),
                event,
            ) {
                (Ok(events), Ok(event)) => event@ == events,
                (Err(expected), Err(error)) => error == expected,
                _ => false,
            },
    {
        let entry = socket_map.get(self.socket)?;
        entry.async_socket.as_event_ref()
    }

    /// The event socket, to be changed.
    pub fn event_mut<'a>(&self, socket_map: &'a mut SocketMap) -> (event: IoResult<
        &'a mut AsyncEventSocket,
    >)
        ensures
            match (
                events_of(old(socket_map)@, self.socket.id as int, crate::socket::not_listener()),
                event,
            ) {
                (Ok(events), Ok(event)) => {
                    &&& event@ == events
                    &&& final(socket_map)@ == with_socket(
                        old(socket_map)@,
                        self.socket.id as int,
                        SocketView::Event((*final(event))@),
                    )
                },
                (Err(expected), Err(error)) => {
                    &&& error == expected
                    &&& final(socket_map)@ == old(socket_map)@
                },
                _ => false,
            },
    {
        match socket_map.get_mut(self.socket) {
            Ok(entry) => entry.async_socket.as_event_mut(),
            Err(error) => Err(error),
        }
    }

    /// The waker socket.
    pub fn waker_ref<'a>(&self, socket_map: &'a SocketMap) -> (waker: IoResult<
        &'a AsyncWakerSocket,
    >)
        ensures
            match (waker_of(socket_map@, self.socket.id as int), waker) {
                (Ok(view), Ok(waker)) => *waker == view,
                (Err(expected), Err(error)) => error == expected,
                _ => false,
            },
    {
        let entry = socket_map.get(self.socket)?;
        entry.async_socket.as_waker_ref()
    }

    /// The waker socket, to be changed.
    pub fn waker_mut<'a>(&self, socket_map: &'a mut SocketMap) -> (waker: IoResult<
        &'a mut AsyncWakerSocket,
    >)
        ensures
            match (waker_of(old(socket_map)@, self.socket.id as int), waker) {
                (Ok(view), Ok(waker)) => {
                    &&& *waker == view
                    &&& final(socket_map)@ == with_socket(
                        old(socket_map)@,
                        self.socket.id as int,
                        SocketView::Waker(*final(waker)),
                    )
                },
                (Err(expected), Err(error)) => {
                    &&& error == expected
                    &&& final(socket_map)@ == old(socket_map)@
                },
                _ => false,
            },
    {
        match socket_map.get_mut(self.socket) {
            Ok(entry) => entry.async_socket.as_waker_mut(),
            Err(error) => Err(error),
        }
    }
}

/// A socket is found as what it is, and as nothing else: a number that names none tells that there
/// is no such socket, and one of another kind that it is no such socket.
pub proof fn law_socket_is_found_as_what_it_is(
    map: Seq<Option<EntryView>>,
    id: int,
    other: Error,
)
    ensures
        match crate::socket_map::lookup(map, id) {
            None => {
                &&& tcp_of(map, id) matches Err(error) && error.kind
                    == crate::io::ErrorKind::NotSocket
                &&& events_of(map, id, other) matches Err(error) && error.kind
                    == crate::io::ErrorKind::NotSocket
                &&& waker_of(map, id) matches Err(error) && error.kind
                    == crate::io::ErrorKind::NotSocket
            },
            Some(entry) => {
                &&& match entry.socket {
                    SocketView::Tcp(tcp) => tcp_of(map, id) == Ok::<TcpSocketView, Error>(tcp),
                    _ => tcp_of(map, id) matches Err(error) && error.kind
                        == crate::io::ErrorKind::InvalidInput,
                }
                &&& match entry.socket {
                    SocketView::Event(events) => events_of(map, id, other) == Ok::<
                        Seq<Event>,
                        Error,
                    >(events),
                    _ => events_of(map, id, other) == Err::<Seq<Event>, Error>(other),
                }
                &&& match entry.socket {
                    SocketView::Waker(waker) => waker_of(map, id) == Ok::<
                        AsyncWakerSocket,
                        Error,
                    >(waker),
                    _ => waker_of(map, id) matches Err(error) && error.kind
                        == crate::io::ErrorKind::InvalidInput,
                }
            },
        },
{
}

/// Replacing a socket leaves the other sockets as they are, and all that is kept of it but itself.
pub proof fn law_only_the_socket_is_replaced(
    map: Seq<Option<EntryView>>,
    id: int,
    socket: SocketView,
    other: int,
)
    requires
        crate::socket_map::lookup(map, id) is Some,
    ensures
        crate::socket_map::lookup(with_socket(map, id, socket), id) == Some(
            EntryView { socket, ..crate::socket_map::lookup(map, id)->0 },
        ),
        other != id ==> crate::socket_map::lookup(with_socket(map, id, socket), other)
            == crate::socket_map::lookup(map, other),
        with_socket(map, id, socket).len() == map.len(),
{
}

} // verus!
