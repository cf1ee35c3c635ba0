//! Entries that hold the handles of a socket together with what is known of it.
use vstd::prelude::*;

use smoltcp::socket::SocketHandle;

use crate::io::{Error, ErrorKind, IoResult};
use crate::net::{SocketInfo, SocketType};

verus! {

/// The handles of a socket.
#[derive(Debug)]
pub enum Inner {
    Handle(SocketHandle),
    /// Those of a listening socket.
    Backlog(Vec<SocketHandle>),
}

/// The handles of a socket and what is known of it.
#[derive(Debug)]
pub struct MapEntry {
    pub inner: Inner,
    pub info: SocketInfo,
    pub ref_count: usize,
}

/// The error of a socket that is no TCP socket.
pub open spec fn not_tcp() -> Error {
    Error { kind: ErrorKind::InvalidInput, msg: "socket is not a tcp socket" }
}

/// The error of an operation that a listening socket does not have.
pub open spec fn listening() -> Error {
    Error { kind: ErrorKind::InvalidInput, msg: "socket is listening" }
}

/// The error of an operation that only a listening socket has.
pub open spec fn not_listening() -> Error {
    Error { kind: ErrorKind::InvalidInput, msg: "socket is not listening" }
}

impl MapEntry {
    /// Takes handles for a backlog, and leaves the entry as it is.
    pub fn add_tcp_backlog(&mut self, _handles: Vec<SocketHandle>)
        ensures
            *final(self) == *old(self),
    {
    }

    /// The one handle of a TCP socket, and what is known of it.
    pub fn as_tcp_handle_mut(&self) -> (result: IoResult<(SocketHandle, SocketInfo)>)
        ensures
            result == (match (self.info.socket_type, self.inner) {
                (SocketType::Tcp(_), Inner::Handle(handle)) => Ok::<
                    (SocketHandle, SocketInfo),
                    Error,
                >((handle, self.info)),
                (SocketType::Tcp(_), Inner::Backlog(_)) => Err(listening()),
                _ => Err(not_tcp()),
            }),
    {
        if let SocketType::Tcp(_) = self.info.socket_type {
            if let Inner::Handle(handle) = &self.inner {
                Ok((*handle, self.info))
            } else {
                Err(Error::new(ErrorKind::InvalidInput, "socket is listening"))
            }
        } else {
            Err(Error::new(ErrorKind::InvalidInput, "socket is not a tcp socket"))
        }
    }

    /// The handles of a listening TCP socket, and what is known of it, to be changed.
    pub fn as_tcp_backlog_mut(&mut self) -> (result: IoResult<
        (&mut Vec<SocketHandle>, &mut SocketInfo),
    >)
        ensures
            match result {
                Ok((handles, info)) => {
                    &&& old(self).info.socket_type is Tcp
                    &&& old(self).inner == Inner::Backlog(*handles)
                    &&& old(self).info == *info
                    &&& *final(self) == MapEntry {
                        inner: Inner::Backlog(*final(handles)),
                        info: *final(info),
                        ..*old(self)
                    }
                },
                Err(error) => {
                    &&& *final(self) == *old(self)
                    &&& if old(self).info.socket_type is Tcp {
                        old(self).inner is Handle && error == not_listening()
                    } else {
                        error == not_tcp()
                    }
                },
            },
    {
        if let SocketType::Tcp(_) = self.info.socket_type {
            if let Inner::Backlog(handles) = &mut self.inner {
                Ok((handles, &mut self.info))
            } else {
                Err(Error::new(ErrorKind::InvalidInput, "socket is not listening"))
            }
        } else {
            Err(Error::new(ErrorKind::InvalidInput, "socket is not a tcp socket"))
        }
    }
}

/// Using an entry as what it is not is an invalid input.
pub proof fn law_wrong_entry_is_invalid_input()
    ensures
        not_tcp().kind == ErrorKind::InvalidInput,
        listening().kind == ErrorKind::InvalidInput,
        not_listening().kind == ErrorKind::InvalidInput,
{
}

} // verus!
