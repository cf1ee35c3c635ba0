//! I/O results of the socket interface.
use vstd::prelude::*;

verus! {

/// Result of an operation on a socket.
pub type IoResult<T> = core::result::Result<T, Error>;

/// An I/O error: what went wrong and a short description of it.
#[derive(Debug, Clone, Copy, PartialEq, Eq)]
pub struct Error {
    pub kind: ErrorKind,
    pub msg: &'static str,
}

impl Error {
    /// Creates a new I/O error.
    pub fn new(kind: ErrorKind, msg: &'static str) -> (error: Self)
        ensures
            error == (Error { kind, msg }),
    {
        Self { kind, msg }
    }
}

/// The kinds of I/O errors.
#[non_exhaustive]
#[derive(Debug, Clone, Copy, PartialEq, Eq, Structural)]
pub enum ErrorKind {
    /// Creating or adding failed.
    AlreadyExists,
    /// A function was called on an invalid socket.
    NotSocket,
    /// The target address was not found.
    NotFound,
    /// Accept was called on a socket that does not listen.
    NotListening,
    /// The socket is already used for another purpose.
    InUse,
    /// The connection was refused by the peer.
    ConnectionRefused,
    /// The connection was reset by the peer.
    ConnectionReset,
    /// The connection was aborted by the peer.
    ConnectionAborted,
    /// A read from or a write to an unconnected socket.
    NotConnected,
    /// The requested address or port is already in use.
    AddrInUse,
    /// The requested address or port is not available.
    AddrNotAvailable,
    /// The action would block.
    WouldBlock,
    /// An invalid configuration of the arguments, such as an event that is registered on the wrong
    /// type of socket.
    InvalidInput,
    /// The data in the input is invalid, such as an interest for which no events are specified.
    InvalidData,
    /// The action timed out.
    TimedOut,
    /// A write of zero bytes.
    ///
    /// Since a return value of zero from a write indicates an unwritable socket, a zero write,
    /// for which a successful completion would return 0, is disallowed.
    WriteZero,
    /// An internal error.
    Other,
    /// A call that is currently not supported.
    Unsupported,
}

} // verus!
