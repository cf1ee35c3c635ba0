//! Calls on handles, which are no longer served: each fails.
use vstd::prelude::*;

use smoltcp::socket::SocketHandle;

use crate::endpoint::IpAddress;

verus! {

/// Connecting by a handle is not served.
pub fn sys_tcp_stream_connect(_ip_slice: &[u8], _port: u16, _timeout: Option<u64>) -> (result:
    Result<SocketHandle, ()>)
    ensures
        result == Err::<SocketHandle, ()>(()),
{
    Err(())
}

/// Reading by a handle is not served.
pub fn sys_tcp_stream_read(_handle: SocketHandle, _buffer: &mut [u8]) -> (result: Result<usize, ()>)
    ensures
        result == Err::<usize, ()>(()),
        final(_buffer)@ == old(_buffer)@,
{
    Err(())
}

/// Writing by a handle is not served.
pub fn sys_tcp_stream_write(_handle: SocketHandle, _buffer: &[u8]) -> (result: Result<usize, ()>)
    ensures
        result == Err::<usize, ()>(()),
{
    Err(())
}

/// Closing by a handle is not served.
pub fn sys_tcp_stream_close(_handle: SocketHandle) -> (result: Result<(), ()>)
    ensures
        result == Err::<(), ()>(()),
{
    Err(())
}

/// Shutting down by a handle is not served.
pub fn sys_tcp_stream_shutdown(_handle: SocketHandle, _how: i32) -> (result: Result<(), ()>)
    ensures
        result == Err::<(), ()>(()),
{
    Err(())
}

/// Setting the timeout for reading by a handle is not served.
pub fn sys_tcp_stream_set_read_timeout(_handle: SocketHandle, _timeout: Option<u64>) -> (result:
    Result<(), ()>)
    ensures
        result == Err::<(), ()>(()),
{
    Err(())
}

/// Asking for the timeout for reading by a handle is not served.
pub fn sys_tcp_stream_get_read_timeout(_handle: SocketHandle) -> (result: Result<Option<u64>, ()>)
    ensures
        result == Err::<Option<u64>, ()>(()),
{
    Err(())
}

/// Setting the timeout for writing by a handle is not served.
pub fn sys_tcp_stream_set_write_timeout(_handle: SocketHandle, _timeout: Option<u64>) -> (result:
    Result<(), ()>)
    ensures
        result == Err::<(), ()>(()),
{
    Err(())
}

/// Asking for the timeout for writing by a handle is not served.
pub fn sys_tcp_stream_get_write_timeout(_handle: SocketHandle) -> (result: Result<Option<u64>, ()>)
    ensures
        result == Err::<Option<u64>, ()>(()),
{
    Err(())
}

/// Duplicating a handle is not served.
pub fn sys_tcp_stream_duplicate(_handle: SocketHandle) -> (result: Result<SocketHandle, ()>)
    ensures
        result == Err::<SocketHandle, ()>(()),
{
    Err(())
}

/// Looking at what there is to be read by a handle is not served.
pub fn sys_tcp_stream_peek(_handle: SocketHandle, _buf: &mut [u8]) -> (result: Result<usize, ()>)
    ensures
        result == Err::<usize, ()>(()),
        final(_buf)@ == old(_buf)@,
{
    Err(())
}

/// Setting by a handle whether calls wait is not served.
pub fn sys_tcp_stream_set_nonblocking(_handle: SocketHandle, _mode: bool) -> (result: Result<
    (),
    (),
>)
    ensures
        result == Err::<(), ()>(()),
{
    Err(())
}

/// Setting the hop limit by a handle is not served.
pub fn sys_tcp_stream_set_tll(_handle: SocketHandle, _ttl: u32) -> (result: Result<(), ()>)
    ensures
        result == Err::<(), ()>(()),
{
    Err(())
}

/// Asking for the hop limit by a handle is not served.
pub fn sys_tcp_stream_get_tll(_handle: SocketHandle) -> (result: Result<u32, ()>)
    ensures
        result == Err::<u32, ()>(()),
{
    Err(())
}

/// Asking for the remote address by a handle is not served.
pub fn sys_tcp_stream_peer_addr(_handle: SocketHandle) -> (result: Result<(IpAddress, u16), ()>)
    ensures
        result == Err::<(IpAddress, u16), ()>(()),
{
    Err(())
}

/// Accepting a connection by a port is not served.
pub fn sys_tcp_listener_accept(_port: u16) -> (result: Result<(SocketHandle, IpAddress, u16), ()>)
    ensures
        result == Err::<(SocketHandle, IpAddress, u16), ()>(()),
{
    Err(())
}

} // verus!
