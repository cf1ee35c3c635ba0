//! The calls of the socket interface: TCP sockets.
use vstd::prelude::*;

use smoltcp::socket::SocketHandle;
use std::task::Waker;

use crate::endpoint::{addr_to_endpoint, endpoint_to_addr, LocalEndpoint};
use crate::io::{Error, IoResult};
use crate::net::{Shutdown, Socket, SocketAddr};
use crate::nic::{NetworkInterface, TCP_BUFFER_SIZE};
use crate::poll::{Behaviour, Execution, PollSocket, PollSockets, TcpPoll};
use crate::smol::TcpModel;
use crate::socket::{AsyncSocket, AsyncSocketProxy, SocketView};
use crate::socket_map::{EntryView, Options, SocketMap};
use crate::tcp::{
    AsyncTcpSocket, Connected, Held, IncomingConnection, Readable, TcpSocketView, Writable,
};
use crate::turn::{pass, pass_incoming, Gate, Passage, Step, Turn};

verus! {

broadcast use vstd::map::group_map_axioms;

/// The sockets after one of them became a TCP socket.
pub open spec fn with_tcp(
    map: Seq<Option<EntryView>>,
    id: int,
    tcp: TcpSocketView,
) -> Seq<Option<EntryView>> {
    map.update(
        id,
        Some(EntryView { socket: SocketView::Tcp(tcp), ..crate::socket_map::lookup(map, id)->0 }),
    )
}

/// Makes a socket a TCP socket that is bound to a local address. What it was before is given up.
///
/// The new socket of the interface is made in any case; if there is no such socket, nobody holds
/// it.
pub fn sys_tcp_bind(
    socket_map: &mut SocketMap,
    nic: &mut NetworkInterface,
    wakes: &mut Vec<Waker>,
    socket: Socket,
    local: SocketAddr,
) -> (result: IoResult<()>)
    requires
        old(socket_map).wf(*old(nic)),
        old(nic).wf(),
    ensures
        result == crate::sys::if_known(old(socket_map)@, socket.id as int),
        final(wakes)@ == old(wakes)@ + crate::sys::tasks_of(old(socket_map)@, socket.id as int),
        exists|handle: SocketHandle|
            {
                &&& !(#[trigger] old(nic).tcp().dom().contains(handle))
                &&& final(socket_map)@ == crate::sys::bound(
                    old(socket_map)@,
                    socket.id as int,
                    SocketView::Tcp(
                        TcpSocketView::fresh(handle, crate::endpoint::endpoint_of(local)),
                    ),
                )
                &&& final(nic).tcp() == crate::smol::released(
                    old(nic).tcp().insert(handle, TcpModel::fresh(TCP_BUFFER_SIZE as nat)),
                    if crate::socket_map::lookup(old(socket_map)@, socket.id as int) is Some {
                        crate::socket_map::held(old(socket_map)@, socket.id as int).to_set()
                    } else {
                        set![handle]
                    },
                )
            },
        final(nic).same_but_sockets(*old(nic)),
        final(socket_map).wf(*final(nic)),
{
    let ghost tcp = nic.tcp();
    let local = addr_to_endpoint(local);
    let tcp_socket = AsyncTcpSocket::new(local, nic);
    let ghost handle = tcp_socket@.held->Handle_0;
    let async_socket = AsyncSocket::from(tcp_socket);
    proof {
        assert(async_socket@.handles() =~= seq![handle]);
        assert(seq![handle].to_set() =~= set![handle]) by {
            assert(seq![handle][0] == handle);
        }
        crate::socket_map::lemma_owned_kept((socket_map@, tcp), (socket_map@, nic.tcp()));
        assert forall|id: int, other: SocketHandle| #[trigger]
            crate::socket_map::held(socket_map@, id).contains(
                other,
            ) implies !async_socket@.handles().contains(other) by {
            assert(tcp.dom().contains(other));
        }
        assert(wakes@ + seq![] =~= wakes@);
    }
    let result = socket_map.bind_socket(socket, async_socket, nic, wakes);
    assert(!tcp.dom().contains(handle));
    result
}

/// Sets the hop limit of what a TCP socket sends; none for the default one.
pub fn sys_tcp_set_hop_limit(
    socket_map: &SocketMap,
    nic: &mut NetworkInterface,
    socket: Socket,
    hop_limit: Option<u8>,
) -> (result: IoResult<()>)
    requires
        socket_map.wf(*old(nic)),
        crate::proxy::tcp_of(socket_map@, socket.id as int) matches Ok(tcp) && tcp.held is Handle
            ==> hop_limit != Some(0u8),
    ensures
        match crate::proxy::tcp_of(socket_map@, socket.id as int) {
            Ok(TcpSocketView { held: Held::Handle(handle), .. }) => {
                &&& result == Ok::<(), Error>(())
                &&& final(nic).tcp() == old(nic).tcp().insert(
                    handle,
                    TcpModel { hop_limit, ..old(nic).tcp()[handle] },
                )
                &&& final(nic).woken
            },
            other => {
                &&& result == Err::<(), Error>(
                    match other {
                        Ok(_) => crate::tcp::listening(),
                        Err(error) => error,
                    },
                )
                &&& final(nic).tcp() == old(nic).tcp()
                &&& final(nic).woken == old(nic).woken
            },
        },
        final(nic).prev_cidr == old(nic).prev_cidr,
        final(nic).wf() == old(nic).wf(),
        socket_map.wf(*final(nic)),
{
    proof {
        crate::socket_map::lemma_owned_live(socket_map@, nic.tcp(), socket.id as int);
    }
    let entry = socket_map.get(socket)?;
    let tcp = entry.async_socket.as_tcp_ref()?;
    let result = tcp.set_hop_limit(nic, hop_limit);
    proof {
        crate::socket_map::lemma_owned_kept(
            (socket_map@, old(nic).tcp()),
            (socket_map@, nic.tcp()),
        );
    }
    result
}

/// The hop limit of what a TCP socket sends; none if it is the default one.
pub fn sys_tcp_hop_limit(
    socket_map: &SocketMap,
    nic: &mut NetworkInterface,
    socket: Socket,
) -> (result: IoResult<Option<u8>>)
    requires
        socket_map.wf(*old(nic)),
    ensures
        result == (match crate::proxy::tcp_of(socket_map@, socket.id as int) {
            Ok(tcp) => match tcp.held {
                Held::Handle(handle) => Ok::<Option<u8>, Error>(old(nic).tcp()[handle].hop_limit),
                Held::Backlog(_) => Err(crate::tcp::listening()),
            },
            Err(error) => Err(error),
        }),
        final(nic).tcp() == old(nic).tcp(),
        final(nic).same_but_sockets(*old(nic)),
{
    proof {
        crate::socket_map::lemma_owned_live(socket_map@, nic.tcp(), socket.id as int);
    }
    let entry = socket_map.get(socket)?;
    let tcp = entry.async_socket.as_tcp_ref()?;
    tcp.hop_limit(nic)
}

/// The local address that a TCP socket is bound to.
pub fn sys_tcp_local_addr(socket_map: &SocketMap, socket: Socket) -> (result: IoResult<SocketAddr>)
    ensures
        result == (match crate::proxy::tcp_of(socket_map@, socket.id as int) {
            Ok(tcp) => Ok::<SocketAddr, Error>(crate::endpoint::socket_addr_of(tcp.local)),
            Err(error) => Err(error),
        }),
{
    let entry = socket_map.get(socket)?;
    let tcp = entry.async_socket.as_tcp_ref()?;
    Ok(endpoint_to_addr(tcp.local_addr()))
}

/// The remote address that a TCP socket is connected to.
pub fn sys_tcp_remote_addr(
    socket_map: &SocketMap,
    nic: &mut NetworkInterface,
    socket: Socket,
) -> (result: IoResult<SocketAddr>)
    requires
        socket_map.wf(*old(nic)),
    ensures
        result == (match crate::proxy::tcp_of(socket_map@, socket.id as int) {
            Ok(tcp) => match tcp.remote(old(nic).tcp()) {
                Ok(remote) => Ok::<SocketAddr, Error>(crate::endpoint::socket_addr_of(remote)),
                Err(error) => Err(error),
            },
            Err(error) => Err(error),
        }),
        final(nic).tcp() == old(nic).tcp(),
        final(nic).same_but_sockets(*old(nic)),
{
    proof {
        crate::socket_map::lemma_owned_live(socket_map@, nic.tcp(), socket.id as int);
    }
    let entry = socket_map.get(socket)?;
    let tcp = entry.async_socket.as_tcp_ref()?;
    let remote = tcp.remote_addr(nic)?;
    Ok(endpoint_to_addr(remote))
}

/// The most connections that may come in at a time on a listening socket.
pub const MAX_BACKLOG: usize = 32;

/// Makes a TCP socket listen for connections. More connections at a time than there may be are cut
/// down to those.
pub fn sys_tcp_listen(
    socket_map: &mut SocketMap,
    nic: &mut NetworkInterface,
    wakes: &mut Vec<Waker>,
    socket: Socket,
    backlog: usize,
) -> (result: IoResult<()>)
    requires
        old(socket_map).wf(*old(nic)),
        old(nic).wf(),
    ensures
        match crate::proxy::tcp_of(old(socket_map)@, socket.id as int) {
            Ok(tcp) => match tcp.listen_error(old(nic).tcp()) {
                None => {
                    let id = socket.id as int;
                    let handle = tcp.held->Handle_0;
                    let handles = crate::socket_map::held(final(socket_map)@, id);
                    &&& result == Ok::<(), Error>(())
                    &&& handles.len() == (if backlog <= MAX_BACKLOG {
                        backlog
                    } else {
                        MAX_BACKLOG
                    })
                    &&& handles.no_duplicates()
                    &&& forall|i: int|
                        0 <= i < handles.len() ==> !old(nic).tcp().dom().contains(
                            #[trigger] handles[i],
                        )
                    &&& final(socket_map)@ == crate::sys::bound(
                        old(socket_map)@,
                        id,
                        SocketView::Tcp(TcpSocketView { held: Held::Backlog(handles), ..tcp }),
                    )
                    &&& final(nic).tcp() == crate::smol::released(
                        old(nic).tcp(),
                        set![handle],
                    ).union_prefer_right(
                        Map::new(
                            |new: SocketHandle| handles.contains(new),
                            |new: SocketHandle|
                                crate::tcp::duplicated(old(nic).tcp()[handle]).told_to_listen(
                                    tcp.local,
                                ),
                        ),
                    )
                    &&& final(wakes)@ == old(wakes)@ + crate::sys::tasks_of(old(socket_map)@, id)
                },
                Some(error) => {
                    &&& result == Err::<(), Error>(error)
                    &&& final(socket_map)@ == old(socket_map)@
                    &&& final(nic).tcp() == old(nic).tcp()
                    &&& final(wakes)@ == old(wakes)@
                },
            },
            Err(error) => {
                &&& result == Err::<(), Error>(error)
                &&& final(socket_map)@ == old(socket_map)@
                &&& final(nic).tcp() == old(nic).tcp()
                &&& final(wakes)@ == old(wakes)@
            },
        },
        final(nic).same_but_sockets(*old(nic)),
        final(socket_map).wf(*final(nic)),
{
    let ghost id = socket.id as int;
    let ghost before = (socket_map@, nic.tcp());
    proof {
        crate::socket_map::lemma_owned_live(before.0, before.1, id);
    }
    let mut backlog: usize = backlog;
    if backlog > MAX_BACKLOG {
        backlog = MAX_BACKLOG;
    }
    let result = match socket_map.get_mut(socket) {
        Ok(entry) => match entry.async_socket.as_tcp_mut() {
            Ok(tcp) => match tcp.listen(nic, backlog) {
                Ok(()) => {
                    entry.wake_tasks(wakes);
                    Ok(())
                },
                Err(error) => Err(error),
            },
            Err(error) => Err(error),
        },
        Err(error) => Err(error),
    };
    proof {
        if result is Ok {
            let tcp = crate::proxy::tcp_of(before.0, id)->Ok_0;
            let handle = tcp.held->Handle_0;
            let handles = crate::socket_map::held(socket_map@, id);
            assert(crate::socket_map::held(before.0, id) == seq![handle]);
            assert(crate::socket_map::held(before.0, id)[0] == handle);
            assert(crate::socket_map::held(before.0, id).contains(handle));
            assert forall|new: SocketHandle| #[trigger] handles.contains(new) implies nic.tcp().dom()
                .contains(new) && nic.tcp()[new].refs > 0 by {}
            assert forall|other: int, kept: SocketHandle|
                other != id && #[trigger] crate::socket_map::held(before.0, other).contains(
                    kept,
                ) implies {
                &&& !handles.contains(kept)
                &&& nic.tcp().dom().contains(kept)
                &&& nic.tcp()[kept].refs > 0
            } by {
                assert(before.1.dom().contains(kept));
                assert(kept != handle);
            }
            crate::socket_map::lemma_owned_changed(before, (socket_map@, nic.tcp()), id);
        } else {
            assert(socket_map@ =~= before.0);
        }
    }
    result
}

/// A TCP socket after reading, writing or both were ended on it.
pub open spec fn shut(tcp: TcpSocketView, mode: Shutdown) -> TcpSocketView {
    match mode {
        Shutdown::Read => TcpSocketView { allow_read: false, ..tcp },
        Shutdown::Write => TcpSocketView { allow_write: false, ..tcp },
        Shutdown::Both => TcpSocketView { allow_read: false, allow_write: false, ..tcp },
    }
}

/// Ends reading, writing or both on a TCP socket.
pub fn sys_tcp_shutdown(socket_map: &mut SocketMap, socket: Socket, mode: Shutdown) -> (result:
    IoResult<()>)
    ensures
        match crate::proxy::tcp_of(old(socket_map)@, socket.id as int) {
            Ok(tcp) => {
                &&& result == Ok::<(), Error>(())
                &&& final(socket_map)@ == with_tcp(
                    old(socket_map)@,
                    socket.id as int,
                    shut(tcp, mode),
                )
                &&& final(socket_map)@ == with_tcp(
                    old(socket_map)@,
                    socket.id as int,
                    TcpSocketView {
                        allow_read: tcp.allow_read && mode is Write,
                        allow_write: tcp.allow_write && mode is Read,
                        ..tcp
                    },
                )
            },
            Err(error) => {
                &&& result == Err::<(), Error>(error)
                &&& final(socket_map)@ == old(socket_map)@
            },
        },
        forall|nic: NetworkInterface|
            old(socket_map).wf(nic) ==> #[trigger] final(socket_map).wf(nic),
{
    let result = match socket_map.get_mut(socket) {
        Ok(entry) => match entry.async_socket.as_tcp_mut() {
            Ok(tcp) => {
                match mode {
                    Shutdown::Read => tcp.rclose(),
                    Shutdown::Write => tcp.wclose(),
                    Shutdown::Both => {
                        tcp.rclose();
                        tcp.wclose();
                    },
                }
                Ok(())
            },
            Err(error) => Err(error),
        },
        Err(error) => Err(error),
    };
    proof {
        crate::sys::lemma_same_sockets(*old(socket_map), *socket_map);
    }
    result
}

/// What comes of reading from a socket of the map.
pub open spec fn reading(
    map: Seq<Option<EntryView>>,
    tcp: Map<SocketHandle, TcpModel>,
    id: int,
    len: int,
) -> IoResult<Option<usize>> {
    match crate::proxy::tcp_of(map, id) {
        Ok(socket) => socket.reads(tcp, len),
        Err(error) => Err(error),
    }
}

/// Reads from a TCP socket, or looks at what there is to be read.
fn receive(
    socket_map: &SocketMap,
    nic: &mut NetworkInterface,
    socket: Socket,
    buf: &mut [u8],
    peek: bool,
    step: Step,
) -> (turn: Turn<usize, PollSocket<Readable>>)
    requires
        socket_map.wf(*old(nic)),
        crate::turn::countable(socket_map@, old(nic).tcp(), socket.id as int),
    ensures
        received(
            socket_map@,
            (*old(nic), old(buf)@),
            (*final(nic), final(buf)@),
            socket,
            peek,
            step,
            turn,
        ),
        socket_map.wf(*final(nic)),
{
    match pass(Readable, socket_map, nic, socket, step) {
        Passage::Fail(error) => Turn::Done(Err(error)),
        Passage::Wait(options, wait) => Turn::Wait(options, wait),
        Passage::Pass(options) => {
            proof {
                crate::socket_map::lemma_owned_live(socket_map@, nic.tcp(), socket.id as int);
            }
            let tcp = match AsyncSocketProxy::new(socket).tcp_ref(socket_map) {
                Ok(tcp) => tcp,
                Err(error) => {
                    return Turn::Done(Err(error));
                },
            };
            let result = tcp.read(nic, buf, peek);
            proof {
                crate::socket_map::lemma_owned_kept(
                    (socket_map@, old(nic).tcp()),
                    (socket_map@, nic.tcp()),
                );
            }
            match result {
                Ok(Some(n)) => Turn::Done(Ok(n)),
                Ok(None) => Turn::Retry(options),
                Err(error) => Turn::Done(Err(error)),
            }
        },
    }
}

/// How the interface and the buffer of the caller change, and what a turn of reading comes to.
pub open spec fn received(
    map: Seq<Option<EntryView>>,
    before: (NetworkInterface, Seq<u8>),
    after: (NetworkInterface, Seq<u8>),
    socket: Socket,
    peek: bool,
    step: Step,
    turn: Turn<usize, PollSocket<Readable>>,
) -> bool {
    let id = socket.id as int;
    let tcp = before.0.tcp();
    &&& after.0.prev_cidr == before.0.prev_cidr
    &&& after.0.wf() == before.0.wf()
    &&& match crate::turn::gate(Readable, map, tcp, id, step) {
        Gate::Fail(error) => {
            &&& turn == Turn::<usize, PollSocket<Readable>>::Done(Err(error))
            &&& after.0.tcp() == tcp
            &&& after.0.woken == before.0.woken
            &&& after.1 == before.1
        },
        Gate::Wait(options) => {
            let wait = crate::turn::wait_on(Readable, map, socket, options);
            &&& turn == Turn::<usize, PollSocket<Readable>>::Wait(options, wait)
            &&& after.0.tcp() == crate::smol::retained(tcp, set![wait.raw.handle.0])
            &&& after.0.woken == before.0.woken
            &&& after.1 == before.1
        },
        Gate::Pass(options) => {
            let result = reading(map, tcp, id, before.1.len() as int);
            &&& turn == crate::turn::finished::<usize, PollSocket<Readable>>(result, options)
            &&& after.0.woken == (before.0.woken || (crate::proxy::tcp_of(map, id) matches Ok(socket)
                && socket.allow_read && socket.held is Handle))
            &&& match result {
                Ok(Some(n)) => {
                    let handle = (crate::proxy::tcp_of(map, id)->Ok_0).held->Handle_0;
                    &&& n <= before.1.len()
                    &&& n <= tcp[handle].rx.len()
                    &&& n == 0 ==> before.1.len() == 0
                    &&& after.1 == tcp[handle].rx.take(n as int) + before.1.skip(n as int)
                    &&& after.0.tcp() == (if peek {
                        tcp
                    } else {
                        tcp.insert(handle, tcp[handle].received(n as int))
                    })
                },
                _ => after.1 == before.1 && after.0.tcp() == tcp,
            }
        },
    }
}

/// Reads from a TCP socket, once there is something to read.
pub fn sys_tcp_read(
    socket_map: &SocketMap,
    nic: &mut NetworkInterface,
    socket: Socket,
    buf: &mut [u8],
    step: Step,
) -> (turn: Turn<usize, PollSocket<Readable>>)
    requires
        socket_map.wf(*old(nic)),
        crate::turn::countable(socket_map@, old(nic).tcp(), socket.id as int),
    ensures
        received(
            socket_map@,
            (*old(nic), old(buf)@),
            (*final(nic), final(buf)@),
            socket,
            false,
            step,
            turn,
        ),
        socket_map.wf(*final(nic)),
{
    receive(socket_map, nic, socket, buf, false, step)
}

/// Looks at what there is to be read from a TCP socket, once there is something, and leaves it
/// there.
pub fn sys_tcp_peek(
    socket_map: &SocketMap,
    nic: &mut NetworkInterface,
    socket: Socket,
    buf: &mut [u8],
    step: Step,
) -> (turn: Turn<usize, PollSocket<Readable>>)
    requires
        socket_map.wf(*old(nic)),
        crate::turn::countable(socket_map@, old(nic).tcp(), socket.id as int),
    ensures
        received(
            socket_map@,
            (*old(nic), old(buf)@),
            (*final(nic), final(buf)@),
            socket,
            true,
            step,
            turn,
        ),
        socket_map.wf(*final(nic)),
{
    receive(socket_map, nic, socket, buf, true, step)
}

/// What comes of writing to a socket of the map.
pub open spec fn writing(
    map: Seq<Option<EntryView>>,
    tcp: Map<SocketHandle, TcpModel>,
    id: int,
    len: int,
) -> IoResult<Option<usize>> {
    match crate::proxy::tcp_of(map, id) {
        Ok(socket) => socket.writes(tcp, len),
        Err(error) => Err(error),
    }
}

/// How the interface changes, and what a turn of writing comes to.
pub open spec fn sent(
    map: Seq<Option<EntryView>>,
    before: NetworkInterface,
    after: NetworkInterface,
    socket: Socket,
    buf: Seq<u8>,
    step: Step,
    turn: Turn<usize, PollSocket<Writable>>,
) -> bool {
    let id = socket.id as int;
    let tcp = before.tcp();
    &&& after.prev_cidr == before.prev_cidr
    &&& after.wf() == before.wf()
    &&& match crate::turn::gate(Writable, map, tcp, id, step) {
        Gate::Fail(error) => {
            &&& turn == Turn::<usize, PollSocket<Writable>>::Done(Err(error))
            &&& after.tcp() == tcp
            &&& after.woken == before.woken
        },
        Gate::Wait(options) => {
            let wait = crate::turn::wait_on(Writable, map, socket, options);
            &&& turn == Turn::<usize, PollSocket<Writable>>::Wait(options, wait)
            &&& after.tcp() == crate::smol::retained(tcp, set![wait.raw.handle.0])
            &&& after.woken == before.woken
        },
        Gate::Pass(options) => {
            let result = writing(map, tcp, id, buf.len() as int);
            &&& turn == crate::turn::finished::<usize, PollSocket<Writable>>(result, options)
            &&& after.woken == (before.woken || (crate::proxy::tcp_of(map, id) matches Ok(socket)
                && socket.allow_write && buf.len() > 0 && socket.held is Handle))
            &&& after.tcp() == (match result {
                Ok(Some(n)) => {
                    let handle = (crate::proxy::tcp_of(map, id)->Ok_0).held->Handle_0;
                    tcp.insert(handle, tcp[handle].sending(buf.take(n as int)))
                },
                _ => tcp,
            })
        },
    }
}

/// Writes to a TCP socket, once it can be written to.
pub fn sys_tcp_write(
    socket_map: &SocketMap,
    nic: &mut NetworkInterface,
    socket: Socket,
    buf: &[u8],
    step: Step,
) -> (turn: Turn<usize, PollSocket<Writable>>)
    requires
        socket_map.wf(*old(nic)),
        crate::turn::countable(socket_map@, old(nic).tcp(), socket.id as int),
    ensures
        sent(socket_map@, *old(nic), *final(nic), socket, buf@, step, turn),
        socket_map.wf(*final(nic)),
{
    match pass(Writable, socket_map, nic, socket, step) {
        Passage::Fail(error) => Turn::Done(Err(error)),
        Passage::Wait(options, wait) => Turn::Wait(options, wait),
        Passage::Pass(options) => {
            proof {
                crate::socket_map::lemma_owned_live(socket_map@, nic.tcp(), socket.id as int);
            }
            let tcp = match AsyncSocketProxy::new(socket).tcp_ref(socket_map) {
                Ok(tcp) => tcp,
                Err(error) => {
                    return Turn::Done(Err(error));
                },
            };
            let result = tcp.write(nic, buf);
            proof {
                crate::socket_map::lemma_owned_kept(
                    (socket_map@, old(nic).tcp()),
                    (socket_map@, nic.tcp()),
                );
            }
            match result {
                Ok(Some(n)) => Turn::Done(Ok(n)),
                Ok(None) => Turn::Retry(options),
                Err(error) => Turn::Done(Err(error)),
            }
        },
    }
}

/// Connects a TCP socket to a remote address: it starts to, and is done once the connection is
/// established or refused. A socket that is bound to port zero connects from a port that is handed
/// out.
pub fn sys_tcp_connect(
    socket_map: &SocketMap,
    nic: &mut NetworkInterface,
    socket: Socket,
    remote: SocketAddr,
    ports: &mut LocalEndpoint,
) -> (turn: Turn<(), PollSocket<Connected>>)
    requires
        socket_map.wf(*old(nic)),
        crate::turn::countable(socket_map@, old(nic).tcp(), socket.id as int),
    ensures
        match crate::proxy::tcp_of(socket_map@, socket.id as int) {
            Err(error) => {
                &&& turn == Turn::<(), PollSocket<Connected>>::Done(Err(error))
                &&& final(nic).tcp() == old(nic).tcp()
            },
            Ok(tcp) => match tcp.connect_error(
                old(nic).tcp(),
                crate::endpoint::endpoint_of(remote),
            ) {
                Some(error) => {
                    &&& turn == Turn::<(), PollSocket<Connected>>::Done(Err(error))
                    &&& final(nic).tcp() == old(nic).tcp()
                },
                None => {
                    let handle = tcp.held->Handle_0;
                    let options = (crate::socket_map::lookup(
                        socket_map@,
                        socket.id as int,
                    )->0).options;
                    let connecting = old(nic).tcp().insert(
                        handle,
                        old(nic).tcp()[handle].told_to_connect(
                            crate::endpoint::endpoint_of(remote),
                            tcp.connects_from(*old(ports)),
                        ),
                    );
                    if options.non_blocking {
                        &&& turn == Turn::<(), PollSocket<Connected>>::Done(
                            crate::poll::once(Connected.outcome(connecting[handle].status())),
                        )
                        &&& final(nic).tcp() == connecting
                    } else {
                        &&& turn == Turn::<(), PollSocket<Connected>>::Wait(
                            options,
                            crate::turn::wait_on(Connected, socket_map@, socket, options),
                        )
                        &&& final(nic).tcp() == crate::smol::retained(connecting, set![handle])
                    }
                },
            },
        },
        *final(ports) == (match crate::proxy::tcp_of(socket_map@, socket.id as int) {
            Ok(tcp) if tcp.draws_port(old(nic).tcp()) => old(ports).advanced(),
            _ => *old(ports),
        }),
        final(nic).woken == (old(nic).woken || (crate::proxy::tcp_of(
            socket_map@,
            socket.id as int,
        ) matches Ok(tcp) && tcp.held is Handle)),
        final(nic).prev_cidr == old(nic).prev_cidr,
        final(nic).wf() == old(nic).wf(),
        socket_map.wf(*final(nic)),
{
    let ghost id = socket.id as int;
    proof {
        crate::socket_map::lemma_owned_live(socket_map@, nic.tcp(), id);
    }
    let entry = match socket_map.get(socket) {
        Ok(entry) => entry,
        Err(error) => {
            return Turn::Done(Err(error));
        },
    };
    let tcp = match entry.async_socket.as_tcp_ref() {
        Ok(tcp) => tcp,
        Err(error) => {
            return Turn::Done(Err(error));
        },
    };
    proof {
        if let Held::Handle(handle) = tcp@.held {
            assert(tcp@.held.handles()[0] == handle);
            assert(crate::socket_map::held(socket_map@, id).contains(handle));
        }
    }
    let raw = match tcp.connect(nic, addr_to_endpoint(remote), ports) {
        Ok(raw) => raw,
        Err(error) => {
            return Turn::Done(Err(error));
        },
    };
    let options = entry.options;
    let wait = raw.with(socket, Behaviour::from(options));
    let ghost handle = tcp@.held->Handle_0;
    let ghost connecting = old(nic).tcp().insert(
        handle,
        old(nic).tcp()[handle].told_to_connect(
            crate::endpoint::endpoint_of(remote),
            tcp@.connects_from(*old(ports)),
        ),
    );
    assert(nic.tcp() =~= crate::smol::retained(connecting, set![handle]));
    proof {
        crate::socket_map::lemma_owned_kept(
            (socket_map@, old(nic).tcp()),
            (socket_map@, nic.tcp()),
        );
    }
    match wait.execute(nic) {
        Execution::Block(_) => Turn::Wait(options, wait),
        Execution::Done(result) => {
            wait.release(nic);
            assert(nic.tcp() =~= connecting);
            proof {
                crate::socket_map::lemma_owned_kept(
                    (socket_map@, old(nic).tcp()),
                    (socket_map@, nic.tcp()),
                );
            }
            Turn::Done(result)
        },
    }
}

/// The sockets after a connection that came in on one of them was accepted as a new one.
pub open spec fn accepted(
    map: Seq<Option<EntryView>>,
    tcp: Map<SocketHandle, TcpModel>,
    id: int,
    new_id: int,
    replacement: SocketHandle,
    options: Options,
) -> Seq<Option<EntryView>> {
    let socket = crate::proxy::tcp_of(map, id)->Ok_0;
    let handles = socket.held->Backlog_0;
    let i = crate::tcp::last_connected(tcp, handles)->0;
    let listening = crate::sys::bound(
        map,
        id,
        SocketView::Tcp(
            TcpSocketView { held: Held::Backlog(handles.remove(i).push(replacement)), ..socket },
        ),
    );
    with_tcp(
        crate::socket_map::with_new(listening, new_id, options),
        new_id,
        TcpSocketView::fresh(handles[i], socket.local),
    )
}

/// Accepts a connection on a listening TCP socket, once one came in. The new socket is called by
/// the same options; its two tasks are to be started.
pub fn sys_tcp_accept(
    socket_map: &mut SocketMap,
    nic: &mut NetworkInterface,
    wakes: &mut Vec<Waker>,
    socket: Socket,
    step: Step,
) -> (turn: Turn<Socket, PollSockets<IncomingConnection>>)
    requires
        old(socket_map).wf(*old(nic)),
        old(nic).wf(),
        crate::turn::countable(old(socket_map)@, old(nic).tcp(), socket.id as int),
    ensures
        match crate::turn::accept_gate(old(socket_map)@, old(nic).tcp(), socket.id as int, step) {
            Gate::Fail(error) => {
                &&& turn == Turn::<Socket, PollSockets<IncomingConnection>>::Done(Err(error))
                &&& final(socket_map)@ == old(socket_map)@
                &&& final(nic).tcp() == old(nic).tcp()
                &&& final(wakes)@ == old(wakes)@
            },
            Gate::Wait(options) => {
                let handles = crate::socket_map::held(old(socket_map)@, socket.id as int);
                &&& turn matches Turn::Wait(same, wait)
                &&& same == options
                &&& wait.handles() == handles
                &&& wait.socket == socket
                &&& wait.behaviour == crate::poll::behaviour_of(options)
                &&& final(socket_map)@ == old(socket_map)@
                &&& final(nic).tcp() == crate::smol::retained(old(nic).tcp(), handles.to_set())
                &&& final(wakes)@ == old(wakes)@
            },
            Gate::Pass(options) => match crate::proxy::tcp_of(old(socket_map)@, socket.id as int) {
                Err(error) => {
                    &&& turn == Turn::<Socket, PollSockets<IncomingConnection>>::Done(Err(error))
                    &&& final(socket_map)@ == old(socket_map)@
                    &&& final(nic).tcp() == old(nic).tcp()
                    &&& final(wakes)@ == old(wakes)@
                },
                Ok(tcp) => match tcp.held {
                    Held::Handle(_) => {
                        &&& turn == Turn::<Socket, PollSockets<IncomingConnection>>::Done(
                            Err(crate::tcp::not_listening()),
                        )
                        &&& final(socket_map)@ == old(socket_map)@
                        &&& final(nic).tcp() == old(nic).tcp()
                        &&& final(wakes)@ == old(wakes)@
                    },
                    Held::Backlog(handles) => match crate::tcp::last_connected(
                        old(nic).tcp(),
                        handles,
                    ) {
                        None => {
                            &&& turn == Turn::<Socket, PollSockets<IncomingConnection>>::Retry(
                                options,
                            )
                            &&& final(socket_map)@ == old(socket_map)@
                            &&& final(nic).tcp() == old(nic).tcp()
                            &&& final(wakes)@ == old(wakes)@
                        },
                        Some(i) => {
                            let replacement = crate::socket_map::held(
                                final(socket_map)@,
                                socket.id as int,
                            ).last();
                            &&& turn matches Turn::Done(Ok(new))
                            &&& crate::socket_map::is_first_free(old(socket_map)@, new.id as int)
                            &&& !old(nic).tcp().dom().contains(replacement)
                            &&& final(socket_map)@ == accepted(
                                old(socket_map)@,
                                old(nic).tcp(),
                                socket.id as int,
                                new.id as int,
                                replacement,
                                options,
                            )
                            &&& final(nic).tcp() == old(nic).tcp().insert(
                                replacement,
                                crate::tcp::duplicated(
                                    old(nic).tcp()[handles[i]],
                                ).told_to_listen(tcp.local),
                            )
                            &&& final(wakes)@ == old(wakes)@ + crate::sys::tasks_of(
                                old(socket_map)@,
                                socket.id as int,
                            )
                        },
                    },
                },
            },
        },
        final(nic).same_but_sockets(*old(nic)),
        final(socket_map).wf(*final(nic)),
{
    let ghost id = socket.id as int;
    let ghost before = (socket_map@, nic.tcp());
    let options = match pass_incoming(socket_map, nic, socket, step) {
        Passage::Fail(error) => {
            return Turn::Done(Err(error));
        },
        Passage::Wait(options, wait) => {
            return Turn::Wait(options, wait);
        },
        Passage::Pass(options) => options,
    };
    proof {
        crate::socket_map::lemma_owned_live(before.0, before.1, id);
    }
    let async_socket = match socket_map.get_mut(socket) {
        Ok(entry) => match entry.async_socket.as_tcp_mut() {
            Ok(tcp) => match tcp.accept(nic) {
                Ok(Some(async_socket)) => {
                    entry.wake_tasks(wakes);
                    async_socket
                },
                Ok(None) => {
                    assert(socket_map@ =~= before.0);
                    return Turn::Retry(options);
                },
                Err(error) => {
                    assert(socket_map@ =~= before.0);
                    return Turn::Done(Err(error));
                },
            },
            Err(error) => {
                assert(socket_map@ =~= before.0);
                return Turn::Done(Err(error));
            },
        },
        Err(error) => {
            return Turn::Done(Err(error));
        },
    };
    let ghost mid = (socket_map@, nic.tcp());
    let ghost tcp = crate::proxy::tcp_of(before.0, id)->Ok_0;
    let ghost handles = tcp.held->Backlog_0;
    let ghost i = crate::tcp::last_connected(before.1, handles)->0;
    let ghost replacement = crate::socket_map::held(mid.0, id).last();
    proof {
        crate::tcp::lemma_last_connected(before.1, handles);
        lemma_accept_owned(before, mid, id, i, replacement);
    }
    let new = socket_map.new_socket(options);
    let ghost with_new = socket_map@;
    let async_socket = AsyncSocket::from(async_socket);
    proof {
        assert(async_socket@.handles() =~= seq![handles[i]]);
        assert(async_socket@.handles()[0] == handles[i]);
        assert(handles.contains(handles[i]));
        assert(crate::socket_map::held(before.0, id).contains(handles[i]));
        assert forall|other: int, handle: SocketHandle| #[trigger]
            crate::socket_map::held(with_new, other).contains(
                handle,
            ) implies !async_socket@.handles().contains(handle) by {
            assert(crate::socket_map::held(mid.0, other).contains(handle));
        }
    }
    let result = socket_map.bind_socket(new, async_socket, nic, wakes);
    proof {
        assert(crate::socket_map::held(with_new, new.id as int).to_set() =~= Set::empty());
        assert(nic.tcp() =~= mid.1);
        assert(mid.1 =~= before.1.insert(
            replacement,
            crate::tcp::duplicated(before.1[handles[i]]).told_to_listen(tcp.local),
        ));
        assert(wakes@ =~= old(wakes)@ + crate::sys::tasks_of(before.0, id));
        assert(new.id as int != id);
        assert(crate::socket_map::is_first_free(before.0, new.id as int)) by {
            assert forall|k: int| 0 <= k < new.id as int implies (#[trigger] before.0[k]) is Some by {
                assert(mid.0[k] is Some);
            }
        }
        assert(crate::socket_map::held(socket_map@, id) == crate::socket_map::held(mid.0, id));
        assert(socket_map@ =~= accepted(
            before.0,
            before.1,
            id,
            new.id as int,
            replacement,
            options,
        ));
    }
    match result {
        Ok(()) => Turn::Done(Ok(new)),
        Err(error) => Turn::Done(Err(error)),
    }
}

/// Accepting a connection takes the socket of the interface that is connected away from the
/// listening socket, and nothing from any other.
proof fn lemma_accept_owned(
    before: (Seq<Option<EntryView>>, Map<SocketHandle, TcpModel>),
    after: (Seq<Option<EntryView>>, Map<SocketHandle, TcpModel>),
    id: int,
    i: int,
    replacement: SocketHandle,
)
    requires
        crate::socket_map::owned(before.0, before.1),
        0 <= i < crate::socket_map::held(before.0, id).len(),
        crate::socket_map::held(after.0, id) == crate::socket_map::held(before.0, id).remove(
            i,
        ).push(replacement),
        forall|other: int|
            other != id ==> #[trigger] crate::socket_map::held(after.0, other)
                == crate::socket_map::held(before.0, other),
        !before.1.dom().contains(replacement),
        after.1.dom() == before.1.dom().insert(replacement),
        after.1[replacement].refs > 0,
        forall|handle: SocketHandle| #[trigger]
            before.1.dom().contains(handle) ==> after.1[handle] == before.1[handle],
    ensures
        crate::socket_map::owned(after.0, after.1),
        forall|other: int| !#[trigger] crate::socket_map::held(after.0, other).contains(
            crate::socket_map::held(before.0, id)[i],
        ),
{
    let then = crate::socket_map::held(before.0, id);
    let now = crate::socket_map::held(after.0, id);
    let kept = then.remove(i);
    assert forall|a: int| 0 <= a < kept.len() implies then.contains(#[trigger] kept[a]) && kept[a]
        != then[i] && kept[a] != replacement by {
        let b = if a < i {
            a
        } else {
            a + 1
        };
        assert(kept[a] == then[b]);
        assert(then.contains(then[b]));
        assert(before.1.dom().contains(then[b]));
    }
    assert(then.contains(then[i]));
    assert(before.1.dom().contains(then[i]));
    assert forall|a: int, b: int| 0 <= a < b < now.len() implies now[a] != now[b] by {
        if b < kept.len() {
            let c = if a < i {
                a
            } else {
                a + 1
            };
            let d = if b < i {
                b
            } else {
                b + 1
            };
            assert(now[a] == then[c] && now[b] == then[d]);
        } else {
            assert(now[a] == kept[a]);
        }
    }
    assert(now.no_duplicates());
    assert forall|handle: SocketHandle| #[trigger] now.contains(handle) implies {
        &&& after.1.dom().contains(handle)
        &&& after.1[handle].refs > 0
        &&& handle != then[i]
        &&& handle == replacement || then.contains(handle)
    } by {
        let a = choose|a: int| 0 <= a < now.len() && now[a] == handle;
        if a < kept.len() {
            assert(kept[a] == handle);
        }
    }
    assert forall|other: int, handle: SocketHandle|
        other != id && #[trigger] crate::socket_map::held(before.0, other).contains(
            handle,
        ) implies {
        &&& !now.contains(handle)
        &&& after.1.dom().contains(handle)
        &&& after.1[handle].refs > 0
    } by {
        assert(before.1.dom().contains(handle));
    }
    crate::socket_map::lemma_owned_changed(before, after, id);
    assert forall|other: int| !#[trigger] crate::socket_map::held(after.0, other).contains(
        then[i],
    ) by {
        if other != id && crate::socket_map::held(after.0, other).contains(then[i]) {
            assert(crate::socket_map::held(before.0, other).contains(then[i]));
        }
    }
}

/// Looking at what there is to be read and then reading it gives the same octets.
pub proof fn law_read_gives_what_peek_gave(
    map: Seq<Option<EntryView>>,
    socket: Socket,
    buf: Seq<u8>,
    start: NetworkInterface,
    peeked: (NetworkInterface, Seq<u8>),
    read: (NetworkInterface, Seq<u8>),
    step: Step,
    turns: (Turn<usize, PollSocket<Readable>>, Turn<usize, PollSocket<Readable>>),
)
    requires
        received(map, (start, buf), peeked, socket, true, step, turns.0),
        received(map, (peeked.0, buf), read, socket, false, step, turns.1),
        turns.0 is Done,
    ensures
        turns.1 == turns.0,
        read.1 == peeked.1,
        peeked.0.tcp() == start.tcp(),
{
}

/// Once reading was ended, nothing is read any more; once writing was ended, nothing is written.
pub proof fn law_shutdown_ends_transfers(
    map: Seq<Option<EntryView>>,
    tcp: Map<SocketHandle, TcpModel>,
    id: int,
    mode: Shutdown,
    len: int,
)
    requires
        crate::proxy::tcp_of(map, id) is Ok,
    ensures
        ({
            let socket = crate::proxy::tcp_of(map, id)->Ok_0;
            let after = with_tcp(
                map,
                id,
                TcpSocketView {
                    allow_read: socket.allow_read && mode is Write,
                    allow_write: socket.allow_write && mode is Read,
                    ..socket
                },
            );
            &&& !(mode is Write) ==> reading(after, tcp, id, len) == Err::<Option<usize>, Error>(
                crate::tcp::read_side_closed(),
            )
            &&& !(mode is Read) ==> writing(after, tcp, id, len) == Err::<Option<usize>, Error>(
                crate::tcp::read_side_closed(),
            )
            &&& mode is Write ==> reading(after, tcp, id, len) == reading(map, tcp, id, len)
            &&& mode is Read ==> writing(after, tcp, id, len) == writing(map, tcp, id, len)
        }),
{
}

/// A connection that was accepted is a socket of its own, with the options of the call: it is found
/// under the new number, connected, and the listening socket no longer holds what it holds.
pub proof fn law_accepted_connection_is_a_socket(
    map: Seq<Option<EntryView>>,
    tcp: Map<SocketHandle, TcpModel>,
    id: int,
    new_id: int,
    replacement: SocketHandle,
    options: Options,
)
    requires
        crate::socket_map::owned(map, tcp),
        crate::proxy::tcp_of(map, id) matches Ok(socket) && {
            &&& socket.held matches Held::Backlog(handles)
            &&& crate::tcp::last_connected(tcp, handles) is Some
        },
        crate::socket_map::is_first_free(map, new_id),
        !tcp.dom().contains(replacement),
    ensures
        ({
            let after = accepted(map, tcp, id, new_id, replacement, options);
            let new = crate::socket_map::lookup(after, new_id);
            &&& new is Some
            &&& (new->0).options == options
            &&& crate::proxy::tcp_of(after, new_id) matches Ok(connection)
            &&& connection.held matches Held::Handle(handle)
            &&& tcp[handle].is_connected()
            &&& crate::socket_map::held(map, id).contains(handle)
            &&& !crate::socket_map::held(after, id).contains(handle)
            &&& crate::socket_map::held(after, id).len() == crate::socket_map::held(map, id).len()
        }),
{
    let socket = crate::proxy::tcp_of(map, id)->Ok_0;
    let handles = socket.held->Backlog_0;
    let i = crate::tcp::last_connected(tcp, handles)->0;
    crate::tcp::lemma_last_connected(tcp, handles);
    let after = accepted(map, tcp, id, new_id, replacement, options);
    assert(crate::socket_map::held(map, id) == handles);
    assert(handles.no_duplicates());
    assert(handles.contains(handles[i]));
    assert(crate::socket_map::held(map, id).contains(handles[i]));
    let now = crate::socket_map::held(after, id);
    assert(now == handles.remove(i).push(replacement));
    assert forall|a: int| 0 <= a < now.len() implies now[a] != handles[i] by {
        if a < handles.len() - 1 {
            let b = if a < i {
                a
            } else {
                a + 1
            };
            assert(now[a] == handles[b]);
        }
    }
}

/// What was received can be read, at once and from the front: a socket that does not block, or was
/// waited for, and allows reading gives at least one octet and leaves the rest, or all if it is
/// only looked at. What does not fit, and all other sockets, stay as they are.
pub proof fn law_received_octets_are_read(
    map: Seq<Option<EntryView>>,
    before: (NetworkInterface, Seq<u8>),
    after: (NetworkInterface, Seq<u8>),
    socket: Socket,
    peek: bool,
    step: Step,
    turn: Turn<usize, PollSocket<Readable>>,
    handle: SocketHandle,
    other: SocketHandle,
)
    requires
        received(map, before, after, socket, peek, step, turn),
        crate::proxy::tcp_of(map, socket.id as int) matches Ok(tcp) && tcp.held == Held::Handle(
            handle,
        ) && tcp.allow_read,
        step matches Step::Waited(_, Ok(())) || !(step is Waited) && crate::turn::options_of(
            step,
            crate::socket_map::lookup(map, socket.id as int)->0,
        ).non_blocking,
        before.0.tcp().dom().contains(handle),
        before.0.tcp()[handle].rx.len() > 0,
        before.0.tcp()[handle].rx_at < before.0.tcp()[handle].rx_capacity,
        0 < before.1.len() <= usize::MAX,
    ensures
        turn matches Turn::Done(Ok(n)) && {
            let rx = before.0.tcp()[handle].rx;
            &&& 0 < n <= before.1.len() && n <= rx.len()
            &&& before.0.tcp()[handle].rx_at + rx.len() <= before.0.tcp()[handle].rx_capacity ==> n
                == rx.len() || n == before.1.len()
            &&& after.1 == rx.take(n as int) + before.1.skip(n as int)
            &&& after.0.tcp()[handle].rx == (if peek {
                rx
            } else {
                rx.skip(n as int)
            })
            &&& after.0.tcp()[handle].tx == before.0.tcp()[handle].tx
            &&& other != handle ==> after.0.tcp()[other] == before.0.tcp()[other]
            &&& after.0.tcp().dom() == before.0.tcp().dom()
            &&& after.0.woken
        },
{
    let tcp = crate::proxy::tcp_of(map, socket.id as int)->Ok_0;
    let model = before.0.tcp()[handle];
    crate::tcp::law_readable_ends_the_wait(model);
    crate::turn::law_call_waits_for_its_socket(
        Readable,
        map,
        before.0.tcp(),
        socket.id as int,
        step,
    );
    crate::tcp::law_reading_gives_what_was_received(
        tcp,
        before.0.tcp(),
        before.1.len() as int,
    );
    assert(after.0.tcp().dom() =~= before.0.tcp().dom());
}

/// A call that reads gives octets only from the front of what was received, and takes out exactly
/// what it gave unless it only looks. Whatever else it comes to, it reads nothing and takes
/// nothing.
pub proof fn law_reading_takes_from_the_front(
    map: Seq<Option<EntryView>>,
    before: (NetworkInterface, Seq<u8>),
    after: (NetworkInterface, Seq<u8>),
    socket: Socket,
    peek: bool,
    step: Step,
    turn: Turn<usize, PollSocket<Readable>>,
)
    requires
        received(map, before, after, socket, peek, step, turn),
    ensures
        match turn {
            Turn::Done(Ok(n)) => {
                &&& crate::proxy::tcp_of(map, socket.id as int) matches Ok(tcp)
                &&& tcp.allow_read
                &&& tcp.held matches Held::Handle(handle)
                &&& n <= before.1.len() && n <= before.0.tcp()[handle].rx.len()
                &&& after.1 == before.0.tcp()[handle].rx.take(n as int) + before.1.skip(n as int)
                &&& peek ==> after.0.tcp() == before.0.tcp()
                &&& !peek ==> after.0.tcp() == before.0.tcp().insert(
                    handle,
                    before.0.tcp()[handle].received(n as int),
                )
            },
            Turn::Done(Err(_)) => after.1 == before.1 && after.0.tcp() == before.0.tcp(),
            Turn::Retry(_) => after.1 == before.1 && after.0.tcp() == before.0.tcp(),
            Turn::Wait(options, wait) => {
                &&& after.1 == before.1
                &&& crate::proxy::tcp_of(map, socket.id as int) matches Ok(tcp)
                &&& tcp.held == Held::Handle(wait.raw.handle.0)
                &&& wait.socket == socket
                &&& !options.non_blocking && wait.behaviour == Behaviour::Blocking(options.timeout)
                &&& after.0.tcp() == crate::smol::retained(
                    before.0.tcp(),
                    set![wait.raw.handle.0],
                )
            },
        },
{
}

/// A call that reads from a socket that does not block and has received nothing is tried again
/// while more may come, would block until it is connected, and fails once nothing can come or
/// reading is not allowed.
pub proof fn law_nothing_received_is_not_read(
    map: Seq<Option<EntryView>>,
    before: (NetworkInterface, Seq<u8>),
    after: (NetworkInterface, Seq<u8>),
    socket: Socket,
    peek: bool,
    turn: Turn<usize, PollSocket<Readable>>,
    handle: SocketHandle,
)
    requires
        received(map, before, after, socket, peek, Step::Begin, turn),
        crate::proxy::tcp_of(map, socket.id as int) matches Ok(tcp) && tcp.held == Held::Handle(
            handle,
        ),
        (crate::socket_map::lookup(map, socket.id as int)->0).options.non_blocking,
        before.0.tcp()[handle].rx.len() == 0 || !(crate::proxy::tcp_of(
            map,
            socket.id as int,
        )->Ok_0).allow_read,
    ensures
        ({
            let allowed = (crate::proxy::tcp_of(map, socket.id as int)->Ok_0).allow_read;
            let model = before.0.tcp()[handle];
            if model.may_recv() && allowed {
                turn == Turn::<usize, PollSocket<Readable>>::Retry(
                    (crate::socket_map::lookup(map, socket.id as int)->0).options,
                )
            } else {
                &&& turn matches Turn::Done(Err(error))
                &&& error.kind == (if !model.may_recv() && model.is_active() {
                    crate::io::ErrorKind::WouldBlock
                } else {
                    crate::io::ErrorKind::NotConnected
                })
            }
        }),
{
    crate::tcp::law_readable_ends_the_wait(before.0.tcp()[handle]);
    crate::turn::law_call_waits_for_its_socket(
        Readable,
        map,
        before.0.tcp(),
        socket.id as int,
        Step::Begin,
    );
}

/// What is written is taken at once as far as there is room for it: a socket that does not block,
/// or was waited for, allows writing and has room takes as many octets as fit, and they come after
/// those that are still to be sent. All other sockets stay as they are.
pub proof fn law_octets_are_taken_to_be_sent(
    map: Seq<Option<EntryView>>,
    before: NetworkInterface,
    after: NetworkInterface,
    socket: Socket,
    buf: Seq<u8>,
    step: Step,
    turn: Turn<usize, PollSocket<Writable>>,
    handle: SocketHandle,
    other: SocketHandle,
)
    requires
        sent(map, before, after, socket, buf, step, turn),
        crate::proxy::tcp_of(map, socket.id as int) matches Ok(tcp) && tcp.held == Held::Handle(
            handle,
        ) && tcp.allow_write,
        step matches Step::Waited(_, Ok(())) || !(step is Waited) && crate::turn::options_of(
            step,
            crate::socket_map::lookup(map, socket.id as int)->0,
        ).non_blocking,
        before.tcp().dom().contains(handle),
        before.tcp()[handle].may_send(),
        before.tcp()[handle].tx.len() < before.tcp()[handle].tx_capacity,
        0 < buf.len() <= usize::MAX,
    ensures
        turn matches Turn::Done(Ok(n)) && {
            let tx = before.tcp()[handle].tx;
            &&& 0 < n <= buf.len()
            &&& n == buf.len() || tx.len() + n == before.tcp()[handle].tx_capacity
            &&& after.tcp()[handle].tx == tx + buf.take(n as int)
            &&& after.tcp()[handle].rx == before.tcp()[handle].rx
            &&& other != handle ==> after.tcp()[other] == before.tcp()[other]
            &&& after.tcp().dom() == before.tcp().dom()
            &&& after.woken
        },
{
    let tcp = crate::proxy::tcp_of(map, socket.id as int)->Ok_0;
    crate::tcp::law_writable_ends_the_wait(before.tcp()[handle]);
    crate::turn::law_call_waits_for_its_socket(
        Writable,
        map,
        before.tcp(),
        socket.id as int,
        step,
    );
    crate::tcp::law_writing_takes_what_there_is_room_for(tcp, before.tcp(), buf.len() as int);
    assert(after.tcp().dom() =~= before.tcp().dom());
}

/// A call that writes adds octets only to the end of what is to be sent, and exactly those that it
/// tells were taken. Whatever else it comes to, it sends nothing.
pub proof fn law_writing_adds_to_the_end(
    map: Seq<Option<EntryView>>,
    before: NetworkInterface,
    after: NetworkInterface,
    socket: Socket,
    buf: Seq<u8>,
    step: Step,
    turn: Turn<usize, PollSocket<Writable>>,
)
    requires
        sent(map, before, after, socket, buf, step, turn),
        buf.len() <= usize::MAX,
    ensures
        match turn {
            Turn::Done(Ok(n)) => {
                &&& crate::proxy::tcp_of(map, socket.id as int) matches Ok(tcp)
                &&& tcp.allow_write
                &&& tcp.held matches Held::Handle(handle)
                &&& 0 < n <= buf.len()
                &&& before.tcp()[handle].tx.len() + n <= before.tcp()[handle].tx_capacity
                &&& after.tcp() == before.tcp().insert(
                    handle,
                    before.tcp()[handle].sending(buf.take(n as int)),
                )
            },
            Turn::Done(Err(_)) => after.tcp() == before.tcp(),
            Turn::Retry(_) => after.tcp() == before.tcp(),
            Turn::Wait(options, wait) => {
                &&& crate::proxy::tcp_of(map, socket.id as int) matches Ok(tcp)
                &&& tcp.held == Held::Handle(wait.raw.handle.0)
                &&& wait.socket == socket
                &&& !options.non_blocking && wait.behaviour == Behaviour::Blocking(options.timeout)
                &&& after.tcp() == crate::smol::retained(before.tcp(), set![wait.raw.handle.0])
            },
        },
{
    if let Ok(tcp) = crate::proxy::tcp_of(map, socket.id as int) {
        crate::tcp::law_writing_takes_what_there_is_room_for(
            tcp,
            before.tcp(),
            buf.len() as int,
        );
    }
}

/// A call that writes to a socket that does not block and has no room is tried again while it is
/// connected, would block until it is, and fails once it is no longer or writing is not allowed.
/// Writing nothing is refused.
pub proof fn law_nothing_is_sent_without_room(
    map: Seq<Option<EntryView>>,
    before: NetworkInterface,
    after: NetworkInterface,
    socket: Socket,
    buf: Seq<u8>,
    turn: Turn<usize, PollSocket<Writable>>,
    handle: SocketHandle,
)
    requires
        sent(map, before, after, socket, buf, Step::Begin, turn),
        crate::proxy::tcp_of(map, socket.id as int) matches Ok(tcp) && tcp.held == Held::Handle(
            handle,
        ),
        (crate::socket_map::lookup(map, socket.id as int)->0).options.non_blocking,
        buf.len() == 0 || !before.tcp()[handle].can_send() || !(crate::proxy::tcp_of(
            map,
            socket.id as int,
        )->Ok_0).allow_write,
    ensures
        ({
            let allowed = (crate::proxy::tcp_of(map, socket.id as int)->Ok_0).allow_write;
            let model = before.tcp()[handle];
            if model.may_send() && allowed && buf.len() > 0 {
                turn == Turn::<usize, PollSocket<Writable>>::Retry(
                    (crate::socket_map::lookup(map, socket.id as int)->0).options,
                )
            } else {
                &&& turn matches Turn::Done(Err(error))
                &&& error.kind == (if !model.may_send() && model.is_active() {
                    crate::io::ErrorKind::WouldBlock
                } else if model.may_send() && allowed {
                    crate::io::ErrorKind::WriteZero
                } else {
                    crate::io::ErrorKind::NotConnected
                })
            }
        }),
{
    crate::tcp::law_writable_ends_the_wait(before.tcp()[handle]);
    crate::turn::law_call_waits_for_its_socket(
        Writable,
        map,
        before.tcp(),
        socket.id as int,
        Step::Begin,
    );
}

/// Accepting a connection takes it out of the backlog, where a replacement comes last, and makes it
/// a socket that is bound to the same endpoint, may be read from and written to, and is waited for
/// by nobody. All else of the listening socket, and all other sockets, stay as they are.
pub proof fn law_accepting_leaves_the_others_alone(
    map: Seq<Option<EntryView>>,
    tcp: Map<SocketHandle, TcpModel>,
    id: int,
    new_id: int,
    replacement: SocketHandle,
    options: Options,
    other: int,
)
    requires
        crate::proxy::tcp_of(map, id) matches Ok(socket) && {
            &&& socket.held matches Held::Backlog(handles)
            &&& crate::tcp::last_connected(tcp, handles) is Some
        },
        crate::socket_map::is_first_free(map, new_id),
    ensures
        ({
            let after = accepted(map, tcp, id, new_id, replacement, options);
            let then = crate::socket_map::lookup(map, id)->0;
            let listener = crate::proxy::tcp_of(map, id)->Ok_0;
            let handles = listener.held->Backlog_0;
            let i = crate::tcp::last_connected(tcp, handles)->0;
            &&& other != id && other != new_id ==> crate::socket_map::lookup(after, other)
                == crate::socket_map::lookup(map, other)
            &&& crate::socket_map::lookup(after, id) == Some(
                EntryView {
                    socket: SocketView::Tcp(
                        TcpSocketView {
                            held: Held::Backlog(handles.remove(i).push(replacement)),
                            ..listener
                        },
                    ),
                    recv_task: None,
                    send_task: None,
                    ..then
                },
            )
            &&& crate::socket_map::lookup(after, new_id) matches Some(new)
            &&& new.options == options
            &&& !new.closing
            &&& new.recv_task is None && new.send_task is None
            &&& new.recv_wakers.len() == 0 && new.send_wakers.len() == 0
            &&& new.socket matches SocketView::Tcp(connection)
            &&& connection.held == Held::Handle(handles[i])
            &&& connection.local == listener.local
            &&& connection.allow_read && connection.allow_write
        }),
{
}

/// Making a socket a TCP socket changes nothing else of it, and nothing of the others.
pub proof fn law_only_the_tcp_socket_changes(
    map: Seq<Option<EntryView>>,
    id: int,
    tcp: TcpSocketView,
    other: int,
)
    requires
        crate::socket_map::lookup(map, id) is Some,
    ensures
        crate::socket_map::lookup(with_tcp(map, id, tcp), id) == Some(
            EntryView {
                socket: SocketView::Tcp(tcp),
                ..crate::socket_map::lookup(map, id)->0
            },
        ),
        other != id ==> crate::socket_map::lookup(with_tcp(map, id, tcp), other)
            == crate::socket_map::lookup(map, other),
{
}

/// Reading and writing by a number come to what they come to on the TCP socket of that number; if
/// there is none, they fail.
pub proof fn law_transfers_go_by_the_number(
    map: Seq<Option<EntryView>>,
    tcp: Map<SocketHandle, TcpModel>,
    id: int,
    len: int,
)
    ensures
        match crate::proxy::tcp_of(map, id) {
            Ok(socket) => {
                &&& reading(map, tcp, id, len) == socket.reads(tcp, len)
                &&& writing(map, tcp, id, len) == socket.writes(tcp, len)
            },
            Err(error) => {
                &&& reading(map, tcp, id, len) == Err::<Option<usize>, Error>(error)
                &&& writing(map, tcp, id, len) == Err::<Option<usize>, Error>(error)
            },
        },
{
}

/// Shutting down ends what it names and nothing else: reading is over exactly if it was, or if
/// reading or both are ended, and writing alike. It can be done again without effect.
pub proof fn law_shutdown_ends_what_it_names(tcp: TcpSocketView, mode: Shutdown)
    ensures
        shut(tcp, mode).allow_read <==> tcp.allow_read && mode == Shutdown::Write,
        shut(tcp, mode).allow_write <==> tcp.allow_write && mode == Shutdown::Read,
        shut(tcp, mode).held == tcp.held,
        shut(tcp, mode).local == tcp.local,
        shut(shut(tcp, mode), mode) == shut(tcp, mode),
        shut(shut(tcp, Shutdown::Read), Shutdown::Write) == shut(tcp, Shutdown::Both),
{
}

/// As many connections may come in at a time as are asked for, up to thirty-two.
pub proof fn law_backlog_is_bounded()
    ensures
        MAX_BACKLOG == 32,
{
}

/// A call on a socket that blocks waits first, whatever was received and however much room there
/// is. A wait that failed fails the call, and so does a number that names no TCP socket.
pub proof fn law_blocking_transfers_wait(
    map: Seq<Option<EntryView>>,
    before: (NetworkInterface, Seq<u8>),
    read: (NetworkInterface, Seq<u8>),
    written: NetworkInterface,
    socket: Socket,
    peek: bool,
    step: Step,
    turns: (Turn<usize, PollSocket<Readable>>, Turn<usize, PollSocket<Writable>>),
)
    requires
        received(map, before, read, socket, peek, step, turns.0),
        sent(map, before.0, written, socket, before.1, step, turns.1),
    ensures
        match (step, crate::proxy::tcp_of(map, socket.id as int)) {
            (Step::Waited(_, Err(error)), _) => turns.0 == Turn::<
                usize,
                PollSocket<Readable>,
            >::Done(Err(error)) && turns.1 == Turn::<usize, PollSocket<Writable>>::Done(Err(error)),
            (_, Err(error)) => turns.0 == Turn::<usize, PollSocket<Readable>>::Done(Err(error))
                && turns.1 == Turn::<usize, PollSocket<Writable>>::Done(Err(error)),
            (Step::Waited(_, Ok(())), Ok(_)) => !(turns.0 is Wait) && !(turns.1 is Wait),
            (_, Ok(tcp)) => match tcp.held {
                Held::Backlog(_) => {
                    &&& turns.0 matches Turn::Done(Err(error)) && error.kind
                        == crate::io::ErrorKind::InvalidInput
                    &&& turns.1 matches Turn::Done(Err(error)) && error.kind
                        == crate::io::ErrorKind::InvalidInput
                },
                Held::Handle(_) => {
                    let options = crate::turn::options_of(
                        step,
                        crate::socket_map::lookup(map, socket.id as int)->0,
                    );
                    &&& turns.0 is Wait <==> !options.non_blocking
                    &&& turns.1 is Wait <==> !options.non_blocking
                },
            },
        },
{
}

} // verus!
