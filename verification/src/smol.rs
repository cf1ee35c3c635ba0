//! The TCP sockets of smoltcp: what is known of them, and the calls that read and change them.
use vstd::prelude::*;

use smoltcp::socket::{SocketHandle, SocketSet, TcpSocket, TcpSocketBuffer};
use smoltcp::wire;
use smoltcp::Error as StackError;
use std::task::Waker;

use crate::endpoint::{IpAddress, IpEndpoint};
use crate::net::{Ipv4Addr, Ipv6Addr};

verus! {

/// smoltcp's set of sockets.
#[verifier::external_type_specification]
#[verifier::external_body]
pub struct ExSocketSet<'a>(SocketSet<'a>);

/// The handle that smoltcp gives out for a socket of a set.
#[verifier::external_type_specification]
#[verifier::external_body]
pub struct ExSocketHandle(SocketHandle);

/// smoltcp's error.
#[verifier::external_type_specification]
#[verifier::external_body]
pub struct ExStackError(StackError);

/// The waker of a task.
#[verifier::external_type_specification]
#[verifier::external_body]
pub struct ExWaker(Waker);

/// `Waker::clone`: nothing is claimed of the copy beyond its being one.
pub assume_specification[ <std::task::Waker as Clone>::clone ](waker: &Waker) -> (copy: Waker);

/// The states of a TCP connection.
pub ghost enum TcpState {
    Closed,
    Listen,
    SynSent,
    SynReceived,
    Established,
    FinWait1,
    FinWait2,
    CloseWait,
    Closing,
    LastAck,
    TimeWait,
}

/// What is known of a TCP socket in a socket set.
pub ghost struct TcpModel {
    /// How often the socket is held.
    pub refs: nat,
    pub state: TcpState,
    /// The octets received and not yet taken out.
    pub rx: Seq<u8>,
    /// Where in its storage the receive buffer starts.
    pub rx_at: nat,
    pub rx_capacity: nat,
    /// The octets to be sent.
    pub tx: Seq<u8>,
    pub tx_capacity: nat,
    pub hop_limit: Option<u8>,
    pub local: IpEndpoint,
    pub remote: IpEndpoint,
    pub rx_waker: Option<Waker>,
    pub tx_waker: Option<Waker>,
}

impl TcpModel {
    /// A new socket with buffers of the given size.
    pub open spec fn fresh(size: nat) -> TcpModel {
        TcpModel {
            refs: 1,
            state: TcpState::Closed,
            rx: Seq::empty(),
            rx_at: 0,
            rx_capacity: size,
            tx: Seq::empty(),
            tx_capacity: size,
            hop_limit: None,
            local: IpEndpoint::nowhere(),
            remote: IpEndpoint::nowhere(),
            rx_waker: None,
            tx_waker: None,
        }
    }

    /// The socket processes packets.
    pub open spec fn is_open(self) -> bool {
        !(self.state is Closed) && !(self.state is TimeWait)
    }

    /// The socket exchanges packets with a remote endpoint.
    pub open spec fn is_active(self) -> bool {
        self.is_open() && !(self.state is Listen)
    }

    /// The transmit half of the connection is open.
    pub open spec fn may_send(self) -> bool {
        self.state is Established || self.state is CloseWait
    }

    /// The receive half of the connection is open, or something is left to be received.
    pub open spec fn may_recv(self) -> bool {
        self.state is Established || self.state is FinWait1 || self.state is FinWait2
            || self.rx.len() > 0
    }

    /// There is room to send.
    pub open spec fn can_send(self) -> bool {
        self.may_send() && self.tx.len() < self.tx_capacity
    }

    /// There is something to receive.
    pub open spec fn can_recv(self) -> bool {
        self.may_recv() && self.rx.len() > 0
    }

    /// Both halves of the connection are open.
    pub open spec fn is_connected(self) -> bool {
        self.may_recv() && self.may_send()
    }

    /// How many of the received octets lie in one piece.
    pub open spec fn rx_run(self) -> int {
        if self.rx.len() <= self.rx_capacity - self.rx_at {
            self.rx.len() as int
        } else {
            self.rx_capacity - self.rx_at
        }
    }

    /// How many octets a receive into a buffer of the given length yields.
    pub open spec fn recv_len(self, len: int) -> int {
        if self.rx_run() <= len {
            self.rx_run()
        } else {
            len
        }
    }

    /// How many octets of a buffer of the given length fit in to be sent.
    pub open spec fn send_len(self, len: int) -> int {
        if self.tx_capacity - self.tx.len() <= len {
            self.tx_capacity - self.tx.len()
        } else {
            len
        }
    }

    /// The socket after its first `n` received octets were taken out.
    pub open spec fn received(self, n: int) -> TcpModel {
        TcpModel {
            rx: self.rx.skip(n),
            rx_at: if self.rx_capacity > 0 {
                ((self.rx_at + n) % (self.rx_capacity as int)) as nat
            } else {
                0
            },
            ..self
        }
    }

    /// The socket after octets were handed over to be sent.
    pub open spec fn sending(self, octets: Seq<u8>) -> TcpModel {
        TcpModel { tx: self.tx + octets, ..self }
    }

    /// The socket as it is brought to a new use.
    pub open spec fn restarted(
        self,
        state: TcpState,
        local: IpEndpoint,
        remote: IpEndpoint,
    ) -> TcpModel {
        TcpModel {
            state,
            rx: Seq::empty(),
            rx_at: 0,
            tx: Seq::empty(),
            hop_limit: None,
            local,
            remote,
            rx_waker: None,
            tx_waker: None,
            ..self
        }
    }

    /// The socket can be made to listen on the given endpoint.
    pub open spec fn can_listen(self, local: IpEndpoint) -> bool {
        local.port != 0 && !self.is_open()
    }

    /// The socket after it was told to listen, whether it could be or not.
    pub open spec fn told_to_listen(self, local: IpEndpoint) -> TcpModel {
        if self.can_listen(local) {
            self.restarted(TcpState::Listen, local, IpEndpoint::nowhere())
        } else {
            self
        }
    }

    /// The socket can be made to connect.
    pub open spec fn can_connect(self, remote: IpEndpoint, local: IpEndpoint) -> bool {
        !self.is_open() && remote.is_specified() && local.port != 0
    }

    /// The socket after it was told to connect, whether it could be or not.
    pub open spec fn told_to_connect(self, remote: IpEndpoint, local: IpEndpoint) -> TcpModel {
        if self.can_connect(remote, local) {
            let addr = if local.addr is Unspecified {
                remote.addr.to_unspecified()
            } else {
                local.addr
            };
            self.restarted(TcpState::SynSent, IpEndpoint { addr, port: local.port }, remote)
        } else {
            self
        }
    }
}

/// What `Waker::will_wake` tells of two wakers, by what each of them holds: whether both are known
/// to wake the same task.
pub uninterp spec fn will_wake(waker: Waker, other: Waker) -> bool;

/// Whether a slot for a waker went from `before` to `after` by the registration of a waker: it
/// still holds the one from before if both are known to wake the same task, and else a copy of the
/// new one.
pub open spec fn registered(before: Option<Waker>, after: Option<Waker>, waker: Waker) -> bool {
    if before is Some && will_wake(before->0, waker) {
        after == before
    } else {
        after is Some && cloned(waker, after->0)
    }
}

/// Whether sockets went from `before` to `after` by the registration of a waker on the transmit
/// halves of some of them and on the receive halves of some.
pub open spec fn wakers_registered(
    before: Map<SocketHandle, TcpModel>,
    after: Map<SocketHandle, TcpModel>,
    waker: Waker,
    sends: Set<SocketHandle>,
    recvs: Set<SocketHandle>,
) -> bool {
    &&& after.dom() =~= before.dom()
    &&& forall|handle: SocketHandle|
        before.dom().contains(handle) ==> {
            let (then, now) = (before[handle], #[trigger] after[handle]);
            &&& now == TcpModel { tx_waker: now.tx_waker, rx_waker: now.rx_waker, ..then }
            &&& if sends.contains(handle) {
                registered(then.tx_waker, now.tx_waker, waker)
            } else {
                now.tx_waker == then.tx_waker
            }
            &&& if recvs.contains(handle) {
                registered(then.rx_waker, now.rx_waker, waker)
            } else {
                now.rx_waker == then.rx_waker
            }
        }
}

/// Sockets after each of some was held once more.
pub open spec fn retained(
    tcp: Map<SocketHandle, TcpModel>,
    handles: Set<SocketHandle>,
) -> Map<SocketHandle, TcpModel> {
    Map::new(
        |handle: SocketHandle| tcp.dom().contains(handle),
        |handle: SocketHandle|
            if handles.contains(handle) {
                TcpModel { refs: tcp[handle].refs + 1, ..tcp[handle] }
            } else {
                tcp[handle]
            },
    )
}

/// Sockets after each of some was held once less.
pub open spec fn released(
    tcp: Map<SocketHandle, TcpModel>,
    handles: Set<SocketHandle>,
) -> Map<SocketHandle, TcpModel> {
    Map::new(
        |handle: SocketHandle| tcp.dom().contains(handle),
        |handle: SocketHandle|
            if handles.contains(handle) {
                TcpModel { refs: (tcp[handle].refs - 1) as nat, ..tcp[handle] }
            } else {
                tcp[handle]
            },
    )
}

/// The TCP sockets that a socket set holds, by their handles.
pub uninterp spec fn tcp_sockets(set: SocketSet<'static>) -> Map<SocketHandle, TcpModel>;

/// The storage of a socket set grows when a socket is added to a full one.
pub uninterp spec fn set_grows(set: SocketSet<'static>) -> bool;

/// `SocketSet::new` on a `Vec`: the new set holds nothing, and it grows.
#[verifier::external_body]
pub(crate) fn set_new() -> (set: SocketSet<'static>)
    ensures
        tcp_sockets(set).dom() == Set::<SocketHandle>::empty(),
        set_grows(set),
{
    SocketSet::new(Vec::new())
}

/// `SocketSet::add` of a `TcpSocket::new` with two buffers of zeros: a set that grows takes the
/// socket in under a handle that was not in use. A receive buffer of more than 1 GiB is refused
/// by a panic.
#[verifier::external_body]
pub(crate) fn set_add_tcp(set: &mut SocketSet<'static>, size: usize) -> (handle: SocketHandle)
    requires
        set_grows(*old(set)),
        size <= 0x4000_0000,
    ensures
        !tcp_sockets(*old(set)).dom().contains(handle),
        tcp_sockets(*final(set)) == tcp_sockets(*old(set)).insert(
            handle,
            TcpModel::fresh(size as nat),
        ),
        set_grows(*final(set)),
{
    let rx_buffer = TcpSocketBuffer::new(vec![0; size]);
    let tx_buffer = TcpSocketBuffer::new(vec![0; size]);
    set.add(TcpSocket::new(rx_buffer, tx_buffer))
}

/// `SocketSet::retain`: the socket is held once more. A handle that is not in the set, and a
/// count that no longer fits, end in a panic.
#[verifier::external_body]
pub(crate) fn set_retain(set: &mut SocketSet<'static>, handle: SocketHandle)
    requires
        tcp_sockets(*old(set)).dom().contains(handle),
        tcp_sockets(*old(set))[handle].refs < usize::MAX,
    ensures
        tcp_sockets(*final(set)) == tcp_sockets(*old(set)).insert(
            handle,
            ({
                let tcp = tcp_sockets(*old(set))[handle];
                TcpModel { refs: tcp.refs + 1, ..tcp }
            }),
        ),
        set_grows(*final(set)) == set_grows(*old(set)),
{
    set.retain(handle)
}

/// `SocketSet::release`: the socket is held once less. A handle that is not in the set, and a
/// socket that nobody holds, end in a panic.
#[verifier::external_body]
pub(crate) fn set_release(set: &mut SocketSet<'static>, handle: SocketHandle)
    requires
        tcp_sockets(*old(set)).dom().contains(handle),
        tcp_sockets(*old(set))[handle].refs > 0,
    ensures
        tcp_sockets(*final(set)) == tcp_sockets(*old(set)).insert(
            handle,
            ({
                let tcp = tcp_sockets(*old(set))[handle];
                TcpModel { refs: (tcp.refs - 1) as nat, ..tcp }
            }),
        ),
        set_grows(*final(set)) == set_grows(*old(set)),
{
    set.release(handle)
}

/// `TcpSocket::is_open` of a socket in the set.
#[verifier::external_body]
pub(crate) fn tcp_is_open(set: &mut SocketSet<'static>, handle: SocketHandle) -> (open: bool)
    requires
        tcp_sockets(*old(set)).dom().contains(handle),
    ensures
        open == tcp_sockets(*old(set))[handle].is_open(),
        tcp_sockets(*final(set)) == tcp_sockets(*old(set)),
        set_grows(*final(set)) == set_grows(*old(set)),
{
    set.get::<TcpSocket>(handle).is_open()
}

/// `TcpSocket::is_active` of a socket in the set.
#[verifier::external_body]
pub(crate) fn tcp_is_active(set: &mut SocketSet<'static>, handle: SocketHandle) -> (active: bool)
    requires
        tcp_sockets(*old(set)).dom().contains(handle),
    ensures
        active == tcp_sockets(*old(set))[handle].is_active(),
        tcp_sockets(*final(set)) == tcp_sockets(*old(set)),
        set_grows(*final(set)) == set_grows(*old(set)),
{
    set.get::<TcpSocket>(handle).is_active()
}

/// `TcpSocket::may_send` of a socket in the set.
#[verifier::external_body]
pub(crate) fn tcp_may_send(set: &mut SocketSet<'static>, handle: SocketHandle) -> (may: bool)
    requires
        tcp_sockets(*old(set)).dom().contains(handle),
    ensures
        may == tcp_sockets(*old(set))[handle].may_send(),
        tcp_sockets(*final(set)) == tcp_sockets(*old(set)),
        set_grows(*final(set)) == set_grows(*old(set)),
{
    set.get::<TcpSocket>(handle).may_send()
}

/// `TcpSocket::may_recv` of a socket in the set.
#[verifier::external_body]
pub(crate) fn tcp_may_recv(set: &mut SocketSet<'static>, handle: SocketHandle) -> (may: bool)
    requires
        tcp_sockets(*old(set)).dom().contains(handle),
    ensures
        may == tcp_sockets(*old(set))[handle].may_recv(),
        tcp_sockets(*final(set)) == tcp_sockets(*old(set)),
        set_grows(*final(set)) == set_grows(*old(set)),
{
    set.get::<TcpSocket>(handle).may_recv()
}

/// `TcpSocket::can_send` of a socket in the set.
#[verifier::external_body]
pub(crate) fn tcp_can_send(set: &mut SocketSet<'static>, handle: SocketHandle) -> (can: bool)
    requires
        tcp_sockets(*old(set)).dom().contains(handle),
    ensures
        can == tcp_sockets(*old(set))[handle].can_send(),
        tcp_sockets(*final(set)) == tcp_sockets(*old(set)),
        set_grows(*final(set)) == set_grows(*old(set)),
{
    set.get::<TcpSocket>(handle).can_send()
}

/// `TcpSocket::can_recv` of a socket in the set.
#[verifier::external_body]
pub(crate) fn tcp_can_recv(set: &mut SocketSet<'static>, handle: SocketHandle) -> (can: bool)
    requires
        tcp_sockets(*old(set)).dom().contains(handle),
    ensures
        can == tcp_sockets(*old(set))[handle].can_recv(),
        tcp_sockets(*final(set)) == tcp_sockets(*old(set)),
        set_grows(*final(set)) == set_grows(*old(set)),
{
    set.get::<TcpSocket>(handle).can_recv()
}

/// `TcpSocket::send_queue` of a socket in the set: how many octets wait to be sent.
#[verifier::external_body]
pub(crate) fn tcp_send_queue(set: &mut SocketSet<'static>, handle: SocketHandle) -> (queue: usize)
    requires
        tcp_sockets(*old(set)).dom().contains(handle),
    ensures
        queue == tcp_sockets(*old(set))[handle].tx.len(),
        tcp_sockets(*final(set)) == tcp_sockets(*old(set)),
        set_grows(*final(set)) == set_grows(*old(set)),
{
    set.get::<TcpSocket>(handle).send_queue()
}

/// `TcpSocket::hop_limit` of a socket in the set. It is never zero: `set_hop_limit` refuses that.
#[verifier::external_body]
pub(crate) fn tcp_hop_limit(set: &mut SocketSet<'static>, handle: SocketHandle) -> (limit: Option<
    u8,
>)
    requires
        tcp_sockets(*old(set)).dom().contains(handle),
    ensures
        limit == tcp_sockets(*old(set))[handle].hop_limit,
        limit != Some(0u8),
        tcp_sockets(*final(set)) == tcp_sockets(*old(set)),
        set_grows(*final(set)) == set_grows(*old(set)),
{
    set.get::<TcpSocket>(handle).hop_limit()
}

/// `TcpSocket::set_hop_limit` of a socket in the set. A limit of zero is refused by a panic.
#[verifier::external_body]
pub(crate) fn tcp_set_hop_limit(
    set: &mut SocketSet<'static>,
    handle: SocketHandle,
    hop_limit: Option<u8>,
)
    requires
        tcp_sockets(*old(set)).dom().contains(handle),
        hop_limit != Some(0u8),
    ensures
        tcp_sockets(*final(set)) == tcp_sockets(*old(set)).insert(
            handle,
            (TcpModel { hop_limit, ..tcp_sockets(*old(set))[handle] }),
        ),
        set_grows(*final(set)) == set_grows(*old(set)),
{
    set.get::<TcpSocket>(handle).set_hop_limit(hop_limit)
}

/// `TcpSocket::remote_endpoint` of a socket in the set.
#[verifier::external_body]
pub(crate) fn tcp_remote_endpoint(
    set: &mut SocketSet<'static>,
    handle: SocketHandle,
) -> (remote: IpEndpoint)
    requires
        tcp_sockets(*old(set)).dom().contains(handle),
    ensures
        remote == tcp_sockets(*old(set))[handle].remote,
        tcp_sockets(*final(set)) == tcp_sockets(*old(set)),
        set_grows(*final(set)) == set_grows(*old(set)),
{
    let remote = set.get::<TcpSocket>(handle).remote_endpoint();
    let mut parts = [0u16; 8];
    let addr = match remote.addr {
        wire::IpAddress::Ipv4(wire::Ipv4Address([a, b, c, d])) => IpAddress::Ipv4(Ipv4Addr { a, b, c, d }),
        wire::IpAddress::Ipv6(ip) => {
            ip.write_parts(&mut parts);
            let [a, b, c, d, e, f, g, h] = parts;
            IpAddress::Ipv6(Ipv6Addr { a, b, c, d, e, f, g, h })
        }
        _ => IpAddress::Unspecified,
    };
    IpEndpoint { addr, port: remote.port }
}

/// `TcpSocket::listen` of a socket in the set: refused on port zero and on an open socket, which
/// then stays as it was. Else the wakers that were registered are woken and forgotten; that they
/// are woken is not stated.
#[verifier::external_body]
pub(crate) fn tcp_listen(
    set: &mut SocketSet<'static>,
    handle: SocketHandle,
    local: IpEndpoint,
) -> (result: Result<(), StackError>)
    requires
        tcp_sockets(*old(set)).dom().contains(handle),
    ensures
        result is Ok <==> tcp_sockets(*old(set))[handle].can_listen(local),
        tcp_sockets(*final(set)) == tcp_sockets(*old(set)).insert(
            handle,
            tcp_sockets(*old(set))[handle].told_to_listen(local),
        ),
        set_grows(*final(set)) == set_grows(*old(set)),
{
    let addr = match local.addr {
        IpAddress::Unspecified => wire::IpAddress::Unspecified,
        IpAddress::Ipv4(ip) => wire::Ipv4Address::from_bytes(&ip.octets()).into(),
        IpAddress::Ipv6(ip) => wire::Ipv6Address::from_parts(&ip.parts()).into(),
    };
    set.get::<TcpSocket>(handle).listen((addr, local.port))
}

/// `TcpSocket::connect` of a socket in the set: refused on an open socket, towards an endpoint that
/// is not specified and from port zero; the socket then stays as it was. Else the wakers that were
/// registered are woken and forgotten; that they are woken is not stated.
#[verifier::external_body]
pub(crate) fn tcp_connect(
    set: &mut SocketSet<'static>,
    handle: SocketHandle,
    remote: IpEndpoint,
    local: IpEndpoint,
) -> (result: Result<(), StackError>)
    requires
        tcp_sockets(*old(set)).dom().contains(handle),
    ensures
        result is Ok <==> tcp_sockets(*old(set))[handle].can_connect(remote, local),
        tcp_sockets(*final(set)) == tcp_sockets(*old(set)).insert(
            handle,
            tcp_sockets(*old(set))[handle].told_to_connect(remote, local),
        ),
        set_grows(*final(set)) == set_grows(*old(set)),
{
    let remote_addr = match remote.addr {
        IpAddress::Unspecified => wire::IpAddress::Unspecified,
        IpAddress::Ipv4(ip) => wire::Ipv4Address::from_bytes(&ip.octets()).into(),
        IpAddress::Ipv6(ip) => wire::Ipv6Address::from_parts(&ip.parts()).into(),
    };
    let local_addr = match local.addr {
        IpAddress::Unspecified => wire::IpAddress::Unspecified,
        IpAddress::Ipv4(ip) => wire::Ipv4Address::from_bytes(&ip.octets()).into(),
        IpAddress::Ipv6(ip) => wire::Ipv6Address::from_parts(&ip.parts()).into(),
    };
    set.get::<TcpSocket>(handle).connect((remote_addr, remote.port), (local_addr, local.port))
}

/// Copies the start of received octets into a buffer, as far as both reach.
///
/// Gives how many of the octets are used up, none if they are only looked at, and how many were
/// copied.
pub fn copy_received(data: &[u8], buffer: &mut [u8], peek: bool) -> (used: (usize, usize))
    ensures
        used.1 == (if data@.len() <= old(buffer)@.len() {
            data@.len()
        } else {
            old(buffer)@.len()
        }),
        used.0 == (if peek {
            0
        } else {
            used.1
        }),
        final(buffer)@ == data@.take(used.1 as int) + old(buffer)@.skip(used.1 as int),
{
    let len: usize = if data.len() <= buffer.len() {
        data.len()
    } else {
        buffer.len()
    };
    let mut i: usize = 0;
    while i < len
        invariant
            i <= len,
            len <= data@.len(),
            len <= old(buffer)@.len(),
            buffer@ == data@.take(i as int) + old(buffer)@.skip(i as int),
        decreases len - i,
    {
        buffer[i] = data[i];
        i += 1;
        assert(buffer@ =~= data@.take(i as int) + old(buffer)@.skip(i as int));
    }
    (if peek {
        0
    } else {
        len
    }, len)
}

/// `TcpSocket::recv` of a socket in the set, handing the octets to `copy_received`: refused once
/// nothing can be received any more. What is handed over is the part of the receive buffer that
/// lies in one piece, which is empty only if the buffer is.
#[verifier::external_body]
pub(crate) fn tcp_recv(
    set: &mut SocketSet<'static>,
    handle: SocketHandle,
    buffer: &mut [u8],
    peek: bool,
) -> (result: Result<usize, StackError>)
    requires
        tcp_sockets(*old(set)).dom().contains(handle),
    ensures
        result is Ok <==> tcp_sockets(*old(set))[handle].may_recv(),
        match result {
            Ok(n) => {
                let tcp = tcp_sockets(*old(set))[handle];
                &&& n == tcp.recv_len(old(buffer)@.len() as int)
                &&& n <= tcp.rx.len()
                &&& n == 0 ==> tcp.rx.len() == 0 || old(buffer)@.len() == 0
                &&& final(buffer)@ == tcp.rx.take(n as int) + old(buffer)@.skip(n as int)
                &&& tcp_sockets(*final(set)) == tcp_sockets(*old(set)).insert(
                    handle,
                    if peek {
                        tcp
                    } else {
                        tcp.received(n as int)
                    },
                )
            },
            Err(_) => {
                &&& final(buffer)@ == old(buffer)@
                &&& tcp_sockets(*final(set)) == tcp_sockets(*old(set))
            },
        },
        set_grows(*final(set)) == set_grows(*old(set)),
{
    let received = set.get::<TcpSocket>(handle).recv(|data| copy_received(data, buffer, peek));
    received
}

/// `TcpSocket::send_slice` of a socket in the set: refused unless the transmit half is open. As
/// many octets are taken as there is room for.
#[verifier::external_body]
pub(crate) fn tcp_send_slice(
    set: &mut SocketSet<'static>,
    handle: SocketHandle,
    buffer: &[u8],
) -> (result: Result<usize, StackError>)
    requires
        tcp_sockets(*old(set)).dom().contains(handle),
    ensures
        result is Ok <==> tcp_sockets(*old(set))[handle].may_send(),
        match result {
            Ok(n) => {
                let tcp = tcp_sockets(*old(set))[handle];
                &&& n == tcp.send_len(buffer@.len() as int)
                &&& tcp_sockets(*final(set)) == tcp_sockets(*old(set)).insert(
                    handle,
                    tcp.sending(buffer@.take(n as int)),
                )
            },
            Err(_) => tcp_sockets(*final(set)) == tcp_sockets(*old(set)),
        },
        set_grows(*final(set)) == set_grows(*old(set)),
{
    let sent = set.get::<TcpSocket>(handle).send_slice(buffer);
    sent
}

/// `TcpSocket::register_send_waker` of a socket in the set: the slot for the transmit half still
/// holds the waker from before if `Waker::will_wake` tells that it wakes the same task, and else a
/// copy of the given one.
#[verifier::external_body]
pub(crate) fn tcp_register_send_waker(
    set: &mut SocketSet<'static>,
    handle: SocketHandle,
    waker: &Waker,
)
    requires
        tcp_sockets(*old(set)).dom().contains(handle),
    ensures
        match tcp_sockets(*old(set))[handle].tx_waker {
            Some(previous) if will_wake(previous, *waker) => {
                tcp_sockets(*final(set))[handle].tx_waker == Some(previous)
            },
            _ => {
                &&& tcp_sockets(*final(set))[handle].tx_waker matches Some(copy)
                &&& cloned(*waker, copy)
            },
        },
        tcp_sockets(*final(set)) == tcp_sockets(*old(set)).insert(
            handle,
            (TcpModel {
                tx_waker: tcp_sockets(*final(set))[handle].tx_waker,
                ..tcp_sockets(*old(set))[handle]
            }),
        ),
        set_grows(*final(set)) == set_grows(*old(set)),
{
    set.get::<TcpSocket>(handle).register_send_waker(waker)
}

/// `TcpSocket::register_recv_waker` of a socket in the set: the slot for the receive half still
/// holds the waker from before if `Waker::will_wake` tells that it wakes the same task, and else a
/// copy of the given one.
#[verifier::external_body]
pub(crate) fn tcp_register_recv_waker(
    set: &mut SocketSet<'static>,
    handle: SocketHandle,
    waker: &Waker,
)
    requires
        tcp_sockets(*old(set)).dom().contains(handle),
    ensures
        match tcp_sockets(*old(set))[handle].rx_waker {
            Some(previous) if will_wake(previous, *waker) => {
                tcp_sockets(*final(set))[handle].rx_waker == Some(previous)
            },
            _ => {
                &&& tcp_sockets(*final(set))[handle].rx_waker matches Some(copy)
                &&& cloned(*waker, copy)
            },
        },
        tcp_sockets(*final(set)) == tcp_sockets(*old(set)).insert(
            handle,
            (TcpModel {
                rx_waker: tcp_sockets(*final(set))[handle].rx_waker,
                ..tcp_sockets(*old(set))[handle]
            }),
        ),
        set_grows(*final(set)) == set_grows(*old(set)),
{
    set.get::<TcpSocket>(handle).register_recv_waker(waker)
}

/// Giving up a hold undoes taking it.
pub proof fn law_release_undoes_retain(
    tcp: Map<SocketHandle, TcpModel>,
    handles: Set<SocketHandle>,
)
    ensures
        released(retained(tcp, handles), handles) == tcp,
{
    assert(released(retained(tcp, handles), handles) =~= tcp);
}

/// Reading in pieces gives the octets in the order in which they were received: what two reads take
/// out is the start of what was there.
pub proof fn law_reads_in_order(tcp: TcpModel, first: int, second: int)
    requires
        0 <= first,
        0 <= second,
        first + second <= tcp.rx.len(),
    ensures
        tcp.rx.take(first) + tcp.received(first).rx.take(second) == tcp.rx.take(first + second),
        tcp.received(first).received(second).rx == tcp.received(first + second).rx,
{
    assert(tcp.rx.take(first) + tcp.received(first).rx.take(second) =~= tcp.rx.take(
        first + second,
    ));
    assert(tcp.received(first).received(second).rx =~= tcp.received(first + second).rx);
}

/// Writing in pieces sends the octets in the order in which they were written.
pub proof fn law_writes_in_order(tcp: TcpModel, first: Seq<u8>, second: Seq<u8>)
    ensures
        tcp.sending(first).sending(second) == tcp.sending(first + second),
{
    assert(tcp.sending(first).sending(second).tx =~= tcp.sending(first + second).tx);
}

/// What a socket can do goes by the state of its connection and by what its buffers hold.
pub proof fn law_states_tell_what_can_be_done(tcp: TcpModel)
    ensures
        tcp.is_open() <==> tcp.state != TcpState::Closed && tcp.state != TcpState::TimeWait,
        tcp.is_active() <==> tcp.is_open() && tcp.state != TcpState::Listen,
        tcp.may_send() <==> tcp.state == TcpState::Established || tcp.state
            == TcpState::CloseWait,
        tcp.may_recv() <==> tcp.state == TcpState::Established || tcp.state == TcpState::FinWait1
            || tcp.state == TcpState::FinWait2 || tcp.rx.len() > 0,
        tcp.can_send() <==> tcp.may_send() && tcp.tx.len() < tcp.tx_capacity,
        tcp.can_recv() <==> tcp.rx.len() > 0,
        tcp.is_connected() <==> tcp.may_recv() && tcp.may_send(),
{
}

/// As much is taken to be sent as there is room for, and no less: all of it, or what fills the
/// buffer.
pub proof fn law_takes_what_fits(tcp: TcpModel, len: int)
    requires
        0 <= len,
        tcp.tx.len() <= tcp.tx_capacity,
    ensures
        0 <= tcp.send_len(len) <= len,
        tcp.tx.len() + tcp.send_len(len) <= tcp.tx_capacity,
        tcp.send_len(len) == len || tcp.tx.len() + tcp.send_len(len) == tcp.tx_capacity,
{
}

/// As much is received at a time as the buffer of the caller takes and lies in one piece. If all
/// does, nothing is held back.
pub proof fn law_receives_what_is_there(tcp: TcpModel, len: int)
    requires
        0 <= len,
        tcp.rx_at <= tcp.rx_capacity,
    ensures
        0 <= tcp.recv_len(len) <= len,
        tcp.recv_len(len) <= tcp.rx.len(),
        tcp.rx_at + tcp.rx.len() <= tcp.rx_capacity ==> tcp.recv_len(len) == len
            || tcp.recv_len(len) == tcp.rx.len(),
        len > 0 && tcp.rx.len() > 0 && tcp.rx_at < tcp.rx_capacity ==> tcp.recv_len(len) > 0,
{
}

/// What is handed over to be sent comes after what is still to be sent, and what is received is
/// taken from the start of what is there; nothing else of the socket changes.
pub proof fn law_transfers_touch_one_buffer(tcp: TcpModel, octets: Seq<u8>, n: int)
    requires
        0 <= n <= tcp.rx.len(),
    ensures
        tcp.sending(octets).tx == tcp.tx + octets,
        tcp.sending(octets) == (TcpModel { tx: tcp.tx + octets, ..tcp }),
        tcp.rx == tcp.rx.take(n) + tcp.received(n).rx,
        tcp.received(n).rx.len() == tcp.rx.len() - n,
        tcp.received(n) == (TcpModel {
            rx: tcp.received(n).rx,
            rx_at: tcp.received(n).rx_at,
            ..tcp
        }),
{
    assert(tcp.rx =~= tcp.rx.take(n) + tcp.received(n).rx);
}

/// A socket that is not open can be connected from any port but zero to any endpoint that has an
/// address and a port: it then asks exactly that endpoint for a connection. Else it stays as it is.
pub proof fn law_told_to_connect(tcp: TcpModel, remote: IpEndpoint, local: IpEndpoint)
    ensures
        ({
            let after = tcp.told_to_connect(remote, local);
            if !tcp.is_open() && !remote.addr.is_unspecified() && remote.port != 0 && local.port
                != 0 {
                &&& after.state == TcpState::SynSent
                &&& after.remote == remote
                &&& after.local.port == local.port
                &&& !(local.addr is Unspecified) ==> after.local == local
                &&& after.rx.len() == 0 && after.tx.len() == 0
                &&& after.rx_capacity == tcp.rx_capacity && after.tx_capacity == tcp.tx_capacity
                &&& after.refs == tcp.refs
            } else {
                after == tcp
            }
        }),
{
}

/// A socket that is not open can be made to listen on any port but zero. Else it stays as it is.
pub proof fn law_told_to_listen(tcp: TcpModel, local: IpEndpoint)
    ensures
        ({
            let after = tcp.told_to_listen(local);
            if !tcp.is_open() && local.port != 0 {
                &&& after.state == TcpState::Listen
                &&& after.local == local
                &&& after.remote.addr is Unspecified && after.remote.port == 0
                &&& after.rx.len() == 0 && after.tx.len() == 0
                &&& after.rx_capacity == tcp.rx_capacity && after.tx_capacity == tcp.tx_capacity
                &&& after.refs == tcp.refs
            } else {
                after == tcp
            }
        }),
{
}

/// A new socket is closed, holds nothing in its buffers and is held once.
pub proof fn law_new_socket_is_closed(size: nat)
    ensures
        ({
            let tcp = TcpModel::fresh(size);
            &&& tcp.state == TcpState::Closed
            &&& tcp.refs == 1
            &&& tcp.rx.len() == 0 && tcp.tx.len() == 0
            &&& tcp.rx_at == 0
            &&& tcp.rx_capacity == size && tcp.tx_capacity == size
            &&& tcp.hop_limit is None
            &&& tcp.rx_waker is None && tcp.tx_waker is None
            &&& !tcp.is_open()
        }),
{
}

/// Taking and giving up holds changes how often the sockets in question are held, by one, and
/// nothing else of any socket.
pub proof fn law_holds_are_counted(
    tcp: Map<SocketHandle, TcpModel>,
    handles: Set<SocketHandle>,
    handle: SocketHandle,
)
    requires
        tcp.dom().contains(handle),
        tcp[handle].refs > 0,
    ensures
        retained(tcp, handles).dom() == tcp.dom(),
        released(tcp, handles).dom() == tcp.dom(),
        retained(tcp, handles)[handle] == (TcpModel {
            refs: if handles.contains(handle) {
                tcp[handle].refs + 1
            } else {
                tcp[handle].refs
            },
            ..tcp[handle]
        }),
        released(tcp, handles)[handle] == (TcpModel {
            refs: if handles.contains(handle) {
                (tcp[handle].refs - 1) as nat
            } else {
                tcp[handle].refs
            },
            ..tcp[handle]
        }),
{
    assert(retained(tcp, handles).dom() =~= tcp.dom());
    assert(released(tcp, handles).dom() =~= tcp.dom());
}

/// Registering a waker leaves one in place that wakes the same task: a copy of it, or the one from
/// before if both are known to wake the same task. Only the halves in question are touched.
pub proof fn law_registered_waker_is_kept(
    before: Map<SocketHandle, TcpModel>,
    after: Map<SocketHandle, TcpModel>,
    waker: Waker,
    sends: Set<SocketHandle>,
    recvs: Set<SocketHandle>,
    handle: SocketHandle,
)
    requires
        wakers_registered(before, after, waker, sends, recvs),
        before.dom().contains(handle),
    ensures
        after.dom() == before.dom(),
        sends.contains(handle) ==> (after[handle].tx_waker matches Some(kept) && (cloned(
            waker,
            kept,
        ) || before[handle].tx_waker == Some(kept) && will_wake(kept, waker))),
        recvs.contains(handle) ==> (after[handle].rx_waker matches Some(kept) && (cloned(
            waker,
            kept,
        ) || before[handle].rx_waker == Some(kept) && will_wake(kept, waker))),
        !sends.contains(handle) ==> after[handle].tx_waker == before[handle].tx_waker,
        !recvs.contains(handle) ==> after[handle].rx_waker == before[handle].rx_waker,
        after[handle] == (TcpModel {
            tx_waker: after[handle].tx_waker,
            rx_waker: after[handle].rx_waker,
            ..before[handle]
        }),
{
    let now = after[handle];
}

} // verus!
