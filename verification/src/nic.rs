//! The network interface: its TCP sockets, whether it has work, and how it is polled.
use vstd::prelude::*;

use smoltcp::socket::{SocketHandle, SocketSet};

use crate::net::Ipv4Addr;
use crate::smol::{
    set_add_tcp, set_new, tcp_can_recv, tcp_can_send, tcp_is_active, tcp_is_open, tcp_may_recv,
    tcp_may_send,
};
use crate::socket::HandleWrapper;

verus! {

broadcast use vstd::map::group_map_axioms;

/// Size of the receive and of the transmit buffer of a TCP socket.
pub const TCP_BUFFER_SIZE: usize = 65535;

/// The network interface, once it was looked for.
#[derive(Debug)]
pub enum NetworkState<N> {
    Missing,
    InitializationFailed,
    Initialized(N),
}

impl<N> NetworkState<N> {
    /// The interface, which must have been initialized.
    pub fn with(&mut self) -> (nic: &mut N)
        requires
            *old(self) is Initialized,
        ensures
            *old(self) == NetworkState::Initialized(*nic),
            *final(self) == NetworkState::Initialized(*final(nic)),
    {
        match self {
            NetworkState::Initialized(nic) => nic,
            _ => vstd::pervasive::unreached(),
        }
    }

    /// Tells whether there is an interface to work with.
    pub fn is_initialized(&self) -> (initialized: bool)
        ensures
            initialized == (*self is Initialized),
    {
        matches!(self, NetworkState::Initialized(_))
    }
}

/// An IPv4 address with the length of its network prefix.
#[derive(Debug, Clone, Copy, PartialEq, Eq, Structural)]
pub struct Ipv4Cidr {
    pub address: Ipv4Addr,
    pub prefix_len: u8,
}

/// What a DHCP server offers.
#[derive(Debug, Clone, Copy, PartialEq, Eq, Structural)]
pub struct DhcpConfig {
    pub address: Option<Ipv4Cidr>,
    pub router: Option<Ipv4Addr>,
}

/// What happened last while the interface is polled.
#[derive(Debug, Clone, Copy, PartialEq, Eq, Structural)]
pub enum NicEvent {
    /// Polling begins.
    Start,
    /// The device was polled: whether sockets may have changed, or nothing if it failed.
    Polled(Option<bool>),
    /// The DHCP client was polled: the configuration that it got, if any.
    Configured(Option<DhcpConfig>),
}

/// What is to be done next while the interface is polled.
#[derive(Debug, Clone, Copy, PartialEq, Eq, Structural)]
pub enum NicAction {
    /// Poll the device.
    PollDevice,
    /// Poll the DHCP client.
    PollDhcp,
    /// Replace the first address of the interface and set the default route, each if given.
    /// Polling is then over.
    Configure { address: Option<Ipv4Cidr>, router: Option<Ipv4Addr> },
}

/// What a TCP socket is able to do.
#[derive(Debug, Clone, Copy, PartialEq, Eq, Structural)]
pub struct TcpStatus {
    pub is_open: bool,
    pub is_active: bool,
    pub may_send: bool,
    pub may_recv: bool,
    pub can_send: bool,
    pub can_recv: bool,
}

/// The sockets of the network interface and its state.
#[derive(Debug)]
pub struct NetworkInterface {
    /// The sockets that are polled.
    pub socket_set: SocketSet<'static>,
    /// The IPv4 address that was last assigned by DHCP.
    pub prev_cidr: Ipv4Cidr,
    /// Whether a socket was changed since the last poll.
    pub woken: bool,
}

impl crate::smol::TcpModel {
    /// What the socket is able to do.
    pub open spec fn status(self) -> TcpStatus {
        TcpStatus {
            is_open: self.is_open(),
            is_active: self.is_active(),
            may_send: self.may_send(),
            may_recv: self.may_recv(),
            can_send: self.can_send(),
            can_recv: self.can_recv(),
        }
    }
}

/// The address is in the "unspecified" range.
pub open spec fn unspecified_v4(addr: Ipv4Addr) -> bool {
    addr.a == 0
}

impl NetworkInterface {
    /// The TCP sockets of the interface, by their handles.
    pub open spec fn tcp(self) -> Map<SocketHandle, crate::smol::TcpModel> {
        crate::smol::tcp_sockets(self.socket_set)
    }

    /// Sockets can be added.
    pub open spec fn wf(self) -> bool {
        crate::smol::set_grows(self.socket_set)
    }

    /// The two interfaces are the same but for their sockets.
    pub open spec fn same_but_sockets(self, other: NetworkInterface) -> bool {
        self.prev_cidr == other.prev_cidr && self.woken == other.woken && self.wf() == other.wf()
    }

    /// The offered address is taken: it is new and not in the "unspecified" range.
    pub open spec fn takes(self, config: DhcpConfig) -> bool {
        &&& config.address matches Some(cidr)
        &&& cidr != self.prev_cidr
        &&& !unspecified_v4(cidr.address)
    }

    /// What is to be done next while the interface is polled, given what happened last.
    pub open spec fn next_action(self, event: NicEvent) -> NicAction {
        match event {
            NicEvent::Start => NicAction::PollDevice,
            NicEvent::Polled(changed) => if changed == Some(false) {
                NicAction::PollDhcp
            } else {
                NicAction::PollDevice
            },
            NicEvent::Configured(None) => NicAction::Configure { address: None, router: None },
            NicEvent::Configured(Some(config)) => NicAction::Configure {
                address: if self.takes(config) {
                    config.address
                } else {
                    None
                },
                router: config.router,
            },
        }
    }

    /// An interface without sockets.
    pub fn new(prev_cidr: Ipv4Cidr) -> (nic: Self)
        ensures
            nic.wf(),
            nic.tcp().dom() == Set::<SocketHandle>::empty(),
            nic.prev_cidr == prev_cidr,
            !nic.woken,
    {
        NetworkInterface { socket_set: set_new(), prev_cidr, woken: false }
    }

    /// Adds a new TCP socket.
    pub fn create_tcp_handle(&mut self) -> (handle: HandleWrapper)
        requires
            old(self).wf(),
        ensures
            !old(self).tcp().dom().contains(handle.0),
            final(self).tcp() == old(self).tcp().insert(
                handle.0,
                crate::smol::TcpModel::fresh(TCP_BUFFER_SIZE as nat),
            ),
            final(self).same_but_sockets(*old(self)),
    {
        HandleWrapper::new(set_add_tcp(&mut self.socket_set, TCP_BUFFER_SIZE))
    }

    /// What the socket with the given handle is able to do.
    pub fn status(&mut self, handle: SocketHandle) -> (status: TcpStatus)
        requires
            old(self).tcp().dom().contains(handle),
        ensures
            status == old(self).tcp()[handle].status(),
            final(self).tcp() == old(self).tcp(),
            final(self).same_but_sockets(*old(self)),
    {
        let is_open = tcp_is_open(&mut self.socket_set, handle);
        let is_active = tcp_is_active(&mut self.socket_set, handle);
        let may_send = tcp_may_send(&mut self.socket_set, handle);
        let may_recv = tcp_may_recv(&mut self.socket_set, handle);
        let can_send = tcp_can_send(&mut self.socket_set, handle);
        let can_recv = tcp_can_recv(&mut self.socket_set, handle);
        TcpStatus { is_open, is_active, may_send, may_recv, can_send, can_recv }
    }

    /// Notes that the interface has work.
    pub fn wake(&mut self)
        ensures
            final(self).woken,
            final(self).tcp() == old(self).tcp(),
            final(self).prev_cidr == old(self).prev_cidr,
            final(self).wf() == old(self).wf(),
    {
        self.woken = true;
    }

    /// Tells whether a socket was changed since the last poll.
    pub fn was_woken(&self) -> (woken: bool)
        ensures
            woken == self.woken,
    {
        self.woken
    }

    /// One step of polling the interface: given what happened last, what is to be done next.
    ///
    /// The device is polled until it has nothing more to do, also after a failure, then the DHCP
    /// client. Its configuration is applied as far as it is new.
    pub fn poll(&mut self, event: NicEvent) -> (action: NicAction)
        ensures
            final(self).tcp() == old(self).tcp(),
            final(self).wf() == old(self).wf(),
            final(self).woken == (old(self).woken && !(event is Start)),
            final(self).prev_cidr == (match event {
                NicEvent::Configured(Some(config)) if old(self).takes(
                    config,
                ) => config.address->0,
                _ => old(self).prev_cidr,
            }),
            action == (match event {
                NicEvent::Start => NicAction::PollDevice,
                NicEvent::Polled(Some(false)) => NicAction::PollDhcp,
                NicEvent::Polled(_) => NicAction::PollDevice,
                NicEvent::Configured(None) => NicAction::Configure { address: None, router: None },
                NicEvent::Configured(Some(config)) => NicAction::Configure {
                    address: if old(self).takes(config) {
                        config.address
                    } else {
                        None
                    },
                    router: config.router,
                },
            }),
            action == old(self).next_action(event),
    {
        match event {
            NicEvent::Start => {
                self.woken = false;
                NicAction::PollDevice
            },
            NicEvent::Polled(changed) => {
                if changed.unwrap_or(true) {
                    NicAction::PollDevice
                } else {
                    NicAction::PollDhcp
                }
            },
            NicEvent::Configured(None) => NicAction::Configure { address: None, router: None },
            NicEvent::Configured(Some(config)) => {
                let mut address: Option<Ipv4Cidr> = None;
                if let Some(cidr) = config.address {
                    if cidr != self.prev_cidr && cidr.address.a != 0 {
                        self.prev_cidr = cidr;
                        address = Some(cidr);
                    }
                }
                NicAction::Configure { address, router: config.router }
            },
        }
    }
}

/// A configuration is applied once: offered again, it changes nothing more.
pub proof fn law_dhcp_address_applied_once(
    before: NetworkInterface,
    after: NetworkInterface,
    config: DhcpConfig,
)
    requires
        after.prev_cidr == (if before.takes(config) {
            config.address->0
        } else {
            before.prev_cidr
        }),
    ensures
        !after.takes(config),
{
}

/// The status of a socket is what the socket is able to do.
pub proof fn law_status_is_what_can_be_done(tcp: crate::smol::TcpModel)
    ensures
        tcp.status().is_open == tcp.is_open(),
        tcp.status().is_active == tcp.is_active(),
        tcp.status().may_send == tcp.may_send(),
        tcp.status().may_recv == tcp.may_recv(),
        tcp.status().can_send == tcp.can_send(),
        tcp.status().can_recv == tcp.can_recv(),
{
}

/// An address that is offered is taken exactly if it is not the one that was taken last, by address
/// or by prefix, and does not begin with a zero octet.
pub proof fn law_dhcp_address_is_taken(nic: NetworkInterface, config: DhcpConfig)
    ensures
        nic.takes(config) <==> (config.address matches Some(cidr) && cidr.address.a != 0 && (
        cidr.address != nic.prev_cidr.address || cidr.prefix_len != nic.prev_cidr.prefix_len)),
{
}

/// The device is polled until it tells that nothing changed, also after a failure, and only then
/// the DHCP client. What it offers ends the poll: the default route as offered, and the address if
/// it is new and not in the "unspecified" range.
pub proof fn law_device_is_polled_until_it_is_quiet(
    nic: NetworkInterface,
    changed: Option<bool>,
    config: DhcpConfig,
)
    ensures
        nic.next_action(NicEvent::Start) == NicAction::PollDevice,
        nic.next_action(NicEvent::Polled(changed)) == NicAction::PollDhcp <==> changed == Some(
            false,
        ),
        nic.next_action(NicEvent::Polled(changed)) == NicAction::PollDevice <==> changed != Some(
            false,
        ),
        nic.next_action(NicEvent::Configured(None)) == (NicAction::Configure {
            address: None,
            router: None,
        }),
        nic.next_action(NicEvent::Configured(Some(config))) matches NicAction::Configure {
            address,
            router,
        } && router == config.router && match address {
            Some(cidr) => config.address == Some(cidr) && cidr != nic.prev_cidr && cidr.address.a
                != 0,
            None => config.address matches Some(cidr) ==> cidr == nic.prev_cidr || cidr.address.a
                == 0,
        },
{
}

/// Where two interfaces are the same but for their sockets, both were woken or neither, both have
/// the same address assigned, and sockets can be added to both or to neither.
pub proof fn law_same_but_sockets(one: NetworkInterface, other: NetworkInterface)
    ensures
        one.same_but_sockets(other) <==> one.woken == other.woken && one.prev_cidr
            == other.prev_cidr && one.wf() == other.wf(),
{
}

} // verus!
