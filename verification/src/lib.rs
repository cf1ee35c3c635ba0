//! Sockets for a unikernel.
pub mod close;
pub mod endpoint;
pub mod event;
pub mod event_socket;
pub mod executor;
pub mod interest;
pub mod io;
pub mod legacy;
pub mod look;
pub mod map_entry;
pub mod net;
pub mod nic;
pub mod poll;
pub mod proxy;
pub mod smol;
pub mod socket;
pub mod socket_map;
pub mod sys;
pub mod sys_tcp;
pub mod tcp;
pub mod tcp_backlog;
pub mod turn;
pub mod waker;
pub mod waker_socket;
