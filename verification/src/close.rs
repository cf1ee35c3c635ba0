//! Closing a socket.
use vstd::prelude::*;

use std::task::Waker;

use crate::io::{Error, IoResult};
use crate::net::Socket;
use crate::nic::NetworkInterface;
use crate::poll::{TaskPoll, WakeOn};
use crate::socket::SocketView;
use crate::socket_map::{EntryView, SocketMap};

verus! {

broadcast use vstd::map::group_map_axioms;

/// How far closing a socket has come.
#[derive(Debug, Clone, Copy, PartialEq, Eq, Structural)]
pub enum ClosePhase {
    /// Nothing was done yet.
    Start,
    /// The socket knows that it is to be closed, but may not be yet.
    Waiting,
}

/// The future of closing a socket.
#[derive(Debug, Clone, Copy)]
pub struct CloseFuture {
    pub socket: Socket,
    pub phase: ClosePhase,
}

/// The entry of a socket that is being closed.
pub open spec fn begun(entry: EntryView, phase: ClosePhase) -> EntryView {
    if phase is Start {
        EntryView { closing: true, ..entry }
    } else {
        entry
    }
}

impl CloseFuture {
    /// Starts to close a socket.
    pub fn new(socket: Socket) -> (future: Self)
        ensures
            future == (CloseFuture { socket, phase: ClosePhase::Start }),
    {
        CloseFuture { socket, phase: ClosePhase::Start }
    }

    /// Polls the future: closes the socket as soon as it may be, and takes it out of the map. Until
    /// then it waits for the socket.
    pub fn poll(
        &mut self,
        socket_map: &mut SocketMap,
        nic: &mut NetworkInterface,
        waker: &Waker,
        wakes: &mut Vec<Waker>,
    ) -> (poll: TaskPoll<IoResult<()>>)
        requires
            old(socket_map).wf(*old(nic)),
        ensures
            *final(self) == (match poll {
                TaskPoll::Ready(_) => *old(self),
                TaskPoll::Pending => CloseFuture { phase: ClosePhase::Waiting, ..*old(self) },
            }),
            match crate::socket_map::lookup(old(socket_map)@, old(self).socket.id as int) {
                None => {
                    &&& poll == TaskPoll::Ready(Err::<(), Error>(crate::socket_map::unknown()))
                    &&& final(socket_map)@ == old(socket_map)@
                    &&& final(nic).tcp() == old(nic).tcp()
                    &&& final(wakes)@ == old(wakes)@
                },
                Some(entry) => {
                    let id = old(self).socket.id as int;
                    if entry.socket is Unbound {
                        &&& poll == TaskPoll::Ready(Err::<(), Error>(crate::socket::unbound()))
                        &&& final(socket_map)@ == old(socket_map)@
                        &&& final(nic).tcp() == old(nic).tcp()
                        &&& final(wakes)@ == old(wakes)@
                    } else if entry.socket.may_close(old(nic).tcp()) {
                        &&& poll == TaskPoll::Ready(Ok::<(), Error>(()))
                        &&& final(socket_map)@ == old(socket_map)@.update(id, None)
                        &&& final(nic).tcp() == crate::smol::released(
                            old(nic).tcp(),
                            entry.socket.handles().to_set(),
                        )
                        &&& final(wakes)@ == old(wakes)@ + entry.socket.close_wakes()
                    } else {
                        &&& poll == TaskPoll::<IoResult<()>>::Pending
                        &&& crate::interest::waits(
                            (
                                old(socket_map)@.update(
                                    id,
                                    Some(begun(entry, old(self).phase)),
                                ),
                                old(nic).tcp(),
                            ),
                            (final(socket_map)@, final(nic).tcp()),
                            *waker,
                            set![id],
                            set![id],
                        )
                        &&& final(wakes)@ == old(wakes)@
                    }
                },
            },
            poll == TaskPoll::Ready(Ok::<(), Error>(())) ==> {
                &&& crate::socket_map::lookup(old(socket_map)@, old(self).socket.id as int)
                    matches Some(entry)
                &&& entry.socket matches SocketView::Tcp(tcp) ==> (tcp.held matches
                    crate::tcp::Held::Handle(handle) ==> (old(nic).tcp()[handle].may_send()
                    ==> old(nic).tcp()[handle].tx == Seq::<u8>::empty()))
            },
            final(nic).same_but_sockets(*old(nic)),
            final(socket_map).wf(*final(nic)),
    {
        proof {
            if let Some(entry) = crate::socket_map::lookup(socket_map@, self.socket.id as int) {
                crate::socket::law_closing_waits_for_what_is_to_be_sent(entry.socket, nic.tcp());
            }
        }
        let socket = self.socket;
        let ghost id = socket.id as int;
        let ghost before = (socket_map@, nic.tcp());
        proof {
            crate::socket_map::lemma_owned_live(socket_map@, nic.tcp(), id);
        }
        if let ClosePhase::Start = self.phase {
            match socket_map.get_mut(socket) {
                Ok(entry) => {
                    match entry.async_socket.init_close() {
                        Ok(()) => {
                            entry.closing = true;
                        },
                        Err(error) => {
                            assert(socket_map@ =~= before.0);
                            return TaskPoll::Ready(Err(error));
                        },
                    }
                },
                Err(error) => {
                    return TaskPoll::Ready(Err(error));
                },
            }
        }
        let ghost mid = socket_map@;
        proof {
            assert(crate::socket_map::lookup(before.0, id) matches Some(entry) ==> mid
                =~= before.0.update(id, Some(begun(entry, old(self).phase))));
            assert forall|other: int| #[trigger]
                crate::socket_map::held(mid, other) == crate::socket_map::held(before.0, other) by {
            }
            crate::socket_map::lemma_owned_kept(before, (mid, nic.tcp()));
        }
        let may_close = match socket_map.get(socket) {
            Ok(entry) => match entry.async_socket.may_close(nic) {
                Ok(may_close) => may_close,
                Err(error) => {
                    return TaskPoll::Ready(Err(error));
                },
            },
            Err(error) => {
                return TaskPoll::Ready(Err(error));
            },
        };
        if !may_close {
            assert(crate::interest::reading_ends(mid, id, 1));
            socket_map.register_wake_task_waker(socket, waker, WakeOn::SendRecv, nic);
            self.phase = ClosePhase::Waiting;
            proof {
                crate::interest::lemma_no_interests(mid, id);
                assert(crate::interest::woken_sends(mid, id, WakeOn::SendRecv) =~= set![id]);
                assert(crate::interest::woken_recvs(mid, id, WakeOn::SendRecv) =~= set![id]);
            }
            return TaskPoll::Pending;
        }
        if let Ok(entry) = socket_map.get_mut(socket) {
            let _ = entry.async_socket.close(wakes);
        }
        if let Ok(entry) = socket_map.get(socket) {
            if let Ok(false) = entry.async_socket.is_closed() {
                socket_map.register_wake_task_waker(socket, waker, WakeOn::SendRecv, nic);
                return TaskPoll::Pending;
            }
        }
        if let Ok(entry) = socket_map.take(socket) {
            entry.async_socket.release(nic);
        }
        proof {
            assert(socket_map@ =~= before.0.update(id, None));
            crate::socket_map::lemma_owned_replaced(
                before,
                (socket_map@, nic.tcp()),
                id,
                SocketView::Unbound,
            );
        }
        TaskPoll::Ready(Ok(()))
    }
}

/// Beginning to close a socket marks it, once, and changes nothing else of it.
pub proof fn law_closing_marks_the_socket(entry: EntryView)
    ensures
        begun(entry, ClosePhase::Start).closing,
        begun(entry, ClosePhase::Start) == (EntryView { closing: true, ..entry }),
        begun(entry, ClosePhase::Waiting) == entry,
{
}

} // verus!
