//! Sockets that are woken by hand.
use vstd::prelude::*;

use std::task::Waker;

use crate::event::EventFlags;
use crate::net::Socket;

verus! {

/// A socket whose events are sent by its user.
#[derive(Debug)]
pub struct AsyncWakerSocket {
    pub socket: Option<Socket>,
    /// The flags of the event that was sent last and not seen yet.
    pub event_flags: u32,
    pub send_waker: Option<Waker>,
    pub recv_waker: Option<Waker>,
}

impl AsyncWakerSocket {
    /// The socket after an event was sent to it.
    pub open spec fn sent(self, flags: EventFlags) -> AsyncWakerSocket {
        AsyncWakerSocket {
            event_flags: flags.0,
            recv_waker: if flags.reads() {
                None
            } else {
                self.recv_waker
            },
            ..self
        }
    }

    /// A socket that nothing was sent to.
    pub fn new(socket: Option<Socket>) -> (waker_socket: Self)
        ensures
            waker_socket == (AsyncWakerSocket {
                socket,
                event_flags: EventFlags::NONE,
                send_waker: None,
                recv_waker: None,
            }),
    {
        AsyncWakerSocket {
            socket,
            event_flags: EventFlags::NONE,
            send_waker: None,
            recv_waker: None,
        }
    }

    /// Names the socket.
    pub fn set_socket(&mut self, socket: Socket)
        ensures
            *final(self) == (AsyncWakerSocket { socket: Some(socket), ..*old(self) }),
    {
        self.socket = Some(socket);
    }

    /// Registers the waker of the one who waits for writing.
    pub fn register_exclusive_send_waker(&mut self, waker: &Waker)
        ensures
            final(self).send_waker is Some,
            cloned(*waker, final(self).send_waker->0),
            *final(self) == (AsyncWakerSocket {
                send_waker: final(self).send_waker,
                ..*old(self)
            }),
    {
        self.send_waker = Some(waker.clone());
    }

    /// Registers the waker of the one who waits for reading.
    pub fn register_exclusive_recv_waker(&mut self, waker: &Waker)
        ensures
            final(self).recv_waker is Some,
            cloned(*waker, final(self).recv_waker->0),
            *final(self) == (AsyncWakerSocket {
                recv_waker: final(self).recv_waker,
                ..*old(self)
            }),
    {
        self.recv_waker = Some(waker.clone());
    }

    /// The flags of the event that was sent last, if it was not seen before.
    pub fn get_event_flags(&mut self) -> (flags: EventFlags)
        ensures
            flags.0 == old(self).event_flags,
            *final(self) == (AsyncWakerSocket { event_flags: EventFlags::NONE, ..*old(self) }),
    {
        let flags: u32 = self.event_flags;
        self.event_flags = EventFlags::NONE;
        EventFlags(flags)
    }

    /// Wakes the one who waits for writing.
    pub fn wake_send(&mut self, wakes: &mut Vec<Waker>)
        ensures
            *final(self) == (AsyncWakerSocket { send_waker: None, ..*old(self) }),
            final(wakes)@ == old(wakes)@ + crate::waker::pending(old(self).send_waker),
    {
        if let Some(waker) = self.send_waker.take() {
            wakes.push(waker);
        }
        assert(wakes@ =~= old(wakes)@ + crate::waker::pending(old(self).send_waker));
    }

    /// Wakes the one who waits for reading.
    pub fn wake_recv(&mut self, wakes: &mut Vec<Waker>)
        ensures
            *final(self) == (AsyncWakerSocket { recv_waker: None, ..*old(self) }),
            final(wakes)@ == old(wakes)@ + crate::waker::pending(old(self).recv_waker),
    {
        if let Some(waker) = self.recv_waker.take() {
            wakes.push(waker);
        }
        assert(wakes@ =~= old(wakes)@ + crate::waker::pending(old(self).recv_waker));
    }

    /// Closes the socket: whoever waits is woken.
    pub fn close(&mut self, wakes: &mut Vec<Waker>)
        ensures
            *final(self) == (AsyncWakerSocket { send_waker: None, recv_waker: None, ..*old(self) }),
            final(wakes)@ == old(wakes)@ + crate::waker::pending(old(self).send_waker)
                + crate::waker::pending(old(self).recv_waker),
    {
        self.wake_send(wakes);
        self.wake_recv(wakes);
    }

    /// Sends an event in place of the one that was sent before. The one who waits for reading is
    /// woken if a flag of the reading side is set.
    pub fn send_event(&mut self, event_flags: EventFlags, wakes: &mut Vec<Waker>)
        ensures
            *final(self) == old(self).sent(event_flags),
            event_flags.reads() ==> (old(self).recv_waker matches Some(task)
                ==> final(wakes)@.last() == task && final(wakes)@.len() == old(wakes)@.len() + 1),
            *final(self) == (AsyncWakerSocket {
                event_flags: event_flags.0,
                recv_waker: if event_flags.reads() {
                    None
                } else {
                    old(self).recv_waker
                },
                ..*old(self)
            }),
            final(wakes)@ == (if event_flags.reads() {
                old(wakes)@ + crate::waker::pending(old(self).recv_waker)
            } else {
                old(wakes)@
            }),
    {
        if event_flags.reads() {
            self.wake_recv(wakes);
        }
        self.event_flags = event_flags.0;
    }
}

/// The event that was sent last is the one that is there, with all of its flags. Who waits for
/// reading is woken for it exactly if it has a flag of the reading side; nothing else changes.
pub proof fn law_last_event_is_there(
    socket: AsyncWakerSocket,
    first: EventFlags,
    second: EventFlags,
)
    ensures
        socket.sent(first).event_flags == first.0,
        socket.sent(first).sent(second).event_flags == second.0,
        socket.sent(first).recv_waker is None <==> socket.recv_waker is None || first.reads(),
        !first.reads() ==> socket.sent(first).recv_waker == socket.recv_waker,
        socket.sent(first).send_waker == socket.send_waker,
        socket.sent(first).socket == socket.socket,
{
}

} // verus!
