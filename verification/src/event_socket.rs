//! Sockets that report the events of other sockets.
use vstd::prelude::*;

use crate::event::Event;
use crate::io::{Error, ErrorKind, IoResult};
use crate::net::Socket;
use crate::poll::PollEventsRaw;

verus! {

/// A socket that reports the events of other sockets.
#[derive(Debug)]
pub struct AsyncEventSocket {
    /// What is of interest in which socket.
    pub events: Vec<Event>,
}

impl View for AsyncEventSocket {
    type V = Seq<Event>;

    open spec fn view(&self) -> Seq<Event> {
        self.events@
    }
}

/// The error of adding an interest in a socket that there is an interest in.
pub open spec fn event_exists() -> Error {
    Error {
        kind: ErrorKind::AlreadyExists,
        msg: "an event for the specified socket already exists",
    }
}

/// The error of an interest that asks for no event.
pub open spec fn no_events() -> Error {
    Error { kind: ErrorKind::InvalidData, msg: "no events specified" }
}

/// The error of an interest that there is not.
pub open spec fn event_not_found() -> Error {
    Error {
        kind: ErrorKind::NotFound,
        msg: "this socket is not part of the specified event socket",
    }
}

/// The first interest in a socket is the one at the given place.
pub open spec fn first_at(events: Seq<Event>, socket: Socket, i: int) -> bool {
    &&& 0 <= i < events.len()
    &&& events[i].socket == socket
    &&& forall|j: int| 0 <= j < i ==> (#[trigger] events[j]).socket != socket
}

/// The place of the first interest in a socket.
pub open spec fn place(events: Seq<Event>, socket: Socket) -> Option<int> {
    if exists|i: int| first_at(events, socket, i) {
        Some(choose|i: int| first_at(events, socket, i))
    } else {
        None
    }
}

/// There is at most one interest in a socket.
pub open spec fn unique(events: Seq<Event>) -> bool {
    forall|i: int, j: int|
        0 <= i < j < events.len() ==> (#[trigger] events[i]).socket != (
        #[trigger] events[j]).socket
}

/// Each interest asks for some side of its socket.
pub open spec fn all_ask(events: Seq<Event>) -> bool {
    forall|i: int|
        0 <= i < events.len() ==> (#[trigger] events[i]).flags.reads() || events[i].flags.writes()
}

/// The interests after one was added, and what comes of it.
pub open spec fn adding(events: Seq<Event>, event: Event) -> (Seq<Event>, IoResult<()>) {
    if !event.flags.reads() && !event.flags.writes() {
        (events, Err(no_events()))
    } else if place(events, event.socket) is None {
        (events.push(event), Ok(()))
    } else {
        (events, Err(event_exists()))
    }
}

/// The interests after one was replaced, and what comes of it.
pub open spec fn modifying(events: Seq<Event>, event: Event) -> (Seq<Event>, IoResult<()>) {
    if !event.flags.reads() && !event.flags.writes() {
        (events, Err(no_events()))
    } else {
        match place(events, event.socket) {
            Some(i) => (events.update(i, event), Ok(())),
            None => (events, Err(event_not_found())),
        }
    }
}

/// The interests after one was removed, and what comes of it.
pub open spec fn removing(events: Seq<Event>, socket: Socket) -> (Seq<Event>, IoResult<()>) {
    match place(events, socket) {
        Some(i) => (events.remove(i), Ok(())),
        None => (events, Err(event_not_found())),
    }
}

impl AsyncEventSocket {
    /// A socket without interests.
    pub fn new() -> (socket: Self)
        ensures
            socket@ == Seq::<Event>::empty(),
    {
        AsyncEventSocket { events: Vec::new() }
    }

    /// The place of the first interest in a socket.
    fn find(&self, socket: Socket) -> (found: Option<usize>)
        ensures
            match found {
                Some(i) => place(self@, socket) == Some(i as int) && i < self@.len(),
                None => place(self@, socket) is None,
            },
    {
        let mut i: usize = 0;
        while i < self.events.len()
            invariant
                i <= self@.len(),
                forall|j: int| 0 <= j < i ==> (#[trigger] self@[j]).socket != socket,
            decreases self@.len() - i,
        {
            if self.events[i].socket == socket {
                proof {
                    lemma_place(self@, socket, i as int);
                }
                return Some(i);
            }
            i += 1;
        }
        None
    }

    /// Adds an interest in a socket, at most one for each. It has to ask for some event.
    pub fn add_event(&mut self, event: Event) -> (result: IoResult<()>)
        ensures
            (final(self)@, result) == adding(old(self)@, event),
    {
        if !event.flags.reads() && !event.flags.writes() {
            return Err(Error::new(ErrorKind::InvalidData, "no events specified"));
        }
        match self.find(event.socket) {
            Some(_) => Err(
                Error::new(
                    ErrorKind::AlreadyExists,
                    "an event for the specified socket already exists",
                ),
            ),
            None => {
                self.events.push(event);
                Ok(())
            },
        }
    }

    /// Replaces the interest in a socket. It has to ask for some event.
    pub fn modify_event(&mut self, event: Event) -> (result: IoResult<()>)
        ensures
            (final(self)@, result) == modifying(old(self)@, event),
    {
        if !event.flags.reads() && !event.flags.writes() {
            return Err(Error::new(ErrorKind::InvalidData, "no events specified"));
        }
        match self.find(event.socket) {
            Some(i) => {
                self.events[i] = event;
                Ok(())
            },
            None => Err(
                Error::new(
                    ErrorKind::NotFound,
                    "this socket is not part of the specified event socket",
                ),
            ),
        }
    }

    /// Removes the interest in a socket.
    pub fn remove_socket(&mut self, socket: Socket) -> (result: IoResult<()>)
        ensures
            (final(self)@, result) == removing(old(self)@, socket),
    {
        match self.find(socket) {
            Some(i) => {
                let _ = self.events.remove(i);
                Ok(())
            },
            None => Err(
                Error::new(
                    ErrorKind::NotFound,
                    "this socket is not part of the specified event socket",
                ),
            ),
        }
    }

    /// Waits for one of the events.
    pub fn poll_events(&self) -> (raw: PollEventsRaw)
        ensures
            raw.events@ == self@,
    {
        let events = self.events.clone();
        assert(events@ =~= self@);
        PollEventsRaw::new(events)
    }

    /// Where a waker for reading is to be registered: for writing on the sockets of the first list,
    /// for reading on those of the second.
    pub fn register_recv_waker(&self) -> (sockets: (Vec<Socket>, Vec<Socket>))
        ensures
            sockets.0@ == self@.filter(|event: Event| event.flags.writes()).map_values(
                |event: Event| event.socket,
            ),
            sockets.1@ == self@.filter(|event: Event| event.flags.reads()).map_values(
                |event: Event| event.socket,
            ),
    {
        let mut send: Vec<Socket> = Vec::new();
        let mut recv: Vec<Socket> = Vec::new();
        let mut i: usize = 0;
        let ghost writes = |event: Event| event.flags.writes();
        let ghost reads = |event: Event| event.flags.reads();
        let ghost socket = |event: Event| event.socket;
        reveal(Seq::filter);
        while i < self.events.len()
            invariant
                i <= self@.len(),
                writes == (|event: Event| event.flags.writes()),
                reads == (|event: Event| event.flags.reads()),
                socket == (|event: Event| event.socket),
                send@ == self@.take(i as int).filter(writes).map_values(socket),
                recv@ == self@.take(i as int).filter(reads).map_values(socket),
            decreases self@.len() - i,
        {
            let event = self.events[i];
            proof {
                reveal(Seq::filter);
                assert(self@.take(i + 1).drop_last() =~= self@.take(i as int));
            }
            if event.flags.writes() {
                send.push(event.socket);
            }
            if event.flags.reads() {
                recv.push(event.socket);
            }
            i += 1;
            assert(send@ =~= self@.take(i as int).filter(writes).map_values(socket));
            assert(recv@ =~= self@.take(i as int).filter(reads).map_values(socket));
        }
        assert(self@.take(i as int) =~= self@);
        (send, recv)
    }
}

/// The place of the first interest is known by what it is.
proof fn lemma_place(events: Seq<Event>, socket: Socket, i: int)
    requires
        first_at(events, socket, i),
    ensures
        place(events, socket) == Some(i),
{
    let j = choose|j: int| first_at(events, socket, j);
    assert(first_at(events, socket, j));
    if i < j {
        assert(events[i].socket != socket);
    } else if j < i {
        assert(events[j].socket != socket);
    }
}

/// If there is an interest in a socket, there is a first one.
proof fn lemma_first(events: Seq<Event>, socket: Socket, i: int)
    requires
        0 <= i < events.len(),
        events[i].socket == socket,
    ensures
        place(events, socket) is Some,
        0 <= place(events, socket)->0 <= i,
        events[place(events, socket)->0].socket == socket,
    decreases i,
{
    if exists|j: int| 0 <= j < i && (#[trigger] events[j]).socket == socket {
        let j = choose|j: int| 0 <= j < i && (#[trigger] events[j]).socket == socket;
        lemma_first(events, socket, j);
    } else {
        assert(first_at(events, socket, i));
        lemma_place(events, socket, i);
    }
}

/// There is never more than one interest in a socket: no operation on the interests brings a second
/// one about.
pub proof fn law_one_event_per_socket(events: Seq<Event>, event: Event, socket: Socket)
    requires
        unique(events),
    ensures
        unique(Seq::<Event>::empty()),
        unique(adding(events, event).0),
        unique(modifying(events, event).0),
        unique(removing(events, socket).0),
{
    let added = adding(events, event).0;
    assert forall|i: int, j: int| 0 <= i < j < added.len() implies (
    #[trigger] added[i]).socket != (#[trigger] added[j]).socket by {
        if added[i].socket == added[j].socket && i < events.len() {
            if j == events.len() {
                lemma_first(events, event.socket, i);
            }
        }
    }
    if let Some(k) = place(events, event.socket) {
        assert(first_at(events, event.socket, k));
        let modified = modifying(events, event).0;
        assert forall|i: int, j: int| 0 <= i < j < modified.len() implies (
        #[trigger] modified[i]).socket != (#[trigger] modified[j]).socket by {
            assert(events[i].socket != events[j].socket);
        }
    }
    if let Some(k) = place(events, socket) {
        assert(first_at(events, socket, k));
        let removed = removing(events, socket).0;
        assert forall|i: int, j: int| 0 <= i < j < removed.len() implies (
        #[trigger] removed[i]).socket != (#[trigger] removed[j]).socket by {
            let i0 = if i < k { i } else { i + 1 };
            let j0 = if j < k { j } else { j + 1 };
            assert(events[i0].socket != events[j0].socket);
        }
    }
}

/// Every interest asks for some event: no operation on the interests lets one in that does not.
pub proof fn law_interests_ask_for_events(events: Seq<Event>, event: Event, socket: Socket)
    requires
        all_ask(events),
    ensures
        all_ask(Seq::<Event>::empty()),
        all_ask(adding(events, event).0),
        all_ask(modifying(events, event).0),
        all_ask(removing(events, socket).0),
        !event.flags.reads() && !event.flags.writes() ==> {
            &&& adding(events, event) == (events, Err::<(), Error>(no_events()))
            &&& modifying(events, event) == (events, Err::<(), Error>(no_events()))
        },
{
    if let Some(k) = place(events, event.socket) {
        assert(first_at(events, event.socket, k));
    }
    if let Some(k) = place(events, socket) {
        assert(first_at(events, socket, k));
    }
}

/// Removing an interest undoes adding it, and it can be added only once.
pub proof fn law_remove_undoes_add(events: Seq<Event>, event: Event)
    requires
        adding(events, event).1 is Ok,
    ensures
        removing(adding(events, event).0, event.socket) == (events, Ok::<(), Error>(())),
        adding(adding(events, event).0, event).1 == Err::<(), Error>(event_exists()),
{
    let added = adding(events, event).0;
    assert forall|j: int| 0 <= j < events.len() implies (
    #[trigger] added[j]).socket != event.socket by {
        if added[j].socket == event.socket {
            assert(events[j].socket == event.socket);
            lemma_first(events, event.socket, j);
        }
    }
    assert(first_at(added, event.socket, events.len() as int));
    lemma_place(added, event.socket, events.len() as int);
    assert(added.remove(events.len() as int) =~= events);
}

/// Once the interest in a socket was removed, there is none that could be replaced or removed.
pub proof fn law_removed_is_gone(events: Seq<Event>, event: Event)
    requires
        unique(events),
        removing(events, event.socket).1 is Ok,
    ensures
        modifying(removing(events, event.socket).0, event).1 == Err::<(), Error>(
            if event.flags.reads() || event.flags.writes() {
                event_not_found()
            } else {
                no_events()
            },
        ),
        removing(removing(events, event.socket).0, event.socket).1 == Err::<(), Error>(
            event_not_found(),
        ),
{
    let k = place(events, event.socket)->0;
    assert(first_at(events, event.socket, k));
    let removed = removing(events, event.socket).0;
    assert forall|i: int| !first_at(removed, event.socket, i) by {
        if first_at(removed, event.socket, i) {
            let i0 = if i < k { i } else { i + 1 };
            assert(events[i0].socket == event.socket);
            if i0 < k {
                assert(events[i0].socket != events[k].socket);
            } else {
                assert(events[k].socket != events[i0].socket);
            }
        }
    }
}

/// An interest that asks for an event, in a socket that there is no interest in, is added after all
/// others; there is none else that is. One in a socket that there is an interest in is refused.
pub proof fn law_interest_is_added(events: Seq<Event>, event: Event)
    requires
        event.flags.reads() || event.flags.writes(),
    ensures
        (exists|i: int| 0 <= i < events.len() && (#[trigger] events[i]).socket == event.socket)
            ==> {
            &&& adding(events, event).0 == events
            &&& adding(events, event).1 matches Err(error)
            &&& error.kind == ErrorKind::AlreadyExists
        },
        (forall|i: int| 0 <= i < events.len() ==> (#[trigger] events[i]).socket != event.socket)
            ==> adding(events, event) == (events.push(event), Ok::<(), Error>(())),
{
    if exists|i: int| 0 <= i < events.len() && (#[trigger] events[i]).socket == event.socket {
        let i = choose|i: int|
            0 <= i < events.len() && (#[trigger] events[i]).socket == event.socket;
        lemma_first(events, event.socket, i);
    }
}

/// The interest in a socket is replaced, or taken out, where it is, and all others stay as they are
/// and in order. If there is none, that is told.
pub proof fn law_interest_is_changed_in_its_place(events: Seq<Event>, event: Event, i: int)
    requires
        unique(events),
        event.flags.reads() || event.flags.writes(),
    ensures
        0 <= i < events.len() && events[i].socket == event.socket ==> {
            &&& modifying(events, event) == (events.update(i, event), Ok::<(), Error>(()))
            &&& removing(events, event.socket) == (events.remove(i), Ok::<(), Error>(()))
        },
        (forall|j: int| 0 <= j < events.len() ==> (#[trigger] events[j]).socket != event.socket)
            ==> {
            &&& modifying(events, event).0 == events && removing(events, event.socket).0 == events
            &&& modifying(events, event).1 matches Err(error)
            &&& error.kind == ErrorKind::NotFound
            &&& removing(events, event.socket).1 == modifying(events, event).1
        },
{
    if 0 <= i < events.len() && events[i].socket == event.socket {
        lemma_first(events, event.socket, i);
        let k = place(events, event.socket)->0;
        if k < i {
            assert(events[k].socket != events[i].socket);
        }
    }
}

/// Each reason for which interests are not changed has the kind that tells it.
pub proof fn law_interest_errors_tell_the_reason()
    ensures
        event_exists().kind == ErrorKind::AlreadyExists,
        no_events().kind == ErrorKind::InvalidData,
        event_not_found().kind == ErrorKind::NotFound,
{
}

} // verus!
