//! Looking for what there is to report: the flags of sockets, and the events of interest.
use vstd::prelude::*;

use smoltcp::socket::SocketHandle;

use crate::event::{Event, EventFlags};
use crate::io::IoResult;
use crate::net::Socket;
use crate::nic::NetworkInterface;
use crate::poll::{Poll, WakeOn};
use crate::smol::TcpModel;
use crate::socket::{AsyncSocket, SocketView};
use crate::socket_map::{EntryView, SocketMap};
use crate::waker_socket::AsyncWakerSocket;

verus! {

broadcast use vstd::map::group_map_axioms;

/// The flags of a socket, none if there is no such socket or it is not bound, and the sockets after
/// the look at it. Nothing if interests lead further than as many steps.
///
/// The flags of a waker socket are seen once. An event socket is readable if one of the sockets of
/// interest has one of the flags of interest; they are looked at in turn until then.
pub open spec fn flags_within(
    map: Seq<Option<EntryView>>,
    tcp: Map<SocketHandle, TcpModel>,
    id: int,
    steps: nat,
) -> Option<(Option<u32>, Seq<Option<EntryView>>)>
    decreases steps, 0nat,
{
    match crate::socket_map::lookup(map, id) {
        None => Some((None, map)),
        Some(entry) => match entry.socket {
            SocketView::Unbound => Some((None, map)),
            SocketView::Tcp(socket) => Some((Some(socket.flags(tcp)), map)),
            SocketView::Waker(waker) => Some(
                (
                    Some(waker.event_flags),
                    map.update(
                        id,
                        Some(
                            EntryView {
                                socket: SocketView::Waker(
                                    AsyncWakerSocket { event_flags: EventFlags::NONE, ..waker },
                                ),
                                ..entry
                            },
                        ),
                    ),
                ),
            ),
            SocketView::Event(events) => {
                if steps == 0 {
                    None
                } else {
                    match some_match(map, tcp, events, (steps - 1) as nat) {
                        None => None,
                        Some((found, after)) => Some(
                            (
                                Some(
                                    if found {
                                        EventFlags::READABLE
                                    } else {
                                        EventFlags::NONE
                                    },
                                ),
                                after,
                            ),
                        ),
                    }
                }
            },
        },
    }
}

/// Whether one of the sockets of interest has one of the flags of interest, and the sockets after
/// the look. Nothing if interests lead further than as many steps.
pub open spec fn some_match(
    map: Seq<Option<EntryView>>,
    tcp: Map<SocketHandle, TcpModel>,
    events: Seq<Event>,
    steps: nat,
) -> Option<(bool, Seq<Option<EntryView>>)>
    decreases steps, events.len(),
{
    if events.len() == 0 {
        Some((false, map))
    } else {
        match flags_within(map, tcp, events[0].socket.id as int, steps) {
            None => None,
            Some((flags, after)) => {
                if flags is Some && flags->0 & events[0].flags.0 != EventFlags::NONE {
                    Some((true, after))
                } else {
                    some_match(after, tcp, events.skip(1), steps)
                }
            },
        }
    }
}

/// Looking at a socket comes to an end: its interests do not lead in circles.
pub open spec fn flags_end(
    map: Seq<Option<EntryView>>,
    tcp: Map<SocketHandle, TcpModel>,
    id: int,
) -> bool {
    exists|steps: nat| flags_within(map, tcp, id, steps) is Some
}

/// The flags of a socket, none if there is no such socket or it is not bound, and the sockets after
/// the look at it.
pub open spec fn flags_of(
    map: Seq<Option<EntryView>>,
    tcp: Map<SocketHandle, TcpModel>,
    id: int,
) -> (Option<u32>, Seq<Option<EntryView>>) {
    let steps = choose|steps: nat| flags_within(map, tcp, id, steps) is Some;
    flags_within(map, tcp, id, steps)->0
}

impl SocketMap {
    /// The flags of a socket, found by following its interests for as many steps at most.
    fn look(&mut self, socket: Socket, nic: &mut NetworkInterface, Ghost(steps): Ghost<nat>) -> (
    flags: Option<u32>)
        requires
            old(self).wf(*old(nic)),
            flags_within(old(self)@, old(nic).tcp(), socket.id as int, steps) is Some,
        ensures
            Some((flags, final(self)@)) == flags_within(
                old(self)@,
                old(nic).tcp(),
                socket.id as int,
                steps,
            ),
            final(self).wf(*final(nic)),
            final(nic).tcp() == old(nic).tcp(),
            final(nic).same_but_sockets(*old(nic)),
        decreases steps,
    {
        let ghost id = socket.id as int;
        proof {
            crate::socket_map::lemma_owned_live(self@, nic.tcp(), id);
        }
        let events = self.interests_of(socket);
        let mut is_event: bool = false;
        let mut flags: Option<u32> = None;
        if let Ok(entry) = self.get_mut(socket) {
            match &mut entry.async_socket {
                AsyncSocket::Unbound => {},
                AsyncSocket::Tcp(tcp) => {
                    flags = Some(tcp.get_event_flags(nic).0);
                },
                AsyncSocket::Waker(waker) => {
                    flags = Some(waker.get_event_flags().0);
                },
                AsyncSocket::Event(_) => {
                    is_event = true;
                },
            }
        }
        proof {
            assert forall|id: int| #[trigger]
                crate::socket_map::held(self@, id) == crate::socket_map::held(old(self)@, id) by {}
            crate::socket_map::lemma_owned_kept(
                (old(self)@, old(nic).tcp()),
                (self@, nic.tcp()),
            );
        }
        if !is_event {
            return flags;
        }
        assert(self@ =~= old(self)@);
        let mut i: usize = 0;
        assert(events@.skip(0) =~= events@);
        while i < events.len()
            invariant
                i <= events@.len(),
                steps > 0,
                self.wf(*nic),
                nic.tcp() == old(nic).tcp(),
                nic.same_but_sockets(*old(nic)),
                some_match(self@, nic.tcp(), events@.skip(i as int), (steps - 1) as nat)
                    == some_match(old(self)@, nic.tcp(), events@, (steps - 1) as nat),
                some_match(old(self)@, nic.tcp(), events@, (steps - 1) as nat) is Some,
                flags_within(old(self)@, old(nic).tcp(), socket.id as int, steps) == Some(
                    (
                        Some(
                            if (some_match(
                                old(self)@,
                                nic.tcp(),
                                events@,
                                (steps - 1) as nat,
                            )->0).0 {
                                EventFlags::READABLE
                            } else {
                                EventFlags::NONE
                            },
                        ),
                        (some_match(old(self)@, nic.tcp(), events@, (steps - 1) as nat)->0).1,
                    ),
                ),
            decreases events@.len() - i,
        {
            let event = events[i];
            assert(events@.skip(i as int)[0] == event);
            assert(events@.skip(i as int).skip(1) =~= events@.skip(i + 1));
            let found = self.look(event.socket, nic, Ghost((steps - 1) as nat));
            if let Some(found) = found {
                if found & event.flags.0 != EventFlags::NONE {
                    return Some(EventFlags::READABLE);
                }
            }
            i += 1;
        }
        Some(EventFlags::NONE)
    }

    /// The flags of a socket, none if there is no such socket or it is not bound.
    pub fn get_event_flags(&mut self, socket: Socket, nic: &mut NetworkInterface) -> (flags: Option<
        u32,
    >)
        requires
            old(self).wf(*old(nic)),
            flags_end(old(self)@, old(nic).tcp(), socket.id as int),
        ensures
            (flags, final(self)@) == flags_of(old(self)@, old(nic).tcp(), socket.id as int),
            final(self).wf(*final(nic)),
            final(nic).tcp() == old(nic).tcp(),
            final(nic).same_but_sockets(*old(nic)),
    {
        let ghost steps = choose|steps: nat|
            flags_within(self@, nic.tcp(), socket.id as int, steps) is Some;
        self.look(socket, nic, Ghost(steps))
    }
}

/// What an interest amounts to, given the flags of its socket or none if the socket is gone or not
/// bound: what there is to report, or to wait. Nothing if the interest asks for neither side.
pub open spec fn event_outcome(flags: Option<u32>, event: Event) -> Option<Poll<IoResult<Event>>> {
    match flags {
        Some(flags) => {
            if flags & event.flags.0 != EventFlags::NONE {
                Some(
                    Poll::Ready(Ok(Event { flags: EventFlags(flags & event.flags.0), ..event })),
                )
            } else if event.flags.reads() || event.flags.writes() {
                Some(Poll::Pending(WakeOn::Recv))
            } else {
                None
            }
        },
        None => {
            if event.flags.reads() {
                Some(Poll::Ready(Ok(Event { flags: EventFlags(EventFlags::RCLOSED), ..event })))
            } else if event.flags.writes() {
                Some(Poll::Ready(Ok(Event { flags: EventFlags(EventFlags::WCLOSED), ..event })))
            } else {
                None
            }
        },
    }
}

/// What an interest amounts to, given the flags of its socket or none if the socket is gone or not
/// bound.
pub fn poll_event(flags: Option<u32>, event: Event) -> (outcome: Poll<IoResult<Event>>)
    requires
        event_outcome(flags, event) is Some,
    ensures
        Some(outcome) == event_outcome(flags, event),
        flags matches Some(bits) ==> {
            &&& outcome is Ready <==> bits & event.flags.0 != 0
            &&& outcome matches Poll::Ready(result) ==> (result matches Ok(reported)
                && reported.flags.0 == bits & event.flags.0)
        },
        flags is None ==> outcome is Ready,
{
    match flags {
        Some(flags) => {
            let matching: u32 = flags & event.flags.0;
            if matching != EventFlags::NONE {
                Poll::Ready(
                    Ok(
                        Event {
                            flags: EventFlags(matching),
                            socket: event.socket,
                            data: event.data,
                        },
                    ),
                )
            } else {
                Poll::Pending(WakeOn::Recv)
            }
        },
        None => {
            let closed: u32 = if event.flags.reads() {
                EventFlags::RCLOSED
            } else {
                EventFlags::WCLOSED
            };
            Poll::Ready(
                Ok(Event { flags: EventFlags(closed), socket: event.socket, data: event.data }),
            )
        },
    }
}

/// What comes of a look at the sockets of interest.
pub ghost struct EventsPoll {
    /// What is to be reported.
    pub ready: Option<Event>,
    /// How many interests were found to have nothing to report.
    pub pending: nat,
    /// The sockets after the look.
    pub map: Seq<Option<EntryView>>,
}

/// What comes of a look at the sockets of interest, in turn until there is something to report.
/// Nothing if interests lead further than as many steps, or if one asks for neither side.
pub open spec fn first_event_within(
    map: Seq<Option<EntryView>>,
    tcp: Map<SocketHandle, TcpModel>,
    events: Seq<Event>,
    steps: nat,
) -> Option<EventsPoll>
    decreases events.len(),
{
    if events.len() == 0 {
        Some(EventsPoll { ready: None, pending: 0, map })
    } else {
        match flags_within(map, tcp, events[0].socket.id as int, steps) {
            None => None,
            Some((flags, after)) => match event_outcome(flags, events[0]) {
                None => None,
                Some(Poll::Ready(Ok(event))) => Some(
                    EventsPoll { ready: Some(event), pending: 0, map: after },
                ),
                Some(_) => match first_event_within(after, tcp, events.skip(1), steps) {
                    None => None,
                    Some(rest) => Some(EventsPoll { pending: rest.pending + 1, ..rest }),
                },
            },
        }
    }
}

/// Looking at the sockets of interest comes to an end, and each interest asks for some side.
pub open spec fn first_event_ends(
    map: Seq<Option<EntryView>>,
    tcp: Map<SocketHandle, TcpModel>,
    events: Seq<Event>,
) -> bool {
    exists|steps: nat| first_event_within(map, tcp, events, steps) is Some
}

/// What comes of a look at the sockets of interest, in turn until there is something to report.
pub open spec fn first_event(
    map: Seq<Option<EntryView>>,
    tcp: Map<SocketHandle, TcpModel>,
    events: Seq<Event>,
) -> EventsPoll {
    let steps = choose|steps: nat| first_event_within(map, tcp, events, steps) is Some;
    first_event_within(map, tcp, events, steps)->0
}

/// The events that come of as many looks at most, each from the first interest on, and the sockets
/// after them. The looks end with the first that has nothing to report.
pub open spec fn gathered_within(
    map: Seq<Option<EntryView>>,
    tcp: Map<SocketHandle, TcpModel>,
    events: Seq<Event>,
    most: nat,
    steps: nat,
) -> Option<(Seq<Event>, Seq<Option<EntryView>>)>
    decreases most,
{
    if most == 0 {
        Some((seq![], map))
    } else {
        match first_event_within(map, tcp, events, steps) {
            None => None,
            Some(poll) => match poll.ready {
                None => Some((seq![], poll.map)),
                Some(event) => match gathered_within(
                    poll.map,
                    tcp,
                    events,
                    (most - 1) as nat,
                    steps,
                ) {
                    None => None,
                    Some((rest, after)) => Some((seq![event] + rest, after)),
                },
            },
        }
    }
}

/// Each of as many looks at the sockets of interest comes to an end.
pub open spec fn gathering_ends(
    map: Seq<Option<EntryView>>,
    tcp: Map<SocketHandle, TcpModel>,
    events: Seq<Event>,
    most: nat,
) -> bool {
    exists|steps: nat| gathered_within(map, tcp, events, most, steps) is Some
}

/// The events that come of as many looks at most, and the sockets after them.
pub open spec fn gathered(
    map: Seq<Option<EntryView>>,
    tcp: Map<SocketHandle, TcpModel>,
    events: Seq<Event>,
    most: nat,
) -> (Seq<Event>, Seq<Option<EntryView>>) {
    let steps = choose|steps: nat| gathered_within(map, tcp, events, most, steps) is Some;
    gathered_within(map, tcp, events, most, steps)->0
}

impl SocketMap {
    /// Looks at the sockets of interest, following interests for as many steps at most.
    fn look_for_event(
        &mut self,
        events: &Vec<Event>,
        nic: &mut NetworkInterface,
        Ghost(steps): Ghost<nat>,
    ) -> (poll: (Option<Event>, usize))
        requires
            old(self).wf(*old(nic)),
            first_event_within(old(self)@, old(nic).tcp(), events@, steps) is Some,
        ensures
            first_event_within(old(self)@, old(nic).tcp(), events@, steps) == Some(
                (EventsPoll { ready: poll.0, pending: poll.1 as nat, map: final(self)@ }),
            ),
            poll.1 <= events@.len(),
            final(self).wf(*final(nic)),
            final(nic).tcp() == old(nic).tcp(),
            final(nic).same_but_sockets(*old(nic)),
    {
        let ghost all = first_event_within(old(self)@, old(nic).tcp(), events@, steps)->0;
        let mut i: usize = 0;
        assert(events@.skip(0) =~= events@);
        while i < events.len()
            invariant
                i <= events@.len(),
                self.wf(*nic),
                nic.tcp() == old(nic).tcp(),
                nic.same_but_sockets(*old(nic)),
                first_event_within(old(self)@, old(nic).tcp(), events@, steps) == Some(all),
                first_event_within(self@, nic.tcp(), events@.skip(i as int), steps) matches Some(
                    rest,
                ) && all == (EventsPoll { pending: rest.pending + i as nat, ..rest }),
            decreases events@.len() - i,
        {
            let event = events[i];
            assert(events@.skip(i as int)[0] == event);
            assert(events@.skip(i as int).skip(1) =~= events@.skip(i + 1));
            let flags = self.look(event.socket, nic, Ghost(steps));
            if let Poll::Ready(Ok(ready)) = poll_event(flags, event) {
                return (Some(ready), i);
            }
            i += 1;
        }
        (None, i)
    }

    /// Looks at the sockets of interest, in turn until there is something to report.
    ///
    /// Gives what is to be reported and how many interests had nothing to report before it.
    pub fn first_event(&mut self, events: &Vec<Event>, nic: &mut NetworkInterface) -> (poll: (
        Option<Event>,
        usize,
    ))
        requires
            old(self).wf(*old(nic)),
            first_event_ends(old(self)@, old(nic).tcp(), events@),
        ensures
            first_event(old(self)@, old(nic).tcp(), events@) == (EventsPoll {
                ready: poll.0,
                pending: poll.1 as nat,
                map: final(self)@,
            }),
            poll.1 <= events@.len(),
            final(self).wf(*final(nic)),
            final(nic).tcp() == old(nic).tcp(),
            final(nic).same_but_sockets(*old(nic)),
    {
        let ghost steps = choose|steps: nat|
            first_event_within(self@, nic.tcp(), events@, steps) is Some;
        self.look_for_event(events, nic, Ghost(steps))
    }

    /// Gathers the events that come of as many looks at most.
    pub fn gather(&mut self, events: &Vec<Event>, nic: &mut NetworkInterface, most: usize) -> (
    reported: Vec<Event>)
        requires
            old(self).wf(*old(nic)),
            gathering_ends(old(self)@, old(nic).tcp(), events@, most as nat),
        ensures
            (reported@, final(self)@) == gathered(
                old(self)@,
                old(nic).tcp(),
                events@,
                most as nat,
            ),
            reported@.len() <= most,
            final(self).wf(*final(nic)),
            final(nic).tcp() == old(nic).tcp(),
            final(nic).same_but_sockets(*old(nic)),
    {
        let ghost steps = choose|steps: nat|
            gathered_within(self@, nic.tcp(), events@, most as nat, steps) is Some;
        let ghost all = gathered_within(self@, nic.tcp(), events@, most as nat, steps)->0;
        let mut reported: Vec<Event> = Vec::new();
        assert(reported@ + all.0 =~= all.0);
        while reported.len() < most
            invariant
                reported@.len() <= most,
                self.wf(*nic),
                nic.tcp() == old(nic).tcp(),
                nic.same_but_sockets(*old(nic)),
                gathered_within(
                    self@,
                    nic.tcp(),
                    events@,
                    (most - reported@.len()) as nat,
                    steps,
                ) matches Some(rest) && all == (reported@ + rest.0, rest.1),
                all == gathered(old(self)@, old(nic).tcp(), events@, most as nat),
            decreases most - reported@.len(),
        {
            let ghost left = (most - reported@.len()) as nat;
            let ghost before = reported@;
            match self.look_for_event(events, nic, Ghost(steps)).0 {
                Some(event) => {
                    reported.push(event);
                    proof {
                        let rest = gathered_within(
                            self@,
                            nic.tcp(),
                            events@,
                            (left - 1) as nat,
                            steps,
                        )->0;
                        assert(before + (seq![event] + rest.0) =~= reported@ + rest.0);
                    }
                },
                None => {
                    assert(reported@ + seq![] =~= reported@);
                    return reported;
                },
            }
        }
        assert(reported@ + seq![] =~= reported@);
        reported
    }
}

/// Each interest asks for some side, and is in a socket from which every way along interests meets
/// as many event sockets at most.
pub open spec fn all_nested(
    map: Seq<Option<EntryView>>,
    events: Seq<Event>,
    levels: nat,
) -> bool {
    forall|i: int|
        0 <= i < events.len() ==> {
            &&& crate::interest::nested(map, (#[trigger] events[i]).socket.id as int, levels)
            &&& events[i].flags.reads() || events[i].flags.writes()
        }
}

/// Looking at a socket whose interests do not lead in circles comes to an end, and changes no
/// interest.
proof fn lemma_nested_look(
    map: Seq<Option<EntryView>>,
    tcp: Map<SocketHandle, TcpModel>,
    id: int,
    levels: nat,
)
    requires
        crate::interest::nested(map, id, levels),
    ensures
        flags_within(map, tcp, id, levels) matches Some((_, after)) && crate::interest::same_interests(map, after),
    decreases levels, 0nat,
{
    if let Some(entry) = crate::socket_map::lookup(map, id) {
        match entry.socket {
            SocketView::Event(events) => {
                assert(crate::interest::is_event(map, id));
                assert forall|i: int| 0 <= i < events.len() implies crate::interest::nested(
                    map,
                    (#[trigger] events[i]).socket.id as int,
                    (levels - 1) as nat,
                ) by {
                    assert(crate::interest::nested(map, crate::interest::target(map, id, i), (levels - 1) as nat));
                }
                lemma_nested_match(map, tcp, events, (levels - 1) as nat);
            },
            _ => {},
        }
    }
}

/// Looking for a match at sockets whose interests do not lead in circles comes to an end, and
/// changes no interest.
proof fn lemma_nested_match(
    map: Seq<Option<EntryView>>,
    tcp: Map<SocketHandle, TcpModel>,
    events: Seq<Event>,
    levels: nat,
)
    requires
        forall|i: int|
            0 <= i < events.len() ==> crate::interest::nested(
                map,
                (#[trigger] events[i]).socket.id as int,
                levels,
            ),
    ensures
        some_match(map, tcp, events, levels) matches Some((_, after)) && crate::interest::same_interests(map, after),
    decreases levels, events.len(),
{
    if events.len() > 0 {
        lemma_nested_look(map, tcp, events[0].socket.id as int, levels);
        let after = (flags_within(map, tcp, events[0].socket.id as int, levels)->0).1;
        let rest = events.skip(1);
        assert forall|i: int| 0 <= i < rest.len() implies crate::interest::nested(
            after,
            (#[trigger] rest[i]).socket.id as int,
            levels,
        ) by {
            assert(rest[i] == events[i + 1]);
            crate::interest::lemma_same_nesting(map, after, rest[i].socket.id as int, levels);
        }
        lemma_nested_match(after, tcp, rest, levels);
    }
}

/// If interests do not lead in circles, looking at a socket comes to an end.
pub proof fn law_nested_flags_end(
    map: Seq<Option<EntryView>>,
    tcp: Map<SocketHandle, TcpModel>,
    id: int,
    levels: nat,
)
    requires
        crate::interest::nested(map, id, levels),
    ensures
        flags_end(map, tcp, id),
{
    lemma_nested_look(map, tcp, id, levels);
}

/// Looking for an event comes to an end if interests do not lead in circles and ask for some side.
proof fn lemma_nested_first(
    map: Seq<Option<EntryView>>,
    tcp: Map<SocketHandle, TcpModel>,
    events: Seq<Event>,
    levels: nat,
)
    requires
        all_nested(map, events, levels),
    ensures
        first_event_within(map, tcp, events, levels) matches Some(poll) && crate::interest::same_interests(
            map,
            poll.map,
        ),
    decreases events.len(),
{
    if events.len() > 0 {
        lemma_nested_look(map, tcp, events[0].socket.id as int, levels);
        let after = (flags_within(map, tcp, events[0].socket.id as int, levels)->0).1;
        let rest = events.skip(1);
        lemma_same_all_nested(map, after, events, levels);
        assert forall|i: int| 0 <= i < rest.len() implies {
            &&& crate::interest::nested(after, (#[trigger] rest[i]).socket.id as int, levels)
            &&& rest[i].flags.reads() || rest[i].flags.writes()
        } by {
            assert(rest[i] == events[i + 1]);
        }
        lemma_nested_first(after, tcp, rest, levels);
    }
}

/// Where interests are the same, all are nested alike.
proof fn lemma_same_all_nested(
    before: Seq<Option<EntryView>>,
    after: Seq<Option<EntryView>>,
    events: Seq<Event>,
    levels: nat,
)
    requires
        crate::interest::same_interests(before, after),
        all_nested(before, events, levels),
    ensures
        all_nested(after, events, levels),
{
    assert forall|i: int| 0 <= i < events.len() implies {
        &&& crate::interest::nested(after, (#[trigger] events[i]).socket.id as int, levels)
        &&& events[i].flags.reads() || events[i].flags.writes()
    } by {
        crate::interest::lemma_same_nesting(before, after, events[i].socket.id as int, levels);
    }
}

/// Gathering events comes to an end if interests do not lead in circles and ask for some side.
proof fn lemma_nested_gather(
    map: Seq<Option<EntryView>>,
    tcp: Map<SocketHandle, TcpModel>,
    events: Seq<Event>,
    most: nat,
    levels: nat,
)
    requires
        all_nested(map, events, levels),
    ensures
        gathered_within(map, tcp, events, most, levels) is Some,
    decreases most,
{
    if most > 0 {
        lemma_nested_first(map, tcp, events, levels);
        let poll = first_event_within(map, tcp, events, levels)->0;
        lemma_same_all_nested(map, poll.map, events, levels);
        lemma_nested_gather(poll.map, tcp, events, (most - 1) as nat, levels);
    }
}

impl SocketMap {
    /// Tells whether each interest asks for some side and is in a socket from which every way along
    /// interests meets as many event sockets at most.
    pub fn are_nested(&self, events: &Vec<Event>, levels: usize) -> (are_nested: bool)
        ensures
            are_nested == all_nested(self@, events@, levels as nat),
    {
        let mut i: usize = 0;
        while i < events.len()
            invariant
                i <= events@.len(),
                all_nested(self@, events@.take(i as int), levels as nat),
            decreases events@.len() - i,
        {
            let event = events[i];
            if !self.is_nested(event.socket, levels) || !(event.flags.reads()
                || event.flags.writes()) {
                assert(events@[i as int] == event);
                return false;
            }
            assert forall|j: int| 0 <= j < i + 1 implies {
                &&& crate::interest::nested(
                    self@,
                    (#[trigger] events@.take(i + 1)[j]).socket.id as int,
                    levels as nat,
                )
                &&& events@.take(i + 1)[j].flags.reads() || events@.take(i + 1)[j].flags.writes()
            } by {
                if j < i {
                    assert(events@.take(i + 1)[j] == events@.take(i as int)[j]);
                }
            }
            i += 1;
        }
        assert(events@.take(i as int) =~= events@);
        true
    }
}

/// Whether sockets went from `before` to `after` by looks at them: at most the flags of waker
/// sockets are cleared.
pub open spec fn looked_at(
    before: Seq<Option<EntryView>>,
    after: Seq<Option<EntryView>>,
) -> bool {
    &&& after.len() == before.len()
    &&& forall|id: int|
        0 <= id < before.len() ==> {
            ||| #[trigger] after[id] == before[id]
            ||| after[id] == cleared(before[id]) && before[id] is Some
                && (before[id]->0).socket is Waker
        }
}

/// The entry of a waker socket whose event was seen.
pub open spec fn cleared(entry: Option<EntryView>) -> Option<EntryView> {
    Some(
        EntryView {
            socket: SocketView::Waker(
                AsyncWakerSocket {
                    event_flags: EventFlags::NONE,
                    ..((entry->0).socket->Waker_0)
                },
            ),
            ..entry->0
        },
    )
}

/// A look at a socket clears at most the flags of waker sockets.
proof fn lemma_look(
    map: Seq<Option<EntryView>>,
    tcp: Map<SocketHandle, TcpModel>,
    id: int,
    steps: nat,
)
    ensures
        flags_within(map, tcp, id, steps) matches Some((_, after)) ==> looked_at(map, after),
    decreases steps, 0nat,
{
    if let Some(entry) = crate::socket_map::lookup(map, id) {
        match entry.socket {
            SocketView::Event(events) => {
                if steps > 0 {
                    lemma_look_for_match(map, tcp, events, (steps - 1) as nat);
                }
            },
            _ => {},
        }
    }
}

/// A look for a match clears at most the flags of waker sockets.
proof fn lemma_look_for_match(
    map: Seq<Option<EntryView>>,
    tcp: Map<SocketHandle, TcpModel>,
    events: Seq<Event>,
    steps: nat,
)
    ensures
        some_match(map, tcp, events, steps) matches Some((_, after)) ==> looked_at(map, after),
    decreases steps, events.len(),
{
    if events.len() > 0 {
        lemma_look(map, tcp, events[0].socket.id as int, steps);
        if let Some((_, after)) = flags_within(map, tcp, events[0].socket.id as int, steps) {
            lemma_look_for_match(after, tcp, events.skip(1), steps);
            if let Some((_, last)) = some_match(after, tcp, events.skip(1), steps) {
                lemma_looks_join(map, after, last);
            }
        }
    }
}

/// Looks after looks are looks.
proof fn lemma_looks_join(
    before: Seq<Option<EntryView>>,
    mid: Seq<Option<EntryView>>,
    after: Seq<Option<EntryView>>,
)
    requires
        looked_at(before, mid),
        looked_at(mid, after),
    ensures
        looked_at(before, after),
{
    assert forall|id: int| 0 <= id < before.len() implies {
        ||| #[trigger] after[id] == before[id]
        ||| after[id] == cleared(before[id]) && before[id] is Some
            && (before[id]->0).socket is Waker
    } by {
        assert(mid[id] == before[id] || mid[id] == cleared(before[id]));
    }
}

/// A look for an event clears at most the flags of waker sockets.
proof fn lemma_look_for_event(
    map: Seq<Option<EntryView>>,
    tcp: Map<SocketHandle, TcpModel>,
    events: Seq<Event>,
    steps: nat,
)
    ensures
        first_event_within(map, tcp, events, steps) matches Some(poll) ==> looked_at(map, poll.map),
    decreases events.len(),
{
    if events.len() > 0 {
        lemma_look(map, tcp, events[0].socket.id as int, steps);
        if let Some((_, after)) = flags_within(map, tcp, events[0].socket.id as int, steps) {
            lemma_look_for_event(after, tcp, events.skip(1), steps);
            if let Some(rest) = first_event_within(after, tcp, events.skip(1), steps) {
                lemma_looks_join(map, after, rest.map);
            }
        }
    }
}

/// Looking for the flags of a socket, or for an event, changes nothing but that the events of waker
/// sockets are seen.
pub proof fn law_looking_only_clears(
    map: Seq<Option<EntryView>>,
    tcp: Map<SocketHandle, TcpModel>,
    id: int,
    events: Seq<Event>,
)
    ensures
        flags_end(map, tcp, id) ==> looked_at(map, flags_of(map, tcp, id).1),
        first_event_ends(map, tcp, events) ==> looked_at(
            map,
            first_event(map, tcp, events).map,
        ),
{
    let steps = choose|steps: nat| flags_within(map, tcp, id, steps) is Some;
    lemma_look(map, tcp, id, steps);
    let steps = choose|steps: nat| first_event_within(map, tcp, events, steps) is Some;
    lemma_look_for_event(map, tcp, events, steps);
}

/// A look leaves all interests as they are.
proof fn lemma_looks_keep_interests(
    before: Seq<Option<EntryView>>,
    after: Seq<Option<EntryView>>,
)
    requires
        looked_at(before, after),
    ensures
        crate::interest::same_interests(before, after),
{
    assert forall|id: int|
        #![trigger crate::interest::interests(after, id)]
        #![trigger crate::interest::is_event(after, id)]
        crate::interest::interests(after, id) == crate::interest::interests(before, id) && crate::interest::is_event(after, id) == crate::interest::is_event(
            before,
            id,
        ) by {
        if 0 <= id < before.len() {
            assert(after[id] == before[id] || after[id] == cleared(before[id]));
        }
    }
}

/// If interests do not lead in circles and each asks for some side, waiting for events can be
/// done: a look comes to an end, and so does gathering as many events as wanted, before the look
/// and after it.
pub proof fn law_nested_waiting_ends(
    map: Seq<Option<EntryView>>,
    tcp: Map<SocketHandle, TcpModel>,
    events: Seq<Event>,
    most: nat,
    levels: nat,
)
    requires
        all_nested(map, events, levels),
    ensures
        first_event_ends(map, tcp, events),
        gathering_ends(map, tcp, events, most),
        gathering_ends(first_event(map, tcp, events).map, tcp, events, most),
{
    lemma_nested_first(map, tcp, events, levels);
    lemma_nested_gather(map, tcp, events, most, levels);
    let after = first_event(map, tcp, events).map;
    law_looking_only_clears(map, tcp, 0, events);
    lemma_looks_keep_interests(map, after);
    lemma_same_all_nested(map, after, events, levels);
    lemma_nested_gather(after, tcp, events, most, levels);
}

/// More steps make no difference once there are enough to look at a socket.
proof fn lemma_more_steps(
    map: Seq<Option<EntryView>>,
    tcp: Map<SocketHandle, TcpModel>,
    id: int,
    steps: nat,
    more: nat,
)
    requires
        steps <= more,
        flags_within(map, tcp, id, steps) is Some,
    ensures
        flags_within(map, tcp, id, more) == flags_within(map, tcp, id, steps),
    decreases steps, 0nat,
{
    if let Some(entry) = crate::socket_map::lookup(map, id) {
        match entry.socket {
            SocketView::Event(events) => {
                lemma_more_steps_to_match(
                    map,
                    tcp,
                    events,
                    (steps - 1) as nat,
                    (more - 1) as nat,
                );
            },
            _ => {},
        }
    }
}

/// More steps make no difference once there are enough to look for a match.
proof fn lemma_more_steps_to_match(
    map: Seq<Option<EntryView>>,
    tcp: Map<SocketHandle, TcpModel>,
    events: Seq<Event>,
    steps: nat,
    more: nat,
)
    requires
        steps <= more,
        some_match(map, tcp, events, steps) is Some,
    ensures
        some_match(map, tcp, events, more) == some_match(map, tcp, events, steps),
    decreases steps, events.len(),
{
    if events.len() > 0 {
        let id = events[0].socket.id as int;
        lemma_more_steps(map, tcp, id, steps, more);
        let (flags, after) = flags_within(map, tcp, id, steps)->0;
        if !(flags is Some && flags->0 & events[0].flags.0 != EventFlags::NONE) {
            lemma_more_steps_to_match(after, tcp, events.skip(1), steps, more);
        }
    }
}

/// More steps make no difference once there are enough to look for an event.
proof fn lemma_more_steps_to_event(
    map: Seq<Option<EntryView>>,
    tcp: Map<SocketHandle, TcpModel>,
    events: Seq<Event>,
    steps: nat,
    more: nat,
)
    requires
        steps <= more,
        first_event_within(map, tcp, events, steps) is Some,
    ensures
        first_event_within(map, tcp, events, more) == first_event_within(map, tcp, events, steps),
    decreases events.len(),
{
    if events.len() > 0 {
        let id = events[0].socket.id as int;
        lemma_more_steps(map, tcp, id, steps, more);
        let (flags, after) = flags_within(map, tcp, id, steps)->0;
        match event_outcome(flags, events[0]) {
            Some(Poll::Ready(Ok(_))) => {},
            _ => {
                lemma_more_steps_to_event(after, tcp, events.skip(1), steps, more);
            },
        }
    }
}

/// More steps make no difference once there are enough to gather events.
proof fn lemma_more_steps_to_gather(
    map: Seq<Option<EntryView>>,
    tcp: Map<SocketHandle, TcpModel>,
    events: Seq<Event>,
    most: nat,
    steps: nat,
    more: nat,
)
    requires
        steps <= more,
        gathered_within(map, tcp, events, most, steps) is Some,
    ensures
        gathered_within(map, tcp, events, most, more) == gathered_within(
            map,
            tcp,
            events,
            most,
            steps,
        ),
    decreases most,
{
    if most > 0 {
        lemma_more_steps_to_event(map, tcp, events, steps, more);
        let poll = first_event_within(map, tcp, events, steps)->0;
        if poll.ready is Some {
            lemma_more_steps_to_gather(poll.map, tcp, events, (most - 1) as nat, steps, more);
        }
    }
}

/// What there is to report does not depend on how many steps are allowed, as long as they are
/// enough.
pub proof fn law_enough_steps_are_enough(
    map: Seq<Option<EntryView>>,
    tcp: Map<SocketHandle, TcpModel>,
    id: int,
    events: Seq<Event>,
    most: nat,
    steps: nat,
)
    ensures
        flags_within(map, tcp, id, steps) matches Some(found) ==> flags_of(map, tcp, id) == found,
        first_event_within(map, tcp, events, steps) matches Some(found) ==> first_event(
            map,
            tcp,
            events,
        ) == found,
        gathered_within(map, tcp, events, most, steps) matches Some(found) ==> gathered(
            map,
            tcp,
            events,
            most,
        ) == found,
{
    if flags_within(map, tcp, id, steps) is Some {
        let other = choose|other: nat| flags_within(map, tcp, id, other) is Some;
        if steps <= other {
            lemma_more_steps(map, tcp, id, steps, other);
        } else {
            lemma_more_steps(map, tcp, id, other, steps);
        }
    }
    if first_event_within(map, tcp, events, steps) is Some {
        let other = choose|other: nat| first_event_within(map, tcp, events, other) is Some;
        if steps <= other {
            lemma_more_steps_to_event(map, tcp, events, steps, other);
        } else {
            lemma_more_steps_to_event(map, tcp, events, other, steps);
        }
    }
    if gathered_within(map, tcp, events, most, steps) is Some {
        let other = choose|other: nat| gathered_within(map, tcp, events, most, other) is Some;
        if steps <= other {
            lemma_more_steps_to_gather(map, tcp, events, most, steps, other);
        } else {
            lemma_more_steps_to_gather(map, tcp, events, most, other, steps);
        }
    }
}

/// An event that is reported has a flag of interest, or says that the socket of interest is gone.
pub proof fn law_reported_events_are_of_interest(flags: Option<u32>, event: Event)
    ensures
        match event_outcome(flags, event) {
            Some(Poll::Ready(Ok(reported))) => {
                &&& reported.socket == event.socket && reported.data == event.data
                &&& match flags {
                    Some(flags) => reported.flags.0 == flags & event.flags.0 && reported.flags.0
                        != EventFlags::NONE,
                    None => reported.flags.0 == EventFlags::RCLOSED || reported.flags.0
                        == EventFlags::WCLOSED,
                }
            },
            Some(Poll::Ready(Err(_))) => false,
            _ => true,
        },
{
}

/// An event that was sent to a waker socket is seen once: the first look gives its flags, the next
/// one none.
pub proof fn law_waker_event_is_seen_once(
    map: Seq<Option<EntryView>>,
    tcp: Map<SocketHandle, TcpModel>,
    id: int,
    waker: AsyncWakerSocket,
)
    requires
        crate::socket_map::lookup(map, id) matches Some(entry) && entry.socket
            == SocketView::Waker(waker),
    ensures
        flags_end(map, tcp, id),
        flags_of(map, tcp, id).0 == Some(waker.event_flags),
        flags_end(flags_of(map, tcp, id).1, tcp, id),
        flags_of(flags_of(map, tcp, id).1, tcp, id).0 == Some(EventFlags::NONE),
{
    assert(flags_within(map, tcp, id, 0) is Some);
    let after = flags_of(map, tcp, id).1;
    assert(flags_within(after, tcp, id, 0) is Some);
}

/// An interest is ready exactly if its socket has one of the flags of interest, and then tells all
/// that both have in common; it is waited for only if they have none in common. If the socket is
/// gone, the interest is ready too: the side that it asks for is closed.
pub proof fn law_matching_flags_are_reported(flags: u32, event: Event)
    ensures
        flags & event.flags.0 != 0 ==> (event_outcome(Some(flags), event) matches Some(
            Poll::Ready(Ok(reported)),
        ) && reported.flags.0 == flags & event.flags.0 && reported.socket == event.socket
            && reported.data == event.data),
        flags & event.flags.0 == 0 && (event.flags.reads() || event.flags.writes())
            ==> event_outcome(Some(flags), event) == Some(
            Poll::<IoResult<Event>>::Pending(WakeOn::Recv),
        ),
        event_outcome(Some(flags), event) matches Some(Poll::Pending(_)) ==> flags & event.flags.0
            == 0,
        event.flags.reads() || event.flags.writes() ==> (event_outcome(None, event) matches Some(
            Poll::Ready(Ok(reported)),
        ) && reported.flags.0 == (if event.flags.reads() {
            EventFlags::RCLOSED
        } else {
            EventFlags::WCLOSED
        }) && reported.socket == event.socket && reported.data == event.data),
{
}

/// The flags of a socket that a look does not change: those of a TCP socket, none if there is no
/// such socket or it is not bound.
pub open spec fn steady_flags(
    map: Seq<Option<EntryView>>,
    tcp: Map<SocketHandle, TcpModel>,
    id: int,
) -> Option<u32> {
    match crate::socket_map::lookup(map, id) {
        Some(entry) => match entry.socket {
            SocketView::Tcp(socket) => Some(socket.flags(tcp)),
            _ => None,
        },
        None => None,
    }
}

/// The interests are in sockets that a look does not change.
pub open spec fn steady(map: Seq<Option<EntryView>>, events: Seq<Event>) -> bool {
    forall|i: int|
        0 <= i < events.len() ==> match crate::socket_map::lookup(
            map,
            (#[trigger] events[i]).socket.id as int,
        ) {
            Some(entry) => entry.socket is Tcp || entry.socket is Unbound,
            None => true,
        }
}

/// There is something to report of an interest: its socket has a flag of interest, or is gone.
pub open spec fn reports(flags: Option<u32>, event: Event) -> bool {
    flags matches Some(flags) ==> flags & event.flags.0 != 0
}

/// The event that is reported of an interest: what the flags of the socket and those of interest
/// have in common, or that the side asked for is closed.
pub open spec fn report(flags: Option<u32>, event: Event) -> Event {
    Event {
        flags: EventFlags(
            match flags {
                Some(flags) => flags & event.flags.0,
                None => if event.flags.reads() {
                    EventFlags::RCLOSED
                } else {
                    EventFlags::WCLOSED
                },
            },
        ),
        ..event
    }
}

/// A look at a socket that is gone or not bound gives no flags, and one at a TCP socket gives what
/// can be done with it. Neither changes anything.
pub proof fn law_look_gives_the_flags_of_the_socket(
    map: Seq<Option<EntryView>>,
    tcp: Map<SocketHandle, TcpModel>,
    id: int,
)
    requires
        crate::socket_map::lookup(map, id) matches Some(entry) ==> entry.socket is Tcp
            || entry.socket is Unbound,
    ensures
        flags_end(map, tcp, id),
        flags_of(map, tcp, id).1 == map,
        match crate::socket_map::lookup(map, id) {
            Some(entry) => match entry.socket {
                SocketView::Tcp(socket) => flags_of(map, tcp, id).0 == Some(socket.flags(tcp)),
                _ => flags_of(map, tcp, id).0 is None,
            },
            None => flags_of(map, tcp, id).0 is None,
        },
{
    assert(flags_within(map, tcp, id, 0) is Some);
}

/// Some steady socket of interest has one of the flags of interest.
pub open spec fn some_has_a_flag(
    map: Seq<Option<EntryView>>,
    tcp: Map<SocketHandle, TcpModel>,
    events: Seq<Event>,
) -> bool {
    exists|i: int|
        0 <= i < events.len() && (steady_flags(
            map,
            tcp,
            (#[trigger] events[i]).socket.id as int,
        ) matches Some(flags) && flags & events[i].flags.0 != 0)
}

/// A look at steady sockets of interest finds one of the flags of interest if one of them has one.
proof fn lemma_steady_match(
    map: Seq<Option<EntryView>>,
    tcp: Map<SocketHandle, TcpModel>,
    events: Seq<Event>,
    steps: nat,
)
    requires
        steady(map, events),
    ensures
        some_match(map, tcp, events, steps) == Some(
            (some_has_a_flag(map, tcp, events), map),
        ),
    decreases events.len(),
{
    reveal_with_fuel(some_match, 2);
    reveal_with_fuel(flags_within, 2);
    if events.len() > 0 {
        let rest = events.skip(1);
        assert(crate::socket_map::lookup(map, events[0].socket.id as int) matches Some(entry)
            ==> entry.socket is Tcp || entry.socket is Unbound);
        assert forall|i: int| 0 <= i < rest.len() implies match crate::socket_map::lookup(
            map,
            (#[trigger] rest[i]).socket.id as int,
        ) {
            Some(entry) => entry.socket is Tcp || entry.socket is Unbound,
            None => true,
        } by {
            assert(rest[i] == events[i + 1]);
        }
        lemma_steady_match(map, tcp, rest, steps);
        if some_has_a_flag(map, tcp, rest) {
            let i = choose|i: int|
                0 <= i < rest.len() && (steady_flags(
                    map,
                    tcp,
                    (#[trigger] rest[i]).socket.id as int,
                ) matches Some(flags) && flags & rest[i].flags.0 != 0);
            assert(events[i + 1] == rest[i]);
            assert(some_has_a_flag(map, tcp, events));
        }
        if some_has_a_flag(map, tcp, events) {
            let i = choose|i: int|
                0 <= i < events.len() && (steady_flags(
                    map,
                    tcp,
                    (#[trigger] events[i]).socket.id as int,
                ) matches Some(flags) && flags & events[i].flags.0 != 0);
            if i > 0 {
                assert(rest[i - 1] == events[i]);
                assert(some_has_a_flag(map, tcp, rest));
            }
        }
    }
}

/// An event socket is readable exactly if one of its sockets of interest has one of the flags of
/// interest, whichever flag that is; nothing else is told of it.
pub proof fn law_event_socket_is_readable(
    map: Seq<Option<EntryView>>,
    tcp: Map<SocketHandle, TcpModel>,
    id: int,
    events: Seq<Event>,
)
    requires
        crate::socket_map::lookup(map, id) matches Some(entry) && entry.socket
            == SocketView::Event(events),
        steady(map, events),
    ensures
        flags_end(map, tcp, id),
        flags_of(map, tcp, id).1 == map,
        flags_of(map, tcp, id).0 == Some(
            if exists|i: int|
                0 <= i < events.len() && (steady_flags(
                    map,
                    tcp,
                    (#[trigger] events[i]).socket.id as int,
                ) matches Some(flags) && flags & events[i].flags.0 != 0) {
                EventFlags::READABLE
            } else {
                EventFlags::NONE
            },
        ),
{
    lemma_steady_match(map, tcp, events, 0);
    assert(flags_within(map, tcp, id, 1) is Some);
    law_enough_steps_are_enough(map, tcp, id, events, 0, 1);
}

/// A look at steady sockets of interest finds the first of which there is something to report.
proof fn lemma_steady_first(
    map: Seq<Option<EntryView>>,
    tcp: Map<SocketHandle, TcpModel>,
    events: Seq<Event>,
)
    requires
        steady(map, events),
        crate::event_socket::all_ask(events),
    ensures
        first_event_within(map, tcp, events, 0) matches Some(poll) && poll.map == map
            && poll.pending <= events.len() && (forall|i: int|
            0 <= i < poll.pending ==> !reports(
                steady_flags(map, tcp, (#[trigger] events[i]).socket.id as int),
                events[i],
            )) && match poll.ready {
            Some(event) => {
                let i = poll.pending as int;
                let flags = steady_flags(map, tcp, events[i].socket.id as int);
                i < events.len() && reports(flags, events[i]) && event == report(flags, events[i])
            },
            None => poll.pending == events.len(),
        },
    decreases events.len(),
{
    if events.len() > 0 {
        let rest = events.skip(1);
        assert(crate::socket_map::lookup(map, events[0].socket.id as int) matches Some(entry)
            ==> entry.socket is Tcp || entry.socket is Unbound);
        assert(events[0].flags.reads() || events[0].flags.writes());
        assert forall|i: int| 0 <= i < rest.len() implies match crate::socket_map::lookup(
            map,
            (#[trigger] rest[i]).socket.id as int,
        ) {
            Some(entry) => entry.socket is Tcp || entry.socket is Unbound,
            None => true,
        } && (rest[i].flags.reads() || rest[i].flags.writes()) by {
            assert(rest[i] == events[i + 1]);
        }
        lemma_steady_first(map, tcp, rest);
        let flags = steady_flags(map, tcp, events[0].socket.id as int);
        if !reports(flags, events[0]) {
            let poll = first_event_within(map, tcp, events, 0)->0;
            let left = first_event_within(map, tcp, rest, 0)->0;
            assert forall|i: int| 0 <= i < poll.pending implies !reports(
                steady_flags(map, tcp, (#[trigger] events[i]).socket.id as int),
                events[i],
            ) by {
                if i > 0 {
                    assert(rest[i - 1] == events[i]);
                }
            }
            if left.ready is Some {
                assert(rest[left.pending as int] == events[poll.pending as int]);
            }
        }
    }
}

/// A look at the sockets of interest finds the first of which there is something to report, and
/// none is overlooked: if nothing is reported, no socket has a flag of interest. The look changes
/// nothing.
pub proof fn law_no_event_is_overlooked(
    map: Seq<Option<EntryView>>,
    tcp: Map<SocketHandle, TcpModel>,
    events: Seq<Event>,
)
    requires
        steady(map, events),
        crate::event_socket::all_ask(events),
    ensures
        first_event_ends(map, tcp, events),
        first_event(map, tcp, events).map == map,
        forall|i: int|
            0 <= i < first_event(map, tcp, events).pending ==> !reports(
                steady_flags(map, tcp, (#[trigger] events[i]).socket.id as int),
                events[i],
            ),
        match first_event(map, tcp, events).ready {
            Some(event) => {
                let i = first_event(map, tcp, events).pending as int;
                let flags = steady_flags(map, tcp, events[i].socket.id as int);
                &&& 0 <= i < events.len()
                &&& reports(flags, events[i])
                &&& event.socket == events[i].socket && event.data == events[i].data
                &&& flags matches Some(bits) ==> event.flags.0 == bits & events[i].flags.0
                &&& flags is None ==> event.flags.0 == (if events[i].flags.reads() {
                    EventFlags::RCLOSED
                } else {
                    EventFlags::WCLOSED
                })
            },
            None => first_event(map, tcp, events).pending == events.len(),
        },
{
    lemma_steady_first(map, tcp, events);
    law_enough_steps_are_enough(map, tcp, 0, events, 0, 0);
}

/// Gathering from steady sockets of interest gives as many events as wanted, or none.
proof fn lemma_steady_gather(
    map: Seq<Option<EntryView>>,
    tcp: Map<SocketHandle, TcpModel>,
    events: Seq<Event>,
    most: nat,
)
    requires
        steady(map, events),
        crate::event_socket::all_ask(events),
    ensures
        gathered_within(map, tcp, events, most, 0) matches Some((reported, after)) && after == map
            && match first_event_within(map, tcp, events, 0)->0.ready {
            Some(event) => reported =~= Seq::new(most, |i: int| event),
            None => reported.len() == 0,
        },
    decreases most,
{
    lemma_steady_first(map, tcp, events);
    if most > 0 {
        lemma_steady_gather(map, tcp, events, (most - 1) as nat);
    }
}

/// Of sockets that looks do not change, each look reports the same: as many events are gathered as
/// there is room for if there is something to report, and none if there is not.
pub proof fn law_gathering_fills_the_room(
    map: Seq<Option<EntryView>>,
    tcp: Map<SocketHandle, TcpModel>,
    events: Seq<Event>,
    most: nat,
)
    requires
        steady(map, events),
        crate::event_socket::all_ask(events),
    ensures
        gathering_ends(map, tcp, events, most),
        gathered(map, tcp, events, most).1 == map,
        match first_event(map, tcp, events).ready {
            Some(event) => {
                &&& gathered(map, tcp, events, most).0.len() == most
                &&& forall|i: int|
                    0 <= i < most ==> #[trigger] gathered(map, tcp, events, most).0[i] == event
            },
            None => gathered(map, tcp, events, most).0.len() == 0,
        },
{
    lemma_steady_first(map, tcp, events);
    lemma_steady_gather(map, tcp, events, most);
    law_enough_steps_are_enough(map, tcp, 0, events, most, 0);
}

/// The sockets of interest are looked at in turn, whatever they are: the first is looked at, and if
/// there is something to report of it, that is reported; else the others are looked at as the look
/// left them.
pub proof fn law_interests_are_looked_at_in_turn(
    map: Seq<Option<EntryView>>,
    tcp: Map<SocketHandle, TcpModel>,
    events: Seq<Event>,
)
    requires
        first_event_ends(map, tcp, events),
    ensures
        ({
            let poll = first_event(map, tcp, events);
            if events.len() == 0 {
                poll.ready is None && poll.pending == 0 && poll.map == map
            } else {
                let (flags, after) = flags_of(map, tcp, events[0].socket.id as int);
                let rest = first_event(after, tcp, events.skip(1));
                if reports(flags, events[0]) {
                    &&& poll.ready == Some(report(flags, events[0]))
                    &&& poll.pending == 0
                    &&& poll.map == after
                } else {
                    &&& poll.ready == rest.ready
                    &&& poll.pending == rest.pending + 1
                    &&& poll.map == rest.map
                }
            }
        }),
{
    let steps = choose|steps: nat| first_event_within(map, tcp, events, steps) is Some;
    if events.len() > 0 {
        let id = events[0].socket.id as int;
        law_enough_steps_are_enough(map, tcp, id, events, 0, steps);
        let after = flags_of(map, tcp, id).1;
        law_enough_steps_are_enough(after, tcp, id, events.skip(1), 0, steps);
    }
}

/// Events are gathered one look after the other, up to as many as wanted, for as long as there is
/// something to report.
pub proof fn law_events_are_gathered_look_by_look(
    map: Seq<Option<EntryView>>,
    tcp: Map<SocketHandle, TcpModel>,
    events: Seq<Event>,
    most: nat,
)
    requires
        gathering_ends(map, tcp, events, most),
    ensures
        gathered(map, tcp, events, most).0.len() <= most,
        most == 0 ==> gathered(map, tcp, events, most) == (Seq::<Event>::empty(), map),
        most > 0 ==> {
            let poll = first_event(map, tcp, events);
            let (reported, after) = gathered(map, tcp, events, most);
            match poll.ready {
                Some(event) => {
                    let rest = gathered(poll.map, tcp, events, (most - 1) as nat);
                    reported == seq![event] + rest.0 && after == rest.1
                },
                None => reported.len() == 0 && after == poll.map,
            }
        },
    decreases most,
{
    let steps = choose|steps: nat| gathered_within(map, tcp, events, most, steps) is Some;
    law_enough_steps_are_enough(map, tcp, 0, events, most, steps);
    if most > 0 {
        let poll = first_event(map, tcp, events);
        if poll.ready is Some {
            law_enough_steps_are_enough(poll.map, tcp, 0, events, (most - 1) as nat, steps);
            law_events_are_gathered_look_by_look(poll.map, tcp, events, (most - 1) as nat);
        }
    }
}

/// An event that was sent to a waker socket of interest is reported with the flags of interest, and
/// is then seen: the flags of the waker socket are cleared, and nothing else changes.
pub proof fn law_sent_event_is_reported(
    map: Seq<Option<EntryView>>,
    tcp: Map<SocketHandle, TcpModel>,
    events: Seq<Event>,
    waker: AsyncWakerSocket,
)
    requires
        events.len() > 0,
        crate::socket_map::lookup(map, events[0].socket.id as int) matches Some(entry)
            && entry.socket == SocketView::Waker(waker),
        waker.event_flags & events[0].flags.0 != 0,
    ensures
        first_event_ends(map, tcp, events),
        ({
            let id = events[0].socket.id as int;
            let poll = first_event(map, tcp, events);
            &&& poll.ready == Some(
                Event {
                    flags: EventFlags(waker.event_flags & events[0].flags.0),
                    socket: events[0].socket,
                    data: events[0].data,
                },
            )
            &&& poll.map == map.update(
                id,
                Some(
                    EntryView {
                        socket: SocketView::Waker(AsyncWakerSocket { event_flags: 0, ..waker }),
                        ..map[id]->0
                    },
                ),
            )
        }),
{
    assert(first_event_within(map, tcp, events, 0) is Some);
    law_enough_steps_are_enough(map, tcp, 0, events, 0, 0);
}

/// An event socket whose interests lead on to others is looked at in turn too: it is readable if
/// the first of its sockets of interest has a flag of interest, else if one of the others has.
pub proof fn law_nested_interests_are_looked_at_in_turn(
    map: Seq<Option<EntryView>>,
    tcp: Map<SocketHandle, TcpModel>,
    events: Seq<Event>,
    steps: nat,
)
    requires
        some_match(map, tcp, events, steps) is Some,
    ensures
        ({
            let (found, after) = some_match(map, tcp, events, steps)->0;
            if events.len() == 0 {
                !found && after == map
            } else {
                let (flags, looked) = flags_of(map, tcp, events[0].socket.id as int);
                let matches = flags matches Some(bits) && bits & events[0].flags.0 != 0;
                if matches {
                    found && after == looked
                } else {
                    some_match(looked, tcp, events.skip(1), steps) == Some((found, after))
                }
            }
        }),
        forall|id: int|
            (#[trigger] crate::socket_map::lookup(map, id) matches Some(entry) && entry.socket
                == SocketView::Event(events)) ==> flags_of(map, tcp, id) == (
                Some(
                    if (some_match(map, tcp, events, steps)->0).0 {
                        EventFlags::READABLE
                    } else {
                        EventFlags::NONE
                    },
                ),
                (some_match(map, tcp, events, steps)->0).1,
            ),
{
    if events.len() > 0 {
        law_enough_steps_are_enough(map, tcp, events[0].socket.id as int, events, 0, steps);
    }
    assert forall|id: int|
        (#[trigger] crate::socket_map::lookup(map, id) matches Some(entry) && entry.socket
            == SocketView::Event(events)) implies flags_of(map, tcp, id) == (
        Some(
            if (some_match(map, tcp, events, steps)->0).0 {
                EventFlags::READABLE
            } else {
                EventFlags::NONE
            },
        ),
        (some_match(map, tcp, events, steps)->0).1,
    ) by {
        law_enough_steps_are_enough(map, tcp, id, events, 0, steps + 1);
    }
}

/// A look leaves each socket as it is, or lets the event of a waker socket be seen.
pub proof fn law_looked_at_socket_is_the_same(
    before: Seq<Option<EntryView>>,
    after: Seq<Option<EntryView>>,
    id: int,
)
    requires
        looked_at(before, after),
    ensures
        after.len() == before.len(),
        match (crate::socket_map::lookup(before, id), crate::socket_map::lookup(after, id)) {
            (Some(then), Some(now)) => now == then || {
                &&& then.socket matches SocketView::Waker(waker)
                &&& now == EntryView {
                    socket: SocketView::Waker(
                        AsyncWakerSocket { event_flags: EventFlags::NONE, ..waker },
                    ),
                    ..then
                }
            },
            (None, None) => true,
            _ => false,
        },
{
    if 0 <= id < before.len() {
        assert(after[id] == before[id] || after[id] == cleared(before[id]));
    }
}

/// Interests are nested exactly if each asks for some side and is in a socket whose ways end.
pub proof fn law_all_interests_are_nested(
    map: Seq<Option<EntryView>>,
    events: Seq<Event>,
    levels: nat,
    i: int,
)
    ensures
        all_nested(map, events, levels) && 0 <= i < events.len() ==> crate::interest::nested(
            map,
            events[i].socket.id as int,
            levels,
        ) && (events[i].flags.reads() || events[i].flags.writes()),
        steady(map, events) && crate::event_socket::all_ask(events) ==> all_nested(
            map,
            events,
            levels,
        ),
{
    if steady(map, events) && crate::event_socket::all_ask(events) {
        assert forall|j: int| 0 <= j < events.len() implies {
            &&& crate::interest::nested(map, (#[trigger] events[j]).socket.id as int, levels)
            &&& events[j].flags.reads() || events[j].flags.writes()
        } by {
            crate::interest::law_circles_never_end(map, events[j].socket.id as int, levels, 0);
        }
    }
}

} // verus!
