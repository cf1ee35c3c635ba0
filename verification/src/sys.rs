//! The calls of the socket interface: sockets of any kind, event and waker sockets.
use vstd::prelude::*;

use smoltcp::socket::SocketHandle;
use smoltcp::time::Duration as StackDuration;
use std::task::Waker;

use crate::close::CloseFuture;
use crate::event::{Event, EventFlags};
use crate::event_socket::AsyncEventSocket;
use crate::io::{Error, IoResult};
use crate::net::Socket;
use crate::nic::NetworkInterface;
use crate::poll::{Behaviour, Execution, PollEvents};
use crate::smol::TcpModel;
use crate::socket::{AsyncSocket, AsyncSocketProxy, SocketView};
use crate::socket_map::{EntryView, Options, SocketMap};
use crate::turn::{Step, Turn};
use crate::waker_socket::AsyncWakerSocket;

verus! {

broadcast use vstd::map::group_map_axioms;

/// A span of time.
#[derive(Debug, Clone, Copy, PartialEq, Eq, Structural)]
pub struct Duration {
    pub secs: u64,
    /// The part of a second, less than one.
    pub nanos: u32,
}

impl Duration {
    /// The part of a second is less than one.
    pub open spec fn wf(self) -> bool {
        self.nanos < 1_000_000_000
    }

    /// The span in whole milliseconds.
    pub open spec fn millis(self) -> int {
        self.secs * 1000 + self.nanos / 1_000_000
    }

    /// The span of as many milliseconds.
    pub open spec fn of_millis(millis: int) -> Duration {
        Duration { secs: (millis / 1000) as u64, nanos: ((millis % 1000) * 1_000_000) as u32 }
    }
}

/// `smoltcp::time::Duration::from` a `core::time::Duration`, and its `total_millis`: what is less
/// than a millisecond is dropped. A number of milliseconds that does not fit ends in a panic.
#[verifier::external_body]
fn duration_to_millis(duration: Duration) -> (millis: u64)
    requires
        duration.wf(),
        duration.millis() <= u64::MAX,
    ensures
        millis == duration.millis(),
{
    StackDuration::from(core::time::Duration::new(duration.secs, duration.nanos)).total_millis()
}

/// `smoltcp::time::Duration::into` a `core::time::Duration`, for as many milliseconds.
#[verifier::external_body]
fn duration_from_millis(millis: u64) -> (duration: Duration)
    ensures
        duration == Duration::of_millis(millis as int),
        duration.wf(),
{
    let duration: core::time::Duration = StackDuration::from_millis(millis).into();
    Duration { secs: duration.as_secs(), nanos: duration.subsec_nanos() }
}

/// Creates a new socket, whose operations wait without end. Its two tasks are to be started.
pub fn sys_socket(socket_map: &mut SocketMap) -> (result: IoResult<Socket>)
    ensures
        result matches Ok(socket) && {
            &&& crate::socket_map::is_first_free(old(socket_map)@, socket.id as int)
            &&& final(socket_map)@ == crate::socket_map::with_new(
                old(socket_map)@,
                socket.id as int,
                Options { non_blocking: false, timeout: None },
            )
        },
        forall|nic: NetworkInterface|
            old(socket_map).wf(nic) ==> #[trigger] final(socket_map).wf(nic),
{
    Ok(socket_map.new_socket(Options { non_blocking: false, timeout: None }))
}

/// The sockets after the options of one of them were set, and what comes of it.
pub open spec fn with_options(
    map: Seq<Option<EntryView>>,
    id: int,
    options: spec_fn(Options) -> Options,
) -> (Seq<Option<EntryView>>, IoResult<()>) {
    match crate::socket_map::lookup(map, id) {
        Some(entry) => (
            map.update(id, Some(EntryView { options: options(entry.options), ..entry })),
            Ok(()),
        ),
        None => (map, Err(crate::socket_map::unknown())),
    }
}

/// Sets how long operations on a socket wait at most; none for without end.
pub fn sys_socket_set_timeout(
    socket_map: &mut SocketMap,
    socket: Socket,
    timeout: Option<Duration>,
) -> (result: IoResult<()>)
    requires
        timeout matches Some(duration) ==> duration.wf() && duration.millis() <= u64::MAX,
    ensures
        (final(socket_map)@, result) == with_options(
            old(socket_map)@,
            socket.id as int,
            |options: Options|
                Options {
                    timeout: match timeout {
                        Some(duration) => Some(duration.millis() as u64),
                        None => None,
                    },
                    ..options
                },
        ),
        forall|nic: NetworkInterface|
            old(socket_map).wf(nic) ==> #[trigger] final(socket_map).wf(nic),
{
    let result = match socket_map.get_mut(socket) {
        Ok(entry) => {
            entry.options.timeout = match timeout {
                Some(duration) => Some(duration_to_millis(duration)),
                None => None,
            };
            Ok(())
        },
        Err(error) => Err(error),
    };
    proof {
        lemma_same_sockets(*old(socket_map), *socket_map);
    }
    result
}

/// How long operations on a socket wait at most; none if without end.
pub fn sys_socket_timeout(socket_map: &SocketMap, socket: Socket) -> (result: IoResult<
    Option<Duration>,
>)
    ensures
        result == (match crate::socket_map::lookup(socket_map@, socket.id as int) {
            Some(entry) => Ok::<Option<Duration>, Error>(
                match entry.options.timeout {
                    Some(millis) => Some(Duration::of_millis(millis as int)),
                    None => None,
                },
            ),
            None => Err(crate::socket_map::unknown()),
        }),
{
    let entry = socket_map.get(socket)?;
    Ok(
        match entry.options.timeout {
            Some(millis) => Some(duration_from_millis(millis)),
            None => None,
        },
    )
}

/// Sets whether operations on a socket do without waiting for it.
pub fn sys_socket_set_non_blocking(
    socket_map: &mut SocketMap,
    socket: Socket,
    non_blocking: bool,
) -> (result: IoResult<()>)
    ensures
        (final(socket_map)@, result) == with_options(
            old(socket_map)@,
            socket.id as int,
            |options: Options| Options { non_blocking, ..options },
        ),
        forall|nic: NetworkInterface|
            old(socket_map).wf(nic) ==> #[trigger] final(socket_map).wf(nic),
{
    let result = match socket_map.get_mut(socket) {
        Ok(entry) => {
            entry.options.non_blocking = non_blocking;
            Ok(())
        },
        Err(error) => Err(error),
    };
    proof {
        lemma_same_sockets(*old(socket_map), *socket_map);
    }
    result
}

/// Tells whether operations on a socket do without waiting for it.
pub fn sys_socket_non_blocking(socket_map: &SocketMap, socket: Socket) -> (result: IoResult<bool>)
    ensures
        result == (match crate::socket_map::lookup(socket_map@, socket.id as int) {
            Some(entry) => Ok::<bool, Error>(entry.options.non_blocking),
            None => Err(crate::socket_map::unknown()),
        }),
{
    let entry = socket_map.get(socket)?;
    Ok(entry.options.non_blocking)
}

/// Closes a socket: gives the future of closing it, which is to be spawned if the socket does not
/// block, and else to be blocked on without end.
pub fn sys_socket_close(socket_map: &SocketMap, socket: Socket) -> (result: IoResult<
    (CloseFuture, Behaviour),
>)
    ensures
        result == (match crate::socket_map::lookup(socket_map@, socket.id as int) {
            Some(entry) => Ok::<(CloseFuture, Behaviour), Error>(
                (
                    CloseFuture { socket, phase: crate::close::ClosePhase::Start },
                    if entry.options.non_blocking {
                        Behaviour::NonBlocking
                    } else {
                        Behaviour::Blocking(None)
                    },
                ),
            ),
            None => Err(crate::socket_map::unknown()),
        }),
{
    let entry = socket_map.get(socket)?;
    let behaviour = if entry.options.non_blocking {
        Behaviour::NonBlocking
    } else {
        Behaviour::Blocking(None)
    };
    Ok((CloseFuture::new(socket), behaviour))
}

/// The sockets after one of them was bound to a kind that holds nothing of the interface.
pub open spec fn bound(
    map: Seq<Option<EntryView>>,
    id: int,
    socket: SocketView,
) -> Seq<Option<EntryView>> {
    match crate::socket_map::lookup(map, id) {
        Some(entry) => map.update(id, Some(EntryView { socket, ..entry }.tasks_woken())),
        None => map,
    }
}

/// The wakers of a socket's tasks, none if there is no such socket.
pub open spec fn tasks_of(map: Seq<Option<EntryView>>, id: int) -> Seq<Waker> {
    match crate::socket_map::lookup(map, id) {
        Some(entry) => entry.tasks(),
        None => seq![],
    }
}

/// What comes of an operation that only needs the socket to be there.
pub open spec fn if_known(map: Seq<Option<EntryView>>, id: int) -> IoResult<()> {
    if crate::socket_map::lookup(map, id) is Some {
        Ok(())
    } else {
        Err(crate::socket_map::unknown())
    }
}

/// Makes a socket an event socket without interests. What it was before is given up.
pub fn sys_event_bind(
    socket_map: &mut SocketMap,
    nic: &mut NetworkInterface,
    wakes: &mut Vec<Waker>,
    socket: Socket,
) -> (result: IoResult<()>)
    requires
        old(socket_map).wf(*old(nic)),
    ensures
        result == if_known(old(socket_map)@, socket.id as int),
        final(socket_map)@ == bound(
            old(socket_map)@,
            socket.id as int,
            SocketView::Event(seq![]),
        ),
        final(wakes)@ == old(wakes)@ + tasks_of(old(socket_map)@, socket.id as int),
        final(nic).tcp() == crate::smol::released(
            old(nic).tcp(),
            crate::socket_map::held(old(socket_map)@, socket.id as int).to_set(),
        ),
        final(nic).same_but_sockets(*old(nic)),
        final(socket_map).wf(*final(nic)),
{
    let async_socket = AsyncSocket::from(AsyncEventSocket::new());
    assert(async_socket@ == SocketView::Event(seq![]));
    assert(wakes@ + seq![] =~= wakes@);
    socket_map.bind_socket(socket, async_socket, nic, wakes)
}

/// The sockets after the interests of one of them were changed, and what comes of it. The tasks of
/// the socket are woken in any case.
pub open spec fn with_events(
    map: Seq<Option<EntryView>>,
    id: int,
    change: spec_fn(Seq<Event>) -> (Seq<Event>, IoResult<()>),
) -> (Seq<Option<EntryView>>, IoResult<()>) {
    match crate::socket_map::lookup(map, id) {
        Some(entry) => match entry.socket {
            SocketView::Event(events) => (
                map.update(
                    id,
                    Some(
                        EntryView {
                            socket: SocketView::Event(change(events).0),
                            ..entry.tasks_woken()
                        },
                    ),
                ),
                change(events).1,
            ),
            _ => (
                map.update(id, Some(entry.tasks_woken())),
                Err(crate::socket::not_listener()),
            ),
        },
        None => (map, Err(crate::socket_map::unknown())),
    }
}

/// Adds an interest to an event socket.
pub fn sys_event_add(
    socket_map: &mut SocketMap,
    wakes: &mut Vec<Waker>,
    socket: Socket,
    event: Event,
) -> (result: IoResult<()>)
    ensures
        (final(socket_map)@, result) == with_events(
            old(socket_map)@,
            socket.id as int,
            |events: Seq<Event>| crate::event_socket::adding(events, event),
        ),
        final(wakes)@ == old(wakes)@ + tasks_of(old(socket_map)@, socket.id as int),
        forall|nic: NetworkInterface|
            old(socket_map).wf(nic) ==> #[trigger] final(socket_map).wf(nic),
{
    assert(wakes@ + seq![] =~= wakes@);
    let result = match socket_map.get_mut(socket) {
        Ok(entry) => {
            entry.wake_tasks(wakes);
            match entry.async_socket.as_event_mut() {
                Ok(event_socket) => event_socket.add_event(event),
                Err(error) => Err(error),
            }
        },
        Err(error) => Err(error),
    };
    proof {
        lemma_same_sockets(*old(socket_map), *socket_map);
    }
    result
}

/// Replaces an interest of an event socket.
pub fn sys_event_modify(
    socket_map: &mut SocketMap,
    wakes: &mut Vec<Waker>,
    socket: Socket,
    event: Event,
) -> (result: IoResult<()>)
    ensures
        (final(socket_map)@, result) == with_events(
            old(socket_map)@,
            socket.id as int,
            |events: Seq<Event>| crate::event_socket::modifying(events, event),
        ),
        final(wakes)@ == old(wakes)@ + tasks_of(old(socket_map)@, socket.id as int),
        forall|nic: NetworkInterface|
            old(socket_map).wf(nic) ==> #[trigger] final(socket_map).wf(nic),
{
    assert(wakes@ + seq![] =~= wakes@);
    let result = match socket_map.get_mut(socket) {
        Ok(entry) => {
            entry.wake_tasks(wakes);
            match entry.async_socket.as_event_mut() {
                Ok(event_socket) => event_socket.modify_event(event),
                Err(error) => Err(error),
            }
        },
        Err(error) => Err(error),
    };
    proof {
        lemma_same_sockets(*old(socket_map), *socket_map);
    }
    result
}

/// Removes the interest in a socket from an event socket.
pub fn sys_event_remove(
    socket_map: &mut SocketMap,
    wakes: &mut Vec<Waker>,
    socket: Socket,
    target: Socket,
) -> (result: IoResult<()>)
    ensures
        (final(socket_map)@, result) == with_events(
            old(socket_map)@,
            socket.id as int,
            |events: Seq<Event>| crate::event_socket::removing(events, target),
        ),
        final(wakes)@ == old(wakes)@ + tasks_of(old(socket_map)@, socket.id as int),
        forall|nic: NetworkInterface|
            old(socket_map).wf(nic) ==> #[trigger] final(socket_map).wf(nic),
{
    assert(wakes@ + seq![] =~= wakes@);
    let result = match socket_map.get_mut(socket) {
        Ok(entry) => {
            entry.wake_tasks(wakes);
            match entry.async_socket.as_event_mut() {
                Ok(event_socket) => event_socket.remove_socket(target),
                Err(error) => Err(error),
            }
        },
        Err(error) => Err(error),
    };
    proof {
        lemma_same_sockets(*old(socket_map), *socket_map);
    }
    result
}

/// Makes a socket a waker socket that nothing was sent to. What it was before is given up.
pub fn sys_waker_bind(
    socket_map: &mut SocketMap,
    nic: &mut NetworkInterface,
    wakes: &mut Vec<Waker>,
    socket: Socket,
) -> (result: IoResult<()>)
    requires
        old(socket_map).wf(*old(nic)),
    ensures
        result == if_known(old(socket_map)@, socket.id as int),
        final(socket_map)@ == bound(
            old(socket_map)@,
            socket.id as int,
            SocketView::Waker(
                (AsyncWakerSocket {
                    socket: None,
                    event_flags: EventFlags::NONE,
                    send_waker: None,
                    recv_waker: None,
                }),
            ),
        ),
        final(wakes)@ == old(wakes)@ + tasks_of(old(socket_map)@, socket.id as int),
        final(nic).tcp() == crate::smol::released(
            old(nic).tcp(),
            crate::socket_map::held(old(socket_map)@, socket.id as int).to_set(),
        ),
        final(nic).same_but_sockets(*old(nic)),
        final(socket_map).wf(*final(nic)),
{
    let async_socket = AsyncSocket::from(AsyncWakerSocket::new(None));
    assert(wakes@ + seq![] =~= wakes@);
    socket_map.bind_socket(socket, async_socket, nic, wakes)
}

/// Sends an event to a waker socket.
pub fn sys_waker_send_event(
    socket_map: &mut SocketMap,
    wakes: &mut Vec<Waker>,
    socket: Socket,
    flags: EventFlags,
) -> (result: IoResult<()>)
    ensures
        match crate::socket_map::lookup(old(socket_map)@, socket.id as int) {
            Some(entry) => match entry.socket {
                SocketView::Waker(waker) => {
                    &&& result == Ok::<(), Error>(())
                    &&& final(socket_map)@ == crate::proxy::with_socket(
                        old(socket_map)@,
                        socket.id as int,
                        SocketView::Waker(waker.sent(flags)),
                    )
                    &&& final(socket_map)@ == old(socket_map)@.update(
                        socket.id as int,
                        Some(
                            EntryView {
                                socket: SocketView::Waker(
                                    AsyncWakerSocket {
                                        event_flags: flags.0,
                                        recv_waker: if flags.reads() {
                                            None
                                        } else {
                                            waker.recv_waker
                                        },
                                        ..waker
                                    },
                                ),
                                ..entry
                            },
                        ),
                    )
                    &&& final(wakes)@ == (if flags.reads() {
                        old(wakes)@ + crate::waker::pending(waker.recv_waker)
                    } else {
                        old(wakes)@
                    })
                },
                _ => {
                    &&& result == Err::<(), Error>(crate::socket::not_listener())
                    &&& final(socket_map)@ == old(socket_map)@
                    &&& final(wakes)@ == old(wakes)@
                },
            },
            None => {
                &&& result == Err::<(), Error>(crate::socket_map::unknown())
                &&& final(socket_map)@ == old(socket_map)@
                &&& final(wakes)@ == old(wakes)@
            },
        },
        forall|nic: NetworkInterface|
            old(socket_map).wf(nic) ==> #[trigger] final(socket_map).wf(nic),
{
    let result = match socket_map.get_mut(socket) {
        Ok(entry) => match entry.async_socket.as_waker_mut() {
            Ok(waker) => {
                waker.send_event(flags, wakes);
                Ok(())
            },
            Err(error) => Err(error),
        },
        Err(error) => Err(error),
    };
    proof {
        lemma_same_sockets(*old(socket_map), *socket_map);
    }
    result
}

/// Waiting for events comes to an end: interests do not lead in circles, and ask for some side.
pub open spec fn waiting_ends(
    map: Seq<Option<EntryView>>,
    tcp: Map<SocketHandle, TcpModel>,
    id: int,
    most: nat,
    step: Step,
) -> bool {
    match step {
        Step::Waited(_, Err(_)) => true,
        Step::Waited(_, Ok(())) => crate::interest::is_event(map, id)
            ==> crate::look::gathering_ends(
            map,
            tcp,
            crate::interest::interests(map, id),
            most,
        ),
        _ => {
            let events = crate::interest::interests(map, id);
            let entry = crate::socket_map::lookup(map, id)->0;
            crate::interest::is_event(map, id) && crate::turn::options_of(step, entry).non_blocking ==> {
                &&& crate::look::first_event_ends(map, tcp, events)
                &&& crate::look::first_event(map, tcp, events).ready is Some
                    ==> crate::look::gathering_ends(
                    crate::look::first_event(map, tcp, events).map,
                    tcp,
                    events,
                    most,
                )
            }
        },
    }
}

/// Waits for events on an event socket, and reports as many at most.
///
/// The event that ends the wait is not kept; the sockets of interest are looked at anew.
pub fn sys_event_wait(
    socket_map: &mut SocketMap,
    nic: &mut NetworkInterface,
    socket: Socket,
    most: usize,
    step: Step,
) -> (turn: Turn<Vec<Event>, PollEvents>)
    requires
        old(socket_map).wf(*old(nic)),
        waiting_ends(old(socket_map)@, old(nic).tcp(), socket.id as int, most as nat, step),
    ensures
        match step {
            Step::Waited(_, Err(error)) => {
                &&& turn == Turn::<Vec<Event>, PollEvents>::Done(Err(error))
                &&& final(socket_map)@ == old(socket_map)@
            },
            Step::Waited(_, Ok(())) => match crate::proxy::events_of(
                old(socket_map)@,
                socket.id as int,
                crate::socket::not_listener(),
            ) {
                Err(error) => {
                    &&& turn == Turn::<Vec<Event>, PollEvents>::Done(Err(error))
                    &&& final(socket_map)@ == old(socket_map)@
                },
                Ok(events) => {
                    &&& turn matches Turn::Done(Ok(reported))
                    &&& (reported@, final(socket_map)@) == crate::look::gathered(
                        old(socket_map)@,
                        old(nic).tcp(),
                        events,
                        most as nat,
                    )
                    &&& reported@.len() <= most
                },
            },
            _ => match crate::proxy::events_of(
                old(socket_map)@,
                socket.id as int,
                crate::socket::not_event(),
            ) {
                Err(error) => {
                    &&& turn == Turn::<Vec<Event>, PollEvents>::Done(Err(error))
                    &&& final(socket_map)@ == old(socket_map)@
                },
                Ok(events) => {
                    let options = crate::turn::options_of(
                        step,
                        crate::socket_map::lookup(old(socket_map)@, socket.id as int)->0,
                    );
                    let look = crate::look::first_event(
                        old(socket_map)@,
                        old(nic).tcp(),
                        events,
                    );
                    if !options.non_blocking {
                        &&& turn matches Turn::Wait(same, wait)
                        &&& same == options
                        &&& wait.raw.events@ == events
                        &&& wait.socket == socket
                        &&& wait.behaviour == crate::poll::behaviour_of(options)
                        &&& final(socket_map)@ == old(socket_map)@
                    } else if look.ready is None {
                        &&& turn == Turn::<Vec<Event>, PollEvents>::Done(
                            Err(crate::poll::would_block()),
                        )
                        &&& final(socket_map)@ == look.map
                    } else {
                        &&& turn matches Turn::Done(Ok(reported))
                        &&& (reported@, final(socket_map)@) == crate::look::gathered(
                            look.map,
                            old(nic).tcp(),
                            events,
                            most as nat,
                        )
                        &&& reported@.len() <= most
                    }
                },
            },
        },
        final(nic).tcp() == old(nic).tcp(),
        final(nic).same_but_sockets(*old(nic)),
        final(socket_map).wf(*final(nic)),
{
    let ghost id = socket.id as int;
    let ghost before = socket_map@;
    match step {
        Step::Waited(_, waited) => {
            if let Err(error) = waited {
                return Turn::Done(Err(error));
            }
        },
        _ => {
            let entry = match socket_map.get(socket) {
                Ok(entry) => entry,
                Err(error) => {
                    return Turn::Done(Err(error));
                },
            };
            if let Err(error) = entry.async_socket.as_event_proxy(socket) {
                return Turn::Done(Err(error));
            }
            let options = match step {
                Step::Begin => entry.options,
                Step::Retry(options) => options,
                Step::Waited(options, _) => options,
            };
            let wait = match entry.async_socket.as_event_ref() {
                Ok(event_socket) => event_socket.poll_events().with(
                    socket,
                    Behaviour::from(options),
                ),
                Err(error) => {
                    return Turn::Done(Err(error));
                },
            };
            match wait.execute(socket_map, nic) {
                Execution::Block(_) => {
                    return Turn::Wait(options, wait);
                },
                Execution::Done(Err(error)) => {
                    return Turn::Done(Err(error));
                },
                Execution::Done(Ok(_)) => {},
            }
            proof {
                crate::look::law_looking_only_clears(
                    before,
                    nic.tcp(),
                    id,
                    wait.raw.events@,
                );
                assert(socket_map@[id] == before[id]);
            }
        },
    }
    let poll = match AsyncSocketProxy::new(socket).event_ref(socket_map) {
        Ok(event_socket) => event_socket.poll_events(),
        Err(error) => {
            return Turn::Done(Err(error));
        },
    };
    Turn::Done(Ok(socket_map.gather(&poll.events, nic, most)))
}

/// Sockets that hold the same stay as well owned.
pub proof fn lemma_same_sockets(before: SocketMap, after: SocketMap)
    requires
        after@.len() == before@.len(),
        forall|id: int|
            0 <= id < before@.len() ==> crate::socket_map::held(before@, id)
                == #[trigger] crate::socket_map::held(after@, id),
    ensures
        forall|nic: NetworkInterface| before.wf(nic) ==> #[trigger] after.wf(nic),
{
    assert forall|nic: NetworkInterface| before.wf(nic) implies #[trigger] after.wf(nic) by {
        crate::socket_map::lemma_owned_kept((before@, nic.tcp()), (after@, nic.tcp()));
    }
}

/// If interests do not lead in circles and each asks for some side, waiting for events comes to an
/// end at every step.
pub proof fn law_nested_events_can_be_waited_for(
    map: Seq<Option<EntryView>>,
    tcp: Map<SocketHandle, TcpModel>,
    id: int,
    most: nat,
    step: Step,
    levels: nat,
)
    requires
        crate::look::all_nested(map, crate::interest::interests(map, id), levels),
    ensures
        waiting_ends(map, tcp, id, most, step),
{
    crate::look::law_nested_waiting_ends(
        map,
        tcp,
        crate::interest::interests(map, id),
        most,
        levels,
    );
}

/// A timeout that was set is given back in whole milliseconds.
pub proof fn law_timeout_in_millis(map: Seq<Option<EntryView>>, id: int, duration: Duration)
    requires
        crate::socket_map::lookup(map, id) is Some,
        duration.wf(),
        duration.millis() <= u64::MAX,
    ensures
        ({
            let after = with_options(
                map,
                id,
                |options: Options| Options { timeout: Some(duration.millis() as u64), ..options },
            ).0;
            &&& crate::socket_map::lookup(after, id) matches Some(entry)
            &&& entry.options.timeout matches Some(millis)
            &&& Duration::of_millis(millis as int) == Duration {
                nanos: ((duration.nanos / 1_000_000) * 1_000_000) as u32,
                ..duration
            }
        }),
{
}

/// The options that were set are those that a socket is called by, and no other socket is touched.
pub proof fn law_options_are_kept(
    map: Seq<Option<EntryView>>,
    id: int,
    options: spec_fn(Options) -> Options,
    other: int,
)
    requires
        crate::socket_map::lookup(map, id) is Some,
    ensures
        with_options(map, id, options).1 is Ok,
        crate::socket_map::lookup(with_options(map, id, options).0, id) == Some(
            EntryView {
                options: options((crate::socket_map::lookup(map, id)->0).options),
                ..crate::socket_map::lookup(map, id)->0
            },
        ),
        other != id ==> crate::socket_map::lookup(with_options(map, id, options).0, other)
            == crate::socket_map::lookup(map, other),
{
}

/// Binding a socket makes it what is told, wakes its tasks, and changes nothing else of it and
/// nothing of the others. A number that names no socket is refused.
pub proof fn law_bound_socket_is_what_was_told(
    map: Seq<Option<EntryView>>,
    id: int,
    socket: SocketView,
    other: int,
)
    ensures
        other != id ==> crate::socket_map::lookup(bound(map, id, socket), other)
            == crate::socket_map::lookup(map, other),
        match crate::socket_map::lookup(map, id) {
            Some(entry) => {
                &&& if_known(map, id) is Ok
                &&& crate::socket_map::lookup(bound(map, id, socket), id) == Some(
                    EntryView { socket, recv_task: None, send_task: None, ..entry },
                )
                &&& forall|task: Waker| #[trigger]
                    tasks_of(map, id).contains(task) <==> entry.send_task == Some(task)
                        || entry.recv_task == Some(task)
            },
            None => {
                &&& if_known(map, id) matches Err(error)
                &&& error.kind == crate::io::ErrorKind::NotSocket
                &&& bound(map, id, socket) == map
                &&& tasks_of(map, id).len() == 0
            },
        },
{
    if let Some(entry) = crate::socket_map::lookup(map, id) {
        crate::socket_map::law_tasks_are_woken(entry);
    }
}

/// Changing the interests of an event socket changes only them, and wakes its tasks whatever comes
/// of the change. Of no other socket they can be changed.
pub proof fn law_only_interests_change(
    map: Seq<Option<EntryView>>,
    id: int,
    change: spec_fn(Seq<Event>) -> (Seq<Event>, IoResult<()>),
    other: int,
)
    ensures
        ({
            let (after, result) = with_events(map, id, change);
            &&& other != id ==> crate::socket_map::lookup(after, other)
                == crate::socket_map::lookup(map, other)
            &&& match crate::socket_map::lookup(map, id) {
                Some(entry) => {
                    &&& crate::socket_map::lookup(after, id) matches Some(now)
                    &&& now == EntryView {
                        socket: now.socket,
                        recv_task: None,
                        send_task: None,
                        ..entry
                    }
                    &&& match entry.socket {
                        SocketView::Event(events) => now.socket == SocketView::Event(
                            change(events).0,
                        ) && result == change(events).1,
                        _ => now.socket == entry.socket && (result matches Err(error)
                            && error.kind == crate::io::ErrorKind::InvalidInput),
                    }
                },
                None => after == map && (result matches Err(error) && error.kind
                    == crate::io::ErrorKind::NotSocket),
            }
        }),
{
}

/// Options cannot be set on a socket that there is not.
pub proof fn law_unknown_socket_has_no_options(
    map: Seq<Option<EntryView>>,
    id: int,
    options: spec_fn(Options) -> Options,
)
    requires
        crate::socket_map::lookup(map, id) is None,
    ensures
        with_options(map, id, options).0 == map,
        with_options(map, id, options).1 matches Err(error) && error.kind
            == crate::io::ErrorKind::NotSocket,
{
}

/// A span of time is as many milliseconds as its seconds have, and those of the part of a second.
pub proof fn law_millis_of_a_span(duration: Duration, millis: u64)
    requires
        duration.wf(),
    ensures
        duration.millis() * 1_000_000 <= duration.secs * 1_000_000_000 + duration.nanos,
        duration.secs * 1_000_000_000 + duration.nanos < (duration.millis() + 1) * 1_000_000,
        Duration::of_millis(millis as int).wf(),
        Duration::of_millis(millis as int).millis() == millis,
        Duration::of_millis(millis as int).nanos % 1_000_000 == 0,
{
}

} // verus!
