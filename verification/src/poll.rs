//! Polling a socket until what it is waited for has happened.
use vstd::prelude::*;

use smoltcp::socket::SocketHandle;
use std::task::Waker;

use crate::event::Event;
use crate::io::{Error, ErrorKind, IoResult};
use crate::net::Socket;
use crate::nic::{NetworkInterface, TcpStatus};
use crate::socket::HandleWrapper;
use crate::socket_map::{EntryView, Options, SocketMap};
use crate::tcp::release_all;

verus! {

broadcast use vstd::map::group_map_axioms;

/// The outcome of a poll: the value, or on which side of a socket to wait for it.
#[derive(Debug)]
pub enum Poll<T> {
    Ready(T),
    Pending(WakeOn),
}

/// The outcome of polling a future.
#[derive(Debug)]
pub enum TaskPoll<T> {
    Ready(T),
    Pending,
}

/// On which side of a socket a waker is registered.
#[derive(Debug, Clone, Copy, PartialEq, Eq, Structural)]
pub enum WakeOn {
    Send,
    Recv,
    SendRecv,
}

impl WakeOn {
    /// The sending side is waited on.
    pub open spec fn sends(self) -> bool {
        self == WakeOn::Send || self == WakeOn::SendRecv
    }

    /// The receiving side is waited on.
    pub open spec fn recvs(self) -> bool {
        self == WakeOn::Recv || self == WakeOn::SendRecv
    }

    /// Registers a waker with those who wait for a socket.
    pub fn register(self, socket: Socket, waker: &Waker, socket_map: &mut SocketMap) -> (result:
        IoResult<()>)
        ensures
            joined(
                old(socket_map)@,
                final(socket_map)@,
                socket.id as int,
                if self.sends() {
                    1
                } else {
                    0
                },
                if self.recvs() {
                    1
                } else {
                    0
                },
                *waker,
            ),
            result == (if crate::socket_map::lookup(
                old(socket_map)@,
                socket.id as int,
            ) is Some {
                Ok::<(), Error>(())
            } else {
                Err(crate::socket_map::unknown())
            }),
    {
        match socket_map.get_mut(socket) {
            Ok(entry) => {
                match self {
                    WakeOn::Send => entry.register_send_waker(waker),
                    WakeOn::Recv => entry.register_recv_waker(waker),
                    WakeOn::SendRecv => {
                        entry.register_send_waker(waker);
                        entry.register_recv_waker(waker);
                    },
                }
                Ok(())
            },
            Err(error) => Err(error),
        }
    }
}

/// Whether a list went from `before` to `after` by adding copies of a waker to its end.
pub open spec fn grown(before: Seq<Waker>, after: Seq<Waker>, count: nat, waker: Waker) -> bool {
    &&& after.len() == before.len() + count
    &&& after.take(before.len() as int) =~= before
    &&& forall|i: int| before.len() <= i < after.len() ==> cloned(waker, #[trigger] after[i])
}

/// Whether sockets went from `before` to `after` by adding copies of a waker to those who wait for
/// one of them, if there is one of that number.
pub open spec fn joined(
    before: Seq<Option<EntryView>>,
    after: Seq<Option<EntryView>>,
    id: int,
    sends: nat,
    recvs: nat,
    waker: Waker,
) -> bool {
    match crate::socket_map::lookup(before, id) {
        Some(entry) => {
            &&& crate::socket_map::lookup(after, id) matches Some(now)
            &&& after =~= before.update(
                id,
                Some(
                    EntryView {
                        send_wakers: now.send_wakers,
                        recv_wakers: now.recv_wakers,
                        ..entry
                    },
                ),
            )
            &&& grown(entry.send_wakers, now.send_wakers, sends, waker)
            &&& grown(entry.recv_wakers, now.recv_wakers, recvs, waker)
        },
        None => after == before,
    }
}

/// What is left to do when a future was polled: nothing if it is ready, else to wait for the
/// socket.
pub open spec fn future_poll<T>(
    outcome: Poll<IoResult<T>>,
    map: Seq<Option<EntryView>>,
    id: int,
) -> TaskPoll<IoResult<T>> {
    match outcome {
        Poll::Ready(result) => TaskPoll::Ready(result),
        Poll::Pending(_) => {
            if crate::socket_map::lookup(map, id) is Some {
                TaskPoll::Pending
            } else {
                TaskPoll::Ready(Err(crate::socket_map::unknown()))
            }
        },
    }
}

/// Waits for a socket if the outcome of a poll is to wait.
fn wait<T>(
    outcome: Poll<IoResult<T>>,
    socket: Socket,
    waker: &Waker,
    socket_map: &mut SocketMap,
) -> (poll: TaskPoll<IoResult<T>>)
    ensures
        poll == future_poll(outcome, old(socket_map)@, socket.id as int),
        match outcome {
            Poll::Ready(_) => final(socket_map)@ == old(socket_map)@,
            Poll::Pending(wake_on) => joined(
                old(socket_map)@,
                final(socket_map)@,
                socket.id as int,
                if wake_on.sends() {
                    1
                } else {
                    0
                },
                if wake_on.recvs() {
                    1
                } else {
                    0
                },
                *waker,
            ),
        },
        forall|nic: NetworkInterface|
            old(socket_map).wf(nic) ==> #[trigger] final(socket_map).wf(nic),
{
    match outcome {
        Poll::Ready(result) => TaskPoll::Ready(result),
        Poll::Pending(wake_on) => {
            let registered = wake_on.register(socket, waker, socket_map);
            proof {
                lemma_joined_owned(
                    *old(socket_map),
                    *socket_map,
                    socket.id as int,
                    if wake_on.sends() {
                        1
                    } else {
                        0
                    },
                    if wake_on.recvs() {
                        1
                    } else {
                        0
                    },
                    *waker,
                );
            }
            match registered {
                Ok(()) => TaskPoll::Pending,
                Err(error) => TaskPoll::Ready(Err(error)),
            }
        },
    }
}

/// Waiting for a socket takes nothing away from any.
proof fn lemma_joined_owned(
    before: SocketMap,
    after: SocketMap,
    id: int,
    sends: nat,
    recvs: nat,
    waker: Waker,
)
    requires
        joined(before@, after@, id, sends, recvs, waker),
    ensures
        forall|nic: NetworkInterface| before.wf(nic) ==> #[trigger] after.wf(nic),
{
    assert forall|nic: NetworkInterface| before.wf(nic) implies #[trigger] after.wf(nic) by {
        assert forall|other: int| #[trigger]
            crate::socket_map::held(after@, other) == crate::socket_map::held(before@, other) by {}
        crate::socket_map::lemma_owned_kept((before@, nic.tcp()), (after@, nic.tcp()));
    }
}

/// Whether an operation that cannot go on at once waits.
#[derive(Debug, Clone, Copy, PartialEq, Eq, Structural)]
pub enum Behaviour {
    NonBlocking,
    /// Waits for as many milliseconds, or without end.
    Blocking(Option<u64>),
}

impl From<Options> for Behaviour {
    fn from(options: Options) -> (behaviour: Self) {
        if options.non_blocking {
            Behaviour::NonBlocking
        } else {
            Behaviour::Blocking(options.timeout)
        }
    }
}

impl vstd::std_specs::convert::FromSpecImpl<Options> for Behaviour {
    open spec fn obeys_from_spec() -> bool {
        true
    }

    open spec fn from_spec(options: Options) -> Behaviour {
        behaviour_of(options)
    }
}

/// How an operation waits on a socket with the given options.
pub open spec fn behaviour_of(options: Options) -> Behaviour {
    if options.non_blocking {
        Behaviour::NonBlocking
    } else {
        Behaviour::Blocking(options.timeout)
    }
}

/// How the outcome of a poll is come by.
#[derive(Debug)]
pub enum Execution<T> {
    /// It is there.
    Done(IoResult<T>),
    /// The thread is to block on the future, for as many milliseconds or without end.
    Block(Option<u64>),
}

/// The error of an operation that cannot go on at once.
pub open spec fn would_block() -> Error {
    Error { kind: ErrorKind::WouldBlock, msg: "this operation would block" }
}

/// The error of a listening socket that has nothing to wait for.
pub open spec fn empty_backlog() -> Error {
    Error { kind: ErrorKind::Other, msg: "no sockets in backlog" }
}

/// What a single poll amounts to.
pub open spec fn once<T>(outcome: Poll<IoResult<T>>) -> IoResult<T> {
    match outcome {
        Poll::Ready(result) => result,
        Poll::Pending(_) => Err(would_block()),
    }
}

/// Makes do with a single poll.
pub fn poll_once<T>(outcome: Poll<IoResult<T>>) -> (result: IoResult<T>)
    ensures
        result == once(outcome),
{
    match outcome {
        Poll::Ready(result) => result,
        Poll::Pending(_) => Err(Error::new(ErrorKind::WouldBlock, "this operation would block")),
    }
}

/// What a TCP socket is waited for.
pub trait TcpPoll: Sized {
    /// The outcome of the poll of a socket with the given status.
    spec fn outcome(&self, status: TcpStatus) -> Poll<IoResult<()>>;

    /// Polls a socket with the given status.
    fn poll(&self, status: TcpStatus) -> (outcome: Poll<IoResult<()>>)
        ensures
            outcome == self.outcome(status),
    ;
}

/// A TCP socket and what it is waited for.
#[derive(Debug)]
pub struct PollSocketRaw<F> {
    pub poll_fn: F,
    pub handle: HandleWrapper,
}

/// Several TCP sockets and what they are waited for.
#[derive(Debug)]
pub struct PollSocketsRaw<F> {
    pub poll_fn: F,
    pub handles: Vec<HandleWrapper>,
}

/// The events that are waited for.
#[derive(Debug)]
pub struct PollEventsRaw {
    pub events: Vec<Event>,
}

/// A wait for a TCP socket.
#[derive(Debug)]
pub struct PollSocket<F> {
    pub raw: PollSocketRaw<F>,
    pub socket: Socket,
    pub behaviour: Behaviour,
}

/// A wait for one of several TCP sockets.
#[derive(Debug)]
pub struct PollSockets<F> {
    pub raw: PollSocketsRaw<F>,
    pub socket: Socket,
    pub behaviour: Behaviour,
}

/// A wait for events, reported by an event socket.
#[derive(Debug)]
pub struct PollEvents {
    pub raw: PollEventsRaw,
    pub socket: Socket,
    pub behaviour: Behaviour,
}

impl<F: TcpPoll> PollSocketRaw<F> {
    pub fn new(handle: HandleWrapper, poll_fn: F) -> (raw: Self)
        ensures
            raw == (PollSocketRaw { poll_fn, handle }),
    {
        PollSocketRaw { poll_fn, handle }
    }

    /// Names the socket that is waited for, and how it is waited for.
    pub fn with(self, socket: Socket, behaviour: Behaviour) -> (poll: PollSocket<F>)
        ensures
            poll == (PollSocket { raw: self, socket, behaviour }),
    {
        PollSocket { raw: self, socket, behaviour }
    }
}

impl<F: TcpPoll> PollSocketsRaw<F> {
    pub fn new(handles: Vec<HandleWrapper>, poll_fn: F) -> (raw: Self)
        ensures
            raw == (PollSocketsRaw { poll_fn, handles }),
    {
        PollSocketsRaw { poll_fn, handles }
    }

    /// Names the socket that is waited for, and how it is waited for.
    pub fn with(self, socket: Socket, behaviour: Behaviour) -> (poll: PollSockets<F>)
        ensures
            poll == (PollSockets { raw: self, socket, behaviour }),
    {
        PollSockets { raw: self, socket, behaviour }
    }
}

impl PollEventsRaw {
    pub fn new(events: Vec<Event>) -> (raw: Self)
        ensures
            raw == (PollEventsRaw { events }),
    {
        PollEventsRaw { events }
    }

    /// Names the socket that is waited for, and how it is waited for.
    pub fn with(self, socket: Socket, behaviour: Behaviour) -> (poll: PollEvents)
        ensures
            poll == (PollEvents { raw: self, socket, behaviour }),
    {
        PollEvents { raw: self, socket, behaviour }
    }
}

impl<F: TcpPoll> PollSocket<F> {
    /// Polls the future of the wait: what came of it, or to wait for the socket.
    pub fn poll_future(
        &self,
        socket_map: &mut SocketMap,
        nic: &mut NetworkInterface,
        waker: &Waker,
    ) -> (poll: TaskPoll<IoResult<()>>)
        requires
            self.live(*old(nic)),
        ensures
            poll == future_poll(
                self.outcome(*old(nic)),
                old(socket_map)@,
                self.socket.id as int,
            ),
            match self.outcome(*old(nic)) {
                Poll::Ready(_) => final(socket_map)@ == old(socket_map)@,
                Poll::Pending(wake_on) => joined(
                    old(socket_map)@,
                    final(socket_map)@,
                    self.socket.id as int,
                    if wake_on.sends() {
                        1
                    } else {
                        0
                    },
                    if wake_on.recvs() {
                        1
                    } else {
                        0
                    },
                    *waker,
                ),
            },
            forall|nic: NetworkInterface|
                old(socket_map).wf(nic) ==> #[trigger] final(socket_map).wf(nic),
            final(nic).tcp() == old(nic).tcp(),
            final(nic).same_but_sockets(*old(nic)),
    {
        let outcome = self.poll_with_socket(nic);
        wait(outcome, self.socket, waker, socket_map)
    }

    /// Gives up the socket of the interface that the wait holds.
    pub fn release(self, nic: &mut NetworkInterface)
        requires
            self.live(*old(nic)),
            old(nic).tcp()[self.raw.handle.0].refs > 0,
        ensures
            final(nic).tcp() == crate::smol::released(old(nic).tcp(), set![self.raw.handle.0]),
            final(nic).same_but_sockets(*old(nic)),
    {
        let ghost handle = self.raw.handle.0;
        self.raw.handle.release(nic);
        assert(nic.tcp() =~= crate::smol::released(old(nic).tcp(), set![handle]));
    }

    /// The outcome of a poll.
    pub open spec fn outcome(self, nic: NetworkInterface) -> Poll<IoResult<()>> {
        self.raw.poll_fn.outcome(nic.tcp()[self.raw.handle.0].status())
    }

    /// The socket is in the interface.
    pub open spec fn live(self, nic: NetworkInterface) -> bool {
        nic.tcp().dom().contains(self.raw.handle.0)
    }

    /// Polls the socket.
    pub fn poll_with_socket(&self, nic: &mut NetworkInterface) -> (outcome: Poll<IoResult<()>>)
        requires
            self.live(*old(nic)),
        ensures
            outcome == self.outcome(*old(nic)),
            final(nic).tcp() == old(nic).tcp(),
            final(nic).same_but_sockets(*old(nic)),
    {
        let status = nic.status(self.raw.handle.inner());
        self.raw.poll_fn.poll(status)
    }

    /// Polls the socket a single time.
    pub fn poll_once(&self, nic: &mut NetworkInterface) -> (result: IoResult<()>)
        requires
            self.live(*old(nic)),
        ensures
            result == once(self.outcome(*old(nic))),
            final(nic).tcp() == old(nic).tcp(),
            final(nic).same_but_sockets(*old(nic)),
    {
        poll_once(self.poll_with_socket(nic))
    }

    /// Waits as the socket's behaviour says: not at all, or by blocking on the future.
    pub fn execute(&self, nic: &mut NetworkInterface) -> (execution: Execution<()>)
        requires
            self.live(*old(nic)),
        ensures
            execution == (match self.behaviour {
                Behaviour::NonBlocking => Execution::Done(once(self.outcome(*old(nic)))),
                Behaviour::Blocking(timeout) => Execution::Block(timeout),
            }),
            final(nic).tcp() == old(nic).tcp(),
            final(nic).same_but_sockets(*old(nic)),
    {
        match self.behaviour {
            Behaviour::NonBlocking => Execution::Done(self.poll_once(nic)),
            Behaviour::Blocking(timeout) => Execution::Block(timeout),
        }
    }
}

/// The outcome of polling sockets in turn: the first that is ready, else to wait as the last one
/// says.
pub open spec fn first_ready<F: TcpPoll>(poll_fn: F, statuses: Seq<TcpStatus>) -> Poll<
    IoResult<()>,
>
    decreases statuses.len(),
{
    if statuses.len() == 0 {
        Poll::Ready(Err(empty_backlog()))
    } else {
        let first = poll_fn.outcome(statuses[0]);
        if first is Ready || statuses.len() == 1 {
            first
        } else {
            first_ready(poll_fn, statuses.skip(1))
        }
    }
}

impl<F: TcpPoll> PollSockets<F> {
    /// Polls the future of the wait: what came of it, or to wait for the socket.
    pub fn poll_future(
        &self,
        socket_map: &mut SocketMap,
        nic: &mut NetworkInterface,
        waker: &Waker,
    ) -> (poll: TaskPoll<IoResult<()>>)
        requires
            self.live(*old(nic)),
        ensures
            poll == future_poll(
                self.outcome(*old(nic)),
                old(socket_map)@,
                self.socket.id as int,
            ),
            match self.outcome(*old(nic)) {
                Poll::Ready(_) => final(socket_map)@ == old(socket_map)@,
                Poll::Pending(wake_on) => joined(
                    old(socket_map)@,
                    final(socket_map)@,
                    self.socket.id as int,
                    if wake_on.sends() {
                        1
                    } else {
                        0
                    },
                    if wake_on.recvs() {
                        1
                    } else {
                        0
                    },
                    *waker,
                ),
            },
            forall|nic: NetworkInterface|
                old(socket_map).wf(nic) ==> #[trigger] final(socket_map).wf(nic),
            final(nic).tcp() == old(nic).tcp(),
            final(nic).same_but_sockets(*old(nic)),
    {
        let outcome = self.poll_with_sockets(nic);
        wait(outcome, self.socket, waker, socket_map)
    }

    /// The sockets of the interface that the wait holds.
    pub open spec fn handles(self) -> Seq<SocketHandle> {
        self.raw.handles@.map_values(|handle: HandleWrapper| handle.0)
    }

    /// Gives up the sockets of the interface that the wait holds.
    pub fn release(self, nic: &mut NetworkInterface)
        requires
            self.handles().no_duplicates(),
            forall|i: int|
                0 <= i < self.handles().len() ==> {
                    &&& old(nic).tcp().dom().contains(#[trigger] self.handles()[i])
                    &&& old(nic).tcp()[self.handles()[i]].refs > 0
                },
        ensures
            final(nic).tcp() == crate::smol::released(old(nic).tcp(), self.handles().to_set()),
            final(nic).same_but_sockets(*old(nic)),
    {
        release_all(self.raw.handles, nic);
    }

    /// The statuses of the sockets in turn.
    pub open spec fn statuses(self, nic: NetworkInterface) -> Seq<TcpStatus> {
        Seq::new(
            self.raw.handles@.len(),
            |i: int| nic.tcp()[self.raw.handles@[i].0].status(),
        )
    }

    /// The outcome of a poll.
    pub open spec fn outcome(self, nic: NetworkInterface) -> Poll<IoResult<()>> {
        first_ready(self.raw.poll_fn, self.statuses(nic))
    }

    /// The sockets are in the interface.
    pub open spec fn live(self, nic: NetworkInterface) -> bool {
        forall|i: int|
            0 <= i < self.raw.handles@.len() ==> nic.tcp().dom().contains(
                #[trigger] self.raw.handles@[i].0,
            )
    }

    /// Polls the sockets in turn until one is ready.
    pub fn poll_with_sockets(&self, nic: &mut NetworkInterface) -> (outcome: Poll<IoResult<()>>)
        requires
            self.live(*old(nic)),
        ensures
            outcome == self.outcome(*old(nic)),
            final(nic).tcp() == old(nic).tcp(),
            final(nic).same_but_sockets(*old(nic)),
    {
        let mut wake: Option<WakeOn> = None;
        let mut i: usize = 0;
        let ghost statuses = self.statuses(*nic);
        assert(statuses.skip(0) =~= statuses);
        while i < self.raw.handles.len()
            invariant
                i <= self.raw.handles@.len(),
                self.live(*old(nic)),
                nic.tcp() == old(nic).tcp(),
                nic.same_but_sockets(*old(nic)),
                statuses == self.statuses(*old(nic)),
                i == 0 <==> wake is None,
                wake matches Some(wake_on) ==> self.raw.poll_fn.outcome(statuses[i - 1])
                    == Poll::<IoResult<()>>::Pending(wake_on),
                i < statuses.len() ==> self.outcome(*old(nic)) == first_ready(
                    self.raw.poll_fn,
                    statuses.skip(i as int),
                ),
                0 < i == statuses.len() ==> self.outcome(*old(nic)) == self.raw.poll_fn.outcome(
                    statuses[i - 1],
                ),
            decreases self.raw.handles@.len() - i,
        {
            let status = nic.status(self.raw.handles[i].inner());
            assert(status == statuses[i as int]);
            assert(statuses.skip(i as int)[0] == status);
            assert(statuses.skip(i as int).skip(1) =~= statuses.skip(i + 1));
            match self.raw.poll_fn.poll(status) {
                Poll::Ready(result) => {
                    return Poll::Ready(result);
                },
                Poll::Pending(wake_on) => {
                    wake = Some(wake_on);
                },
            }
            i += 1;
        }
        match wake {
            Some(wake_on) => Poll::Pending(wake_on),
            None => Poll::Ready(Err(Error::new(ErrorKind::Other, "no sockets in backlog"))),
        }
    }

    /// Polls the sockets a single time.
    pub fn poll_once(&self, nic: &mut NetworkInterface) -> (result: IoResult<()>)
        requires
            self.live(*old(nic)),
        ensures
            result == once(self.outcome(*old(nic))),
            final(nic).tcp() == old(nic).tcp(),
            final(nic).same_but_sockets(*old(nic)),
    {
        poll_once(self.poll_with_sockets(nic))
    }

    /// Waits as the socket's behaviour says: not at all, or by blocking on the future.
    pub fn execute(&self, nic: &mut NetworkInterface) -> (execution: Execution<()>)
        requires
            self.live(*old(nic)),
        ensures
            execution == (match self.behaviour {
                Behaviour::NonBlocking => Execution::Done(once(self.outcome(*old(nic)))),
                Behaviour::Blocking(timeout) => Execution::Block(timeout),
            }),
            final(nic).tcp() == old(nic).tcp(),
            final(nic).same_but_sockets(*old(nic)),
    {
        match self.behaviour {
            Behaviour::NonBlocking => Execution::Done(self.poll_once(nic)),
            Behaviour::Blocking(timeout) => Execution::Block(timeout),
        }
    }
}

impl PollEvents {
    /// The look at the sockets of interest comes to an end.
    pub open spec fn ends(self, map: SocketMap, nic: NetworkInterface) -> bool {
        crate::look::first_event_ends(map@, nic.tcp(), self.raw.events@)
    }

    /// What comes of a look at the sockets of interest.
    pub open spec fn look(self, map: SocketMap, nic: NetworkInterface) ->
        crate::look::EventsPoll {
        crate::look::first_event(map@, nic.tcp(), self.raw.events@)
    }

    /// The outcome of a poll.
    pub open spec fn outcome(self, map: SocketMap, nic: NetworkInterface) -> Poll<
        IoResult<Event>,
    > {
        match self.look(map, nic).ready {
            Some(event) => Poll::Ready(Ok(event)),
            None => Poll::Pending(WakeOn::Send),
        }
    }

    /// Looks at the sockets of interest. A waker is registered for reading with those who wait for
    /// the event socket, once for each interest that had nothing to report.
    pub fn poll_with_entries(
        &self,
        socket_map: &mut SocketMap,
        nic: &mut NetworkInterface,
        waker: Option<&Waker>,
    ) -> (outcome: Poll<IoResult<Event>>)
        requires
            old(socket_map).wf(*old(nic)),
            self.ends(*old(socket_map), *old(nic)),
        ensures
            outcome == self.outcome(*old(socket_map), *old(nic)),
            match waker {
                Some(waker) => joined(
                    self.look(*old(socket_map), *old(nic)).map,
                    final(socket_map)@,
                    self.socket.id as int,
                    0,
                    self.look(*old(socket_map), *old(nic)).pending,
                    *waker,
                ),
                None => final(socket_map)@ == self.look(*old(socket_map), *old(nic)).map,
            },
            final(socket_map).wf(*final(nic)),
            final(nic).tcp() == old(nic).tcp(),
            final(nic).same_but_sockets(*old(nic)),
    {
        let (ready, pending) = socket_map.first_event(&self.raw.events, nic);
        if let Some(waker) = waker {
            let ghost looked = *socket_map;
            let ghost id = self.socket.id as int;
            let mut i: usize = 0;
            while i < pending
                invariant
                    i <= pending,
                    id == self.socket.id as int,
                    joined(looked@, socket_map@, id, 0, i as nat, *waker),
                decreases pending - i,
            {
                let ghost before = socket_map@;
                let _ = WakeOn::Recv.register(self.socket, waker, socket_map);
                proof {
                    lemma_joined_twice(looked@, before, socket_map@, id, (0, 0), (i as nat, 1), *waker);
                }
                i += 1;
            }
            proof {
                lemma_joined_owned(looked, *socket_map, id, 0, pending as nat, *waker);
            }
        }
        match ready {
            Some(event) => Poll::Ready(Ok(event)),
            None => Poll::Pending(WakeOn::Send),
        }
    }

    /// Looks at the sockets of interest a single time.
    pub fn poll_once(&self, socket_map: &mut SocketMap, nic: &mut NetworkInterface) -> (result:
        IoResult<Event>)
        requires
            old(socket_map).wf(*old(nic)),
            self.ends(*old(socket_map), *old(nic)),
        ensures
            result == once(self.outcome(*old(socket_map), *old(nic))),
            final(socket_map)@ == self.look(*old(socket_map), *old(nic)).map,
            final(socket_map).wf(*final(nic)),
            final(nic).tcp() == old(nic).tcp(),
            final(nic).same_but_sockets(*old(nic)),
    {
        poll_once(self.poll_with_entries(socket_map, nic, None))
    }

    /// Waits as the socket's behaviour says: not at all, or by blocking on the future.
    pub fn execute(&self, socket_map: &mut SocketMap, nic: &mut NetworkInterface) -> (execution:
        Execution<Event>)
        requires
            old(socket_map).wf(*old(nic)),
            self.behaviour is NonBlocking ==> self.ends(*old(socket_map), *old(nic)),
        ensures
            match self.behaviour {
                Behaviour::NonBlocking => {
                    &&& execution == Execution::Done(
                        once(self.outcome(*old(socket_map), *old(nic))),
                    )
                    &&& final(socket_map)@ == self.look(*old(socket_map), *old(nic)).map
                },
                Behaviour::Blocking(timeout) => {
                    &&& execution == Execution::<Event>::Block(timeout)
                    &&& final(socket_map)@ == old(socket_map)@
                },
            },
            final(socket_map).wf(*final(nic)),
            final(nic).tcp() == old(nic).tcp(),
            final(nic).same_but_sockets(*old(nic)),
    {
        match self.behaviour {
            Behaviour::NonBlocking => Execution::Done(self.poll_once(socket_map, nic)),
            Behaviour::Blocking(timeout) => Execution::Block(timeout),
        }
    }

    /// Polls the future of the wait: what there is to report, or to wait for the event socket, for
    /// writing too.
    pub fn poll_future(
        &self,
        socket_map: &mut SocketMap,
        nic: &mut NetworkInterface,
        waker: &Waker,
    ) -> (poll: TaskPoll<IoResult<Event>>)
        requires
            old(socket_map).wf(*old(nic)),
            self.ends(*old(socket_map), *old(nic)),
        ensures
            poll == future_poll(
                self.outcome(*old(socket_map), *old(nic)),
                self.look(*old(socket_map), *old(nic)).map,
                self.socket.id as int,
            ),
            joined(
                self.look(*old(socket_map), *old(nic)).map,
                final(socket_map)@,
                self.socket.id as int,
                if self.look(*old(socket_map), *old(nic)).ready is None {
                    1
                } else {
                    0
                },
                self.look(*old(socket_map), *old(nic)).pending,
                *waker,
            ),
            final(socket_map).wf(*final(nic)),
            final(nic).tcp() == old(nic).tcp(),
            final(nic).same_but_sockets(*old(nic)),
    {
        let ghost look = self.look(*socket_map, *nic);
        let outcome = self.poll_with_entries(socket_map, nic, Some(waker));
        let ghost mid = socket_map@;
        let poll = wait(outcome, self.socket, waker, socket_map);
        proof {
            if look.ready is None {
                lemma_joined_twice(
                    look.map,
                    mid,
                    socket_map@,
                    self.socket.id as int,
                    (0, 1),
                    (look.pending, 0),
                    *waker,
                );
            }
        }
        poll
    }
}

/// Whoever waits for a socket is among those who are woken for it.
pub proof fn law_whoever_waits_is_woken(
    before: Seq<Option<EntryView>>,
    after: Seq<Option<EntryView>>,
    id: int,
    sends: nat,
    recvs: nat,
    waker: Waker,
)
    requires
        joined(before, after, id, sends, recvs, waker),
        crate::socket_map::lookup(before, id) is Some,
    ensures
        crate::socket_map::lookup(after, id) matches Some(entry) && {
            &&& sends > 0 ==> exists|i: int|
                0 <= i < entry.send_wakers.len() && cloned(waker, #[trigger] entry.send_wakers[i])
            &&& recvs > 0 ==> exists|i: int|
                0 <= i < entry.recv_wakers.len() && cloned(waker, #[trigger] entry.recv_wakers[i])
        },
{
    let entry = crate::socket_map::lookup(after, id)->0;
    if sends > 0 {
        assert(cloned(waker, entry.send_wakers[entry.send_wakers.len() - 1]));
    }
    if recvs > 0 {
        assert(cloned(waker, entry.recv_wakers[entry.recv_wakers.len() - 1]));
    }
}

/// Adding copies of a waker twice adds as many as both.
proof fn lemma_joined_twice(
    before: Seq<Option<EntryView>>,
    mid: Seq<Option<EntryView>>,
    after: Seq<Option<EntryView>>,
    id: int,
    sends: (nat, nat),
    recvs: (nat, nat),
    waker: Waker,
)
    requires
        joined(before, mid, id, sends.0, recvs.0, waker),
        joined(mid, after, id, sends.1, recvs.1, waker),
    ensures
        joined(before, after, id, sends.0 + sends.1, recvs.0 + recvs.1, waker),
{
    if let Some(entry) = crate::socket_map::lookup(before, id) {
        let between = crate::socket_map::lookup(mid, id)->0;
        let now = crate::socket_map::lookup(after, id)->0;
        lemma_grown_twice(
            entry.send_wakers,
            between.send_wakers,
            now.send_wakers,
            sends.0,
            sends.1,
            waker,
        );
        lemma_grown_twice(
            entry.recv_wakers,
            between.recv_wakers,
            now.recv_wakers,
            recvs.0,
            recvs.1,
            waker,
        );
    }
}

/// Adding copies of a waker to a list twice adds as many as both.
proof fn lemma_grown_twice(
    before: Seq<Waker>,
    mid: Seq<Waker>,
    after: Seq<Waker>,
    first: nat,
    second: nat,
    waker: Waker,
)
    requires
        grown(before, mid, first, waker),
        grown(mid, after, second, waker),
    ensures
        grown(before, after, first + second, waker),
{
    assert(after.take(before.len() as int) =~= before) by {
        assert forall|i: int| 0 <= i < before.len() implies after[i] == before[i] by {
            assert(after.take(mid.len() as int)[i] == mid[i]);
            assert(mid.take(before.len() as int)[i] == before[i]);
        }
    }
    assert forall|i: int| before.len() <= i < after.len() implies cloned(
        waker,
        #[trigger] after[i],
    ) by {
        if i < mid.len() {
            assert(after.take(mid.len() as int)[i] == mid[i]);
        }
    }
}

/// A side is waited on exactly if it is named.
pub proof fn law_named_sides_are_waited_on()
    ensures
        WakeOn::Send.sends() && !WakeOn::Send.recvs(),
        WakeOn::Recv.recvs() && !WakeOn::Recv.sends(),
        WakeOn::SendRecv.sends() && WakeOn::SendRecv.recvs(),
{
}

/// Waiting for a socket adds copies of the waker to the end of those who wait for it, as many as
/// told, and changes nothing else of it and nothing of any other socket.
pub proof fn law_waiting_only_adds(
    before: Seq<Option<EntryView>>,
    after: Seq<Option<EntryView>>,
    id: int,
    sends: nat,
    recvs: nat,
    waker: Waker,
    other: int,
)
    requires
        joined(before, after, id, sends, recvs, waker),
    ensures
        after.len() == before.len(),
        other != id ==> crate::socket_map::lookup(after, other) == crate::socket_map::lookup(
            before,
            other,
        ),
        match (crate::socket_map::lookup(before, id), crate::socket_map::lookup(after, id)) {
            (Some(then), Some(now)) => {
                &&& now.send_wakers.len() == then.send_wakers.len() + sends
                &&& now.recv_wakers.len() == then.recv_wakers.len() + recvs
                &&& forall|i: int|
                    0 <= i < then.send_wakers.len() ==> #[trigger] now.send_wakers[i]
                        == then.send_wakers[i]
                &&& forall|i: int|
                    0 <= i < then.recv_wakers.len() ==> #[trigger] now.recv_wakers[i]
                        == then.recv_wakers[i]
                &&& forall|i: int|
                    then.send_wakers.len() <= i < now.send_wakers.len() ==> cloned(
                        waker,
                        #[trigger] now.send_wakers[i],
                    )
                &&& forall|i: int|
                    then.recv_wakers.len() <= i < now.recv_wakers.len() ==> cloned(
                        waker,
                        #[trigger] now.recv_wakers[i],
                    )
                &&& now == EntryView {
                    send_wakers: now.send_wakers,
                    recv_wakers: now.recv_wakers,
                    ..then
                }
            },
            (None, None) => true,
            _ => false,
        },
{
    if let Some(then) = crate::socket_map::lookup(before, id) {
        let now = crate::socket_map::lookup(after, id)->0;
        assert forall|i: int| 0 <= i < then.send_wakers.len() implies #[trigger] now.send_wakers[i]
            == then.send_wakers[i] by {
            assert(now.send_wakers.take(then.send_wakers.len() as int)[i] == then.send_wakers[i]);
        }
        assert forall|i: int| 0 <= i < then.recv_wakers.len() implies #[trigger] now.recv_wakers[i]
            == then.recv_wakers[i] by {
            assert(now.recv_wakers.take(then.recv_wakers.len() as int)[i] == then.recv_wakers[i]);
        }
    }
}

/// A future is ready as soon as its outcome is there, and waits for as long as it is not and the
/// socket that it waits for is there. A single poll that would have to wait would block.
pub proof fn law_outcome_ends_the_wait<T>(
    result: IoResult<T>,
    wake_on: WakeOn,
    map: Seq<Option<EntryView>>,
    id: int,
)
    ensures
        once(Poll::Ready(result)) == result,
        once::<T>(Poll::Pending(wake_on)) matches Err(error) && error.kind
            == ErrorKind::WouldBlock,
        future_poll(Poll::Ready(result), map, id) == TaskPoll::Ready(result),
        match future_poll::<T>(Poll::Pending(wake_on), map, id) {
            TaskPoll::Pending => crate::socket_map::lookup(map, id) is Some,
            TaskPoll::Ready(Err(error)) => crate::socket_map::lookup(map, id) is None
                && error.kind == ErrorKind::NotSocket,
            TaskPoll::Ready(Ok(_)) => false,
        },
{
}

/// Whether an operation waits, and for how long, goes by the options of the socket.
pub proof fn law_options_tell_how_to_wait(options: Options)
    ensures
        match behaviour_of(options) {
            Behaviour::NonBlocking => options.non_blocking,
            Behaviour::Blocking(timeout) => !options.non_blocking && timeout == options.timeout,
        },
{
}

/// Of several sockets the first that is ready tells the outcome; if none is, the last tells what to
/// wait for.
pub proof fn law_first_ready_socket_decides<F: TcpPoll>(
    poll_fn: F,
    statuses: Seq<TcpStatus>,
    i: int,
)
    requires
        0 <= i < statuses.len(),
        forall|j: int| 0 <= j < i ==> poll_fn.outcome(#[trigger] statuses[j]) is Pending,
        poll_fn.outcome(statuses[i]) is Ready || i == statuses.len() - 1,
    ensures
        first_ready(poll_fn, statuses) == poll_fn.outcome(statuses[i]),
    decreases i,
{
    if i > 0 {
        let rest = statuses.skip(1);
        assert(poll_fn.outcome(statuses[0]) is Pending);
        assert forall|j: int| 0 <= j < i - 1 implies poll_fn.outcome(
            #[trigger] rest[j],
        ) is Pending by {
            assert(rest[j] == statuses[j + 1]);
        }
        assert(rest[i - 1] == statuses[i]);
        law_first_ready_socket_decides(poll_fn, rest, i - 1);
    }
}

/// Without sockets there is nothing to wait for.
pub proof fn law_nothing_to_wait_for<F: TcpPoll>(poll_fn: F)
    ensures
        first_ready(poll_fn, Seq::empty()) matches Poll::Ready(Err(error)) && error.kind
            == ErrorKind::Other,
{
}

/// A wait goes by the sockets that it holds, as they are in the interface.
pub proof fn law_wait_goes_by_its_sockets<F: TcpPoll>(
    single: PollSocket<F>,
    several: PollSockets<F>,
    nic: NetworkInterface,
    i: int,
)
    requires
        0 <= i < several.raw.handles@.len(),
    ensures
        single.outcome(nic) == single.raw.poll_fn.outcome(
            nic.tcp()[single.raw.handle.0].status(),
        ),
        several.handles().len() == several.raw.handles@.len(),
        several.handles()[i] == several.raw.handles@[i].0,
        several.statuses(nic).len() == several.handles().len(),
        several.statuses(nic)[i] == nic.tcp()[several.handles()[i]].status(),
        several.outcome(nic) == first_ready(several.raw.poll_fn, several.statuses(nic)),
{
}

/// A wait for events is over exactly if there is something to report, which it then gives.
pub proof fn law_wait_for_events_gives_the_event(
    wait: PollEvents,
    map: SocketMap,
    nic: NetworkInterface,
)
    ensures
        wait.look(map, nic) == crate::look::first_event(map@, nic.tcp(), wait.raw.events@),
        match wait.outcome(map, nic) {
            Poll::Ready(Ok(event)) => wait.look(map, nic).ready == Some(event),
            Poll::Ready(Err(_)) => false,
            Poll::Pending(_) => wait.look(map, nic).ready is None,
        },
{
}

} // verus!
