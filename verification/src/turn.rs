//! Calls that may have to wait.
//!
//! Such a call is made in turns: each turn says whether the call is done, what to wait for, or that
//! it is to be gone on with at once.
use vstd::prelude::*;

use smoltcp::socket::SocketHandle;

use crate::io::{Error, IoResult};
use crate::net::Socket;
use crate::nic::NetworkInterface;
use crate::poll::{Behaviour, Execution, PollSocket, PollSockets, TcpPoll};
use crate::smol::TcpModel;
use crate::socket_map::{EntryView, Options, SocketMap};
use crate::tcp::{Held, IncomingConnection};

verus! {

broadcast use vstd::map::group_map_axioms;

/// Where a call stands that may have to wait.
#[derive(Debug, Clone, Copy)]
pub enum Step {
    /// The call begins.
    Begin,
    /// The call is gone on with, by the options that it began with.
    Retry(Options),
    /// What was waited for came, or the wait failed; by the options that the call began with.
    Waited(Options, IoResult<()>),
}

/// What a turn of a call that may have to wait comes to.
#[derive(Debug)]
pub enum Turn<T, W> {
    /// The call is done.
    Done(IoResult<T>),
    /// The call is to be gone on with once the wait is over. What the wait holds is then to be
    /// given up.
    Wait(Options, W),
    /// The call is to be gone on with at once.
    Retry(Options),
}

/// Whether a turn of a call gets past its wait.
pub ghost enum Gate {
    Fail(Error),
    Wait(Options),
    Pass(Options),
}

/// The options that a call goes by.
pub open spec fn options_of(step: Step, entry: EntryView) -> Options {
    match step {
        Step::Begin => entry.options,
        Step::Retry(options) => options,
        Step::Waited(options, _) => options,
    }
}

/// Whether a wait for a TCP socket lets a call pass: always once it was waited for, else if the
/// socket is ready or the call is to wait.
pub open spec fn gate<F: TcpPoll>(
    poll_fn: F,
    map: Seq<Option<EntryView>>,
    tcp: Map<SocketHandle, TcpModel>,
    id: int,
    step: Step,
) -> Gate {
    match step {
        Step::Waited(_, Err(error)) => Gate::Fail(error),
        Step::Waited(options, Ok(())) => Gate::Pass(options),
        _ => match crate::proxy::tcp_of(map, id) {
            Err(error) => Gate::Fail(error),
            Ok(socket) => match socket.held {
                Held::Backlog(_) => Gate::Fail(crate::tcp::listening()),
                Held::Handle(handle) => {
                    let options = options_of(step, crate::socket_map::lookup(map, id)->0);
                    if !options.non_blocking {
                        Gate::Wait(options)
                    } else {
                        match crate::poll::once(poll_fn.outcome(tcp[handle].status())) {
                            Ok(()) => Gate::Pass(options),
                            Err(error) => Gate::Fail(error),
                        }
                    }
                },
            },
        },
    }
}

/// The wait for a TCP socket that a call is to wait for.
pub open spec fn wait_on<F: TcpPoll>(
    poll_fn: F,
    map: Seq<Option<EntryView>>,
    socket: Socket,
    options: Options,
) -> PollSocket<F> {
    PollSocket {
        raw: crate::poll::PollSocketRaw {
            poll_fn,
            handle: crate::socket::HandleWrapper(
                (crate::proxy::tcp_of(map, socket.id as int)->Ok_0).held->Handle_0,
            ),
        },
        socket,
        behaviour: crate::poll::behaviour_of(options),
    }
}

/// What a turn comes to that got past its wait: if there was nothing to be had, it is tried again.
pub open spec fn finished<T, W>(result: IoResult<Option<T>>, options: Options) -> Turn<T, W> {
    match result {
        Ok(Some(value)) => Turn::Done(Ok(value)),
        Ok(None) => Turn::Retry(options),
        Err(error) => Turn::Done(Err(error)),
    }
}

/// One more wait can be counted for each socket of the interface that a socket holds.
pub open spec fn countable(
    map: Seq<Option<EntryView>>,
    tcp: Map<SocketHandle, TcpModel>,
    id: int,
) -> bool {
    forall|handle: SocketHandle| #[trigger]
        crate::socket_map::held(map, id).contains(handle) ==> tcp[handle].refs < usize::MAX
}

/// How a call gets past its wait for a TCP socket: with the options that it goes by, or not yet.
pub(crate) enum Passage<W> {
    Fail(Error),
    Wait(Options, W),
    Pass(Options),
}

/// Gets a call past its wait for a TCP socket, if it does.
pub(crate) fn pass<F: TcpPoll>(
    poll_fn: F,
    socket_map: &SocketMap,
    nic: &mut NetworkInterface,
    socket: Socket,
    step: Step,
) -> (passage: Passage<PollSocket<F>>)
    requires
        socket_map.wf(*old(nic)),
        countable(socket_map@, old(nic).tcp(), socket.id as int),
    ensures
        match gate(poll_fn, socket_map@, old(nic).tcp(), socket.id as int, step) {
            Gate::Fail(error) => {
                &&& passage == Passage::<PollSocket<F>>::Fail(error)
                &&& final(nic).tcp() == old(nic).tcp()
            },
            Gate::Wait(options) => {
                let wait = wait_on(poll_fn, socket_map@, socket, options);
                &&& passage == Passage::Wait(options, wait)
                &&& final(nic).tcp() == crate::smol::retained(
                    old(nic).tcp(),
                    set![wait.raw.handle.0],
                )
            },
            Gate::Pass(options) => {
                &&& passage == Passage::<PollSocket<F>>::Pass(options)
                &&& final(nic).tcp() == old(nic).tcp()
            },
        },
        final(nic).same_but_sockets(*old(nic)),
        socket_map.wf(*final(nic)),
{
    let ghost id = socket.id as int;
    proof {
        crate::socket_map::lemma_owned_live(socket_map@, nic.tcp(), id);
    }
    if let Step::Waited(options, waited) = step {
        return match waited {
            Ok(()) => Passage::Pass(options),
            Err(error) => Passage::Fail(error),
        };
    }
    let entry = match socket_map.get(socket) {
        Ok(entry) => entry,
        Err(error) => {
            return Passage::Fail(error);
        },
    };
    let options = match step {
        Step::Begin => entry.options,
        Step::Retry(options) => options,
        Step::Waited(options, _) => options,
    };
    let tcp = match entry.async_socket.as_tcp_ref() {
        Ok(tcp) => tcp,
        Err(error) => {
            return Passage::Fail(error);
        },
    };
    proof {
        assert forall|i: int| 0 <= i < tcp@.held.handles().len() implies nic.tcp()[
            #[trigger] tcp@.held.handles()[i]
        ].refs < usize::MAX by {
            assert(crate::socket_map::held(socket_map@, id).contains(tcp@.held.handles()[i]));
        }
        if let Held::Handle(handle) = tcp@.held {
            assert(tcp@.held.handles()[0] == handle);
        }
    }
    let raw = match tcp.poll_socket(nic, poll_fn) {
        Ok(raw) => raw,
        Err(error) => {
            return Passage::Fail(error);
        },
    };
    let wait = raw.with(socket, Behaviour::from(options));
    let ghost held = nic.tcp();
    proof {
        crate::socket_map::lemma_owned_kept((socket_map@, old(nic).tcp()), (socket_map@, held));
    }
    match wait.execute(nic) {
        Execution::Block(_) => Passage::Wait(options, wait),
        Execution::Done(result) => {
            wait.release(nic);
            assert(nic.tcp() =~= old(nic).tcp());
            match result {
                Ok(()) => Passage::Pass(options),
                Err(error) => Passage::Fail(error),
            }
        },
    }
}

/// Whether a wait for a connection to come in lets a call pass: always once it was waited for, else
/// if one came in or the call is to wait.
pub open spec fn accept_gate(
    map: Seq<Option<EntryView>>,
    tcp: Map<SocketHandle, TcpModel>,
    id: int,
    step: Step,
) -> Gate {
    match step {
        Step::Waited(_, Err(error)) => Gate::Fail(error),
        Step::Waited(options, Ok(())) => Gate::Pass(options),
        _ => match crate::proxy::tcp_of(map, id) {
            Err(error) => Gate::Fail(error),
            Ok(socket) => match socket.held {
                Held::Handle(_) => Gate::Fail(crate::tcp::not_listening()),
                Held::Backlog(handles) => {
                    let options = options_of(step, crate::socket_map::lookup(map, id)->0);
                    if !options.non_blocking {
                        Gate::Wait(options)
                    } else {
                        let statuses = handles.map_values(
                            |handle: SocketHandle| tcp[handle].status(),
                        );
                        match crate::poll::once(
                            crate::poll::first_ready(IncomingConnection, statuses),
                        ) {
                            Ok(()) => Gate::Pass(options),
                            Err(error) => Gate::Fail(error),
                        }
                    }
                },
            },
        },
    }
}

/// Gets a call past its wait for a connection to come in, if it does.
pub(crate) fn pass_incoming(
    socket_map: &SocketMap,
    nic: &mut NetworkInterface,
    socket: Socket,
    step: Step,
) -> (passage: Passage<PollSockets<IncomingConnection>>)
    requires
        socket_map.wf(*old(nic)),
        countable(socket_map@, old(nic).tcp(), socket.id as int),
    ensures
        match accept_gate(socket_map@, old(nic).tcp(), socket.id as int, step) {
            Gate::Fail(error) => {
                &&& passage == Passage::<PollSockets<IncomingConnection>>::Fail(error)
                &&& final(nic).tcp() == old(nic).tcp()
            },
            Gate::Wait(options) => {
                let handles = crate::socket_map::held(socket_map@, socket.id as int);
                &&& passage matches Passage::Wait(same, wait)
                &&& same == options
                &&& wait.handles() == handles
                &&& wait.socket == socket
                &&& wait.behaviour == crate::poll::behaviour_of(options)
                &&& final(nic).tcp() == crate::smol::retained(old(nic).tcp(), handles.to_set())
            },
            Gate::Pass(options) => {
                &&& passage == Passage::<PollSockets<IncomingConnection>>::Pass(options)
                &&& final(nic).tcp() == old(nic).tcp()
            },
        },
        final(nic).same_but_sockets(*old(nic)),
        socket_map.wf(*final(nic)),
{
    let ghost id = socket.id as int;
    proof {
        crate::socket_map::lemma_owned_live(socket_map@, nic.tcp(), id);
    }
    if let Step::Waited(options, waited) = step {
        return match waited {
            Ok(()) => Passage::Pass(options),
            Err(error) => Passage::Fail(error),
        };
    }
    let entry = match socket_map.get(socket) {
        Ok(entry) => entry,
        Err(error) => {
            return Passage::Fail(error);
        },
    };
    let options = match step {
        Step::Begin => entry.options,
        Step::Retry(options) => options,
        Step::Waited(options, _) => options,
    };
    let tcp = match entry.async_socket.as_tcp_ref() {
        Ok(tcp) => tcp,
        Err(error) => {
            return Passage::Fail(error);
        },
    };
    let ghost handles = tcp@.held.handles();
    proof {
        assert(handles == crate::socket_map::held(socket_map@, id));
        assert forall|i: int| 0 <= i < handles.len() implies nic.tcp()[
            #[trigger] handles[i]
        ].refs < usize::MAX by {
            assert(handles.contains(handles[i]));
        }
    }
    let raw = match tcp.poll_incoming_connection(nic) {
        Ok(raw) => raw,
        Err(error) => {
            return Passage::Fail(error);
        },
    };
    let wait = raw.with(socket, Behaviour::from(options));
    proof {
        crate::socket_map::lemma_owned_kept(
            (socket_map@, old(nic).tcp()),
            (socket_map@, nic.tcp()),
        );
        assert(wait.handles() == handles);
        assert forall|i: int| 0 <= i < wait.raw.handles@.len() implies nic.tcp().dom().contains(
            #[trigger] wait.raw.handles@[i].0,
        ) by {
            assert(handles[i] == wait.raw.handles@[i].0);
        }
        assert(wait.statuses(*nic) =~= handles.map_values(
            |handle: SocketHandle| old(nic).tcp()[handle].status(),
        )) by {
            assert forall|i: int| 0 <= i < handles.len() implies wait.statuses(*nic)[i]
                == old(nic).tcp()[handles[i]].status() by {
                assert(handles[i] == wait.raw.handles@[i].0);
                assert(old(nic).tcp().dom().contains(handles[i]));
            }
        }
    }
    match wait.execute(nic) {
        Execution::Block(_) => Passage::Wait(options, wait),
        Execution::Done(result) => {
            proof {
                assert forall|i: int| 0 <= i < handles.len() implies {
                    &&& nic.tcp().dom().contains(#[trigger] handles[i])
                    &&& nic.tcp()[handles[i]].refs > 0
                } by {
                    assert(old(nic).tcp().dom().contains(handles[i]));
                }
            }
            wait.release(nic);
            assert(nic.tcp() =~= old(nic).tcp());
            match result {
                Ok(()) => Passage::Pass(options),
                Err(error) => Passage::Fail(error),
            }
        },
    }
}

/// Waiting for a connection goes on while each socket is open and none is connected.
proof fn lemma_open_is_pending(statuses: Seq<crate::nic::TcpStatus>)
    requires
        statuses.len() > 0,
        forall|i: int|
            0 <= i < statuses.len() ==> (#[trigger] statuses[i]).is_open && !(statuses[i].may_recv
                && statuses[i].may_send),
    ensures
        crate::poll::first_ready(IncomingConnection, statuses) == crate::poll::Poll::<
            IoResult<()>,
        >::Pending(crate::poll::WakeOn::Send),
    decreases statuses.len(),
{
    assert(statuses[0].is_open);
    if statuses.len() > 1 {
        let rest = statuses.skip(1);
        assert forall|i: int| 0 <= i < rest.len() implies (#[trigger] rest[i]).is_open && !(
        rest[i].may_recv && rest[i].may_send) by {
            assert(rest[i] == statuses[i + 1]);
        }
        lemma_open_is_pending(rest);
    }
}

/// Accepting on a socket that listens waits until a connection comes in, or tells that it would
/// have to: while no connection came in, none is refused.
pub proof fn law_listening_is_not_refused(
    map: Seq<Option<EntryView>>,
    tcp: Map<SocketHandle, TcpModel>,
    id: int,
)
    requires
        ({
            &&& crate::proxy::tcp_of(map, id) matches Ok(socket)
            &&& socket.held matches Held::Backlog(handles)
            &&& handles.len() > 0
            &&& forall|i: int|
                0 <= i < handles.len() ==> tcp[#[trigger] handles[i]].is_open()
                    && !tcp[handles[i]].is_connected()
        }),
    ensures
        ({
            let options = (crate::socket_map::lookup(map, id)->0).options;
            accept_gate(map, tcp, id, Step::Begin) == (if options.non_blocking {
                Gate::Fail(crate::poll::would_block())
            } else {
                Gate::Wait(options)
            })
        }),
{
    let handles = (crate::proxy::tcp_of(map, id)->Ok_0).held->Backlog_0;
    let statuses = handles.map_values(|handle: SocketHandle| tcp[handle].status());
    assert forall|i: int| 0 <= i < statuses.len() implies (#[trigger] statuses[i]).is_open && !(
    statuses[i].may_recv && statuses[i].may_send) by {
        assert(tcp[handles[i]].is_open());
    }
    lemma_open_is_pending(statuses);
}

/// A call on a socket that does not block never waits, and one on a socket that blocks waits before
/// anything else.
pub proof fn law_waiting_goes_by_the_options<F: TcpPoll>(
    poll_fn: F,
    map: Seq<Option<EntryView>>,
    tcp: Map<SocketHandle, TcpModel>,
    id: int,
)
    requires
        crate::proxy::tcp_of(map, id) matches Ok(socket) && socket.held is Handle,
    ensures
        gate(poll_fn, map, tcp, id, Step::Begin) is Wait <==> !((crate::socket_map::lookup(
            map,
            id,
        )->0).options.non_blocking),
{
}

/// Accepting on a socket that listens lets the call pass as soon as a connection came in on one of
/// the sockets that it holds, whatever was received over it, if all others are open. The wait for a
/// connection is then over, too.
pub proof fn law_connection_is_let_in(
    map: Seq<Option<EntryView>>,
    tcp: Map<SocketHandle, TcpModel>,
    id: int,
    step: Step,
    i: int,
)
    requires
        !(step is Waited),
        ({
            &&& crate::proxy::tcp_of(map, id) matches Ok(socket)
            &&& socket.held matches Held::Backlog(handles)
            &&& 0 <= i < handles.len()
            &&& tcp[handles[i]].may_recv() && tcp[handles[i]].may_send()
            &&& forall|j: int| 0 <= j < handles.len() ==> tcp[#[trigger] handles[j]].is_open()
        }),
    ensures
        ({
            let options = options_of(step, crate::socket_map::lookup(map, id)->0);
            let handles = (crate::proxy::tcp_of(map, id)->Ok_0).held->Backlog_0;
            let statuses = handles.map_values(|handle: SocketHandle| tcp[handle].status());
            &&& crate::poll::first_ready(IncomingConnection, statuses) == crate::poll::Poll::<
                IoResult<()>,
            >::Ready(Ok(()))
            &&& accept_gate(map, tcp, id, step) == (if options.non_blocking {
                Gate::Pass(options)
            } else {
                Gate::Wait(options)
            })
        }),
{
    let handles = (crate::proxy::tcp_of(map, id)->Ok_0).held->Backlog_0;
    let statuses = handles.map_values(|handle: SocketHandle| tcp[handle].status());
    assert forall|j: int| 0 <= j < statuses.len() implies (#[trigger] statuses[j]).is_open by {
        assert(tcp[handles[j]].is_open());
    }
    assert(statuses[i].may_recv && statuses[i].may_send);
    lemma_connected_is_ready(statuses, i);
}

/// Waiting for a connection is over once one socket is connected, while all are open.
proof fn lemma_connected_is_ready(statuses: Seq<crate::nic::TcpStatus>, i: int)
    requires
        0 <= i < statuses.len(),
        statuses[i].may_recv && statuses[i].may_send,
        forall|j: int| 0 <= j < statuses.len() ==> (#[trigger] statuses[j]).is_open,
    ensures
        crate::poll::first_ready(IncomingConnection, statuses) == crate::poll::Poll::<
            IoResult<()>,
        >::Ready(Ok(())),
    decreases statuses.len(),
{
    assert(statuses[0].is_open);
    if i > 0 {
        let rest = statuses.skip(1);
        assert(rest[i - 1] == statuses[i]);
        assert forall|j: int| 0 <= j < rest.len() implies (#[trigger] rest[j]).is_open by {
            assert(rest[j] == statuses[j + 1]);
        }
        lemma_connected_is_ready(rest, i - 1);
    }
}

/// The options that a call began with are those that it goes on by; a call that begins goes by
/// those of the socket.
pub proof fn law_call_keeps_its_options(entry: EntryView, options: Options, waited: IoResult<()>)
    ensures
        options_of(Step::Begin, entry) == entry.options,
        options_of(Step::Retry(options), entry) == options,
        options_of(Step::Waited(options, waited), entry) == options,
{
}

/// A call passes its wait, fails or waits by what came of the wait, or if it has not waited yet, by
/// the socket: one that is no single TCP socket fails it, one that blocks makes it wait, and else
/// the outcome of a single poll decides.
pub proof fn law_call_waits_for_its_socket<F: TcpPoll>(
    poll_fn: F,
    map: Seq<Option<EntryView>>,
    tcp: Map<SocketHandle, TcpModel>,
    id: int,
    step: Step,
)
    ensures
        match (step, crate::proxy::tcp_of(map, id)) {
            (Step::Waited(options, Ok(())), _) => gate(poll_fn, map, tcp, id, step) == Gate::Pass(
                options,
            ),
            (Step::Waited(_, Err(error)), _) => gate(poll_fn, map, tcp, id, step) == Gate::Fail(
                error,
            ),
            (_, Err(error)) => gate(poll_fn, map, tcp, id, step) == Gate::Fail(error),
            (_, Ok(socket)) => match socket.held {
                Held::Backlog(_) => gate(poll_fn, map, tcp, id, step) matches Gate::Fail(error)
                    && error.kind == crate::io::ErrorKind::InvalidInput,
                Held::Handle(handle) => {
                    let options = options_of(step, crate::socket_map::lookup(map, id)->0);
                    if !options.non_blocking {
                        gate(poll_fn, map, tcp, id, step) == Gate::Wait(options)
                    } else {
                        match poll_fn.outcome(tcp[handle].status()) {
                            crate::poll::Poll::Ready(Ok(())) => gate(poll_fn, map, tcp, id, step)
                                == Gate::Pass(options),
                            crate::poll::Poll::Ready(Err(error)) => gate(
                                poll_fn,
                                map,
                                tcp,
                                id,
                                step,
                            ) == Gate::Fail(error),
                            crate::poll::Poll::Pending(_) => gate(
                                poll_fn,
                                map,
                                tcp,
                                id,
                                step,
                            ) matches Gate::Fail(error) && error.kind
                                == crate::io::ErrorKind::WouldBlock,
                        }
                    }
                },
            },
        },
{
}

/// A call that accepts passes its wait, or fails, by what came of the wait; without a wait it fails
/// on a socket that does not listen.
pub proof fn law_accepting_waits_for_its_socket(
    map: Seq<Option<EntryView>>,
    tcp: Map<SocketHandle, TcpModel>,
    id: int,
    step: Step,
)
    ensures
        match (step, crate::proxy::tcp_of(map, id)) {
            (Step::Waited(options, Ok(())), _) => accept_gate(map, tcp, id, step) == Gate::Pass(
                options,
            ),
            (Step::Waited(_, Err(error)), _) => accept_gate(map, tcp, id, step) == Gate::Fail(
                error,
            ),
            (_, Err(error)) => accept_gate(map, tcp, id, step) == Gate::Fail(error),
            (_, Ok(socket)) => match socket.held {
                Held::Handle(_) => accept_gate(map, tcp, id, step) matches Gate::Fail(error)
                    && error.kind == crate::io::ErrorKind::NotListening,
                Held::Backlog(_) => {
                    let options = options_of(step, crate::socket_map::lookup(map, id)->0);
                    &&& !options.non_blocking ==> accept_gate(map, tcp, id, step) == Gate::Wait(
                        options,
                    )
                    &&& options.non_blocking ==> !(accept_gate(map, tcp, id, step) is Wait)
                },
            },
        },
{
}

/// What was to be had ends the call, and so does an error; if there was nothing, the call is tried
/// again by the same options.
pub proof fn law_result_ends_the_call<T, W>(value: T, error: Error, options: Options)
    ensures
        finished::<T, W>(Ok(Some(value)), options) == Turn::<T, W>::Done(Ok(value)),
        finished::<T, W>(Err(error), options) == Turn::<T, W>::Done(Err(error)),
        finished::<T, W>(Ok(None), options) == Turn::<T, W>::Retry(options),
{
}

/// A call waits for the socket of the interface that its socket holds, as the options say.
pub proof fn law_call_waits_on_what_is_held<F: TcpPoll>(
    poll_fn: F,
    map: Seq<Option<EntryView>>,
    socket: Socket,
    options: Options,
    handle: SocketHandle,
)
    requires
        crate::proxy::tcp_of(map, socket.id as int) matches Ok(tcp) && tcp.held == Held::Handle(
            handle,
        ),
    ensures
        ({
            let wait = wait_on(poll_fn, map, socket, options);
            &&& wait.raw.handle.0 == handle
            &&& wait.raw.poll_fn == poll_fn
            &&& wait.socket == socket
            &&& match wait.behaviour {
                Behaviour::NonBlocking => options.non_blocking,
                Behaviour::Blocking(timeout) => !options.non_blocking && timeout
                    == options.timeout,
            }
        }),
{
}

/// A connection that came in is taken: the call that accepts passes, and finds one of the sockets
/// that are connected, the one that comes last.
pub proof fn law_connection_that_came_in_is_found(
    map: Seq<Option<EntryView>>,
    tcp: Map<SocketHandle, TcpModel>,
    id: int,
    step: Step,
    i: int,
)
    requires
        !(step is Waited),
        ({
            &&& crate::proxy::tcp_of(map, id) matches Ok(socket)
            &&& socket.held matches Held::Backlog(handles)
            &&& 0 <= i < handles.len()
            &&& tcp[handles[i]].may_recv() && tcp[handles[i]].may_send()
            &&& forall|j: int| 0 <= j < handles.len() ==> tcp[#[trigger] handles[j]].is_open()
        }),
    ensures
        ({
            let handles = (crate::proxy::tcp_of(map, id)->Ok_0).held->Backlog_0;
            &&& !(accept_gate(map, tcp, id, step) is Fail)
            &&& crate::tcp::last_connected(tcp, handles) matches Some(last)
            &&& i <= last < handles.len()
            &&& tcp[handles[last]].may_recv() && tcp[handles[last]].may_send()
        }),
{
    let handles = (crate::proxy::tcp_of(map, id)->Ok_0).held->Backlog_0;
    law_connection_is_let_in(map, tcp, id, step, i);
    crate::tcp::lemma_last_connected(tcp, handles);
    assert(tcp[handles[i]].is_connected());
}

} // verus!
