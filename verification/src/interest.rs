//! What event sockets are interested in, and who is registered with whom for it.
//!
//! Event sockets may report the events of other event sockets. Their interests lead from socket to
//! socket, and whoever waits for an event is registered all along the way.
use vstd::prelude::*;

use smoltcp::socket::SocketHandle;
use std::task::Waker;

use crate::event::Event;
use crate::net::Socket;
use crate::nic::NetworkInterface;
use crate::poll::WakeOn;
use crate::smol::TcpModel;
use crate::socket::{AsyncSocket, SocketView};
use crate::socket_map::{EntryView, SocketMap};
use crate::waker_socket::AsyncWakerSocket;

verus! {

broadcast use vstd::map::group_map_axioms;

/// The interests of a socket, if it is an event socket.
pub open spec fn interests(map: Seq<Option<EntryView>>, id: int) -> Seq<Event> {
    match crate::socket_map::lookup(map, id) {
        Some(entry) => match entry.socket {
            SocketView::Event(events) => events,
            _ => seq![],
        },
        None => seq![],
    }
}

/// The socket that an interest is in.
pub open spec fn target(map: Seq<Option<EntryView>>, id: int, i: int) -> int {
    interests(map, id)[i].socket.id as int
}

/// Interests in reading lead from one socket to another in as many steps at most.
pub open spec fn reads_within(map: Seq<Option<EntryView>>, from: int, to: int, steps: nat) -> bool
    decreases steps,
{
    ||| from == to
    ||| steps > 0 && exists|i: int|
        0 <= i < interests(map, from).len() && interests(map, from)[i].flags.reads()
            && reads_within(map, #[trigger] target(map, from, i), to, (steps - 1) as nat)
}

/// Interests in reading lead from one socket to another.
pub open spec fn reads_through(map: Seq<Option<EntryView>>, from: int, to: int) -> bool {
    exists|steps: nat| reads_within(map, from, to, steps)
}

/// Interests in reading lead from one socket to another one that is interested in writing to the
/// last.
pub open spec fn writes_through(map: Seq<Option<EntryView>>, from: int, to: int) -> bool {
    exists|mid: int, i: int|
        #![trigger reads_through(map, from, mid), target(map, mid, i)]
        {
            &&& reads_through(map, from, mid)
            &&& 0 <= i < interests(map, mid).len()
            &&& interests(map, mid)[i].flags.writes()
            &&& target(map, mid, i) == to
        }
}

/// Every way along interests in reading ends before as many steps.
pub open spec fn reading_ends(map: Seq<Option<EntryView>>, id: int, steps: nat) -> bool
    decreases steps,
{
    &&& steps > 0
    &&& forall|i: int|
        0 <= i < interests(map, id).len() && interests(map, id)[i].flags.reads() ==> reading_ends(
            map,
            #[trigger] target(map, id, i),
            (steps - 1) as nat,
        )
}

/// Whether an entry went from `then` to `now` by the registration of a waker for writing, for
/// reading or for both.
pub open spec fn entry_waits(
    then: Option<EntryView>,
    now: Option<EntryView>,
    waker: Waker,
    send: bool,
    recv: bool,
) -> bool {
    match (then, now) {
        (None, None) => true,
        (Some(then), Some(now)) => {
            &&& now == EntryView { socket: now.socket, ..then }
            &&& match (then.socket, now.socket) {
                (SocketView::Waker(then), SocketView::Waker(now)) => {
                    &&& now == AsyncWakerSocket {
                        send_waker: now.send_waker,
                        recv_waker: now.recv_waker,
                        ..then
                    }
                    &&& if send {
                        now.send_waker is Some && cloned(waker, now.send_waker->0)
                    } else {
                        now.send_waker == then.send_waker
                    }
                    &&& if recv {
                        now.recv_waker is Some && cloned(waker, now.recv_waker->0)
                    } else {
                        now.recv_waker == then.recv_waker
                    }
                },
                (SocketView::Waker(_), _) => false,
                _ => now.socket == then.socket,
            }
        },
        _ => false,
    }
}

/// Whether sockets went from `before` to `after` by the registration of a waker on some of them.
pub open spec fn map_waits(
    before: Seq<Option<EntryView>>,
    after: Seq<Option<EntryView>>,
    waker: Waker,
    sends: Set<int>,
    recvs: Set<int>,
) -> bool {
    &&& after.len() == before.len()
    &&& forall|id: int|
        0 <= id < before.len() ==> entry_waits(
            before[id],
            #[trigger] after[id],
            waker,
            sends.contains(id),
            recvs.contains(id),
        )
}

/// The sockets of the interface that some sockets hold.
pub open spec fn handles_of(map: Seq<Option<EntryView>>, ids: Set<int>) -> Set<SocketHandle> {
    Set::new(
        |handle: SocketHandle|
            exists|id: int|
                ids.contains(id) && #[trigger] crate::socket_map::held(map, id).contains(handle),
    )
}

/// Whether sockets, and those of the interface that they hold, went from one state to another by
/// the registration of a waker on some of them.
pub open spec fn waits(
    before: (Seq<Option<EntryView>>, Map<SocketHandle, TcpModel>),
    after: (Seq<Option<EntryView>>, Map<SocketHandle, TcpModel>),
    waker: Waker,
    sends: Set<int>,
    recvs: Set<int>,
) -> bool {
    &&& map_waits(before.0, after.0, waker, sends, recvs)
    &&& crate::smol::wakers_registered(
        before.1,
        after.1,
        waker,
        handles_of(before.0, sends),
        handles_of(before.0, recvs),
    )
}

/// The sockets that are registered on for writing when a socket waits for reading.
pub open spec fn sends_of(map: Seq<Option<EntryView>>, id: int) -> Set<int> {
    Set::new(|to: int| writes_through(map, id, to))
}

/// The sockets that are registered on for reading when a socket waits for reading.
pub open spec fn recvs_of(map: Seq<Option<EntryView>>, id: int) -> Set<int> {
    Set::new(|to: int| reads_through(map, id, to))
}

/// Interests in reading lead to the socket itself, and to wherever they lead from the sockets of
/// interest.
proof fn lemma_reads_step(map: Seq<Option<EntryView>>, from: int, to: int)
    ensures
        reads_through(map, from, to) <==> from == to || exists|i: int|
            0 <= i < interests(map, from).len() && interests(map, from)[i].flags.reads()
                && reads_through(map, #[trigger] target(map, from, i), to),
{
    if reads_through(map, from, to) {
        let steps = choose|steps: nat| reads_within(map, from, to, steps);
        if from != to {
            let i = choose|i: int|
                0 <= i < interests(map, from).len() && interests(map, from)[i].flags.reads()
                    && reads_within(map, #[trigger] target(map, from, i), to, (steps - 1) as nat);
            assert(reads_through(map, target(map, from, i), to));
        }
    }
    if from == to {
        assert(reads_within(map, from, to, 0));
    }
    if exists|i: int|
        0 <= i < interests(map, from).len() && interests(map, from)[i].flags.reads()
            && reads_through(map, #[trigger] target(map, from, i), to) {
        let i = choose|i: int|
            0 <= i < interests(map, from).len() && interests(map, from)[i].flags.reads()
                && reads_through(map, #[trigger] target(map, from, i), to);
        let steps = choose|steps: nat| reads_within(map, target(map, from, i), to, steps);
        assert(reads_within(map, from, to, steps + 1));
    }
}

/// A picked interest is in the socket.
spec fn picked(events: Seq<Event>, pick: spec_fn(Event) -> bool, socket: Socket) -> bool {
    exists|i: int|
        0 <= i < events.len() && pick(events[i]) && (#[trigger] events[i]).socket == socket
}

/// The sockets are those that picked interests are in.
spec fn lists(sockets: Seq<Socket>, events: Seq<Event>, pick: spec_fn(Event) -> bool) -> bool {
    &&& forall|k: int| 0 <= k < sockets.len() ==> picked(events, pick, #[trigger] sockets[k])
    &&& forall|i: int|
        0 <= i < events.len() && pick(#[trigger] events[i]) ==> exists|k: int|
            0 <= k < sockets.len() && #[trigger] sockets[k] == events[i].socket
}

/// The sockets of the interests that are picked are listed.
proof fn lemma_listed(events: Seq<Event>, pick: spec_fn(Event) -> bool, sockets: Seq<Socket>)
    requires
        sockets == events.filter(pick).map_values(|event: Event| event.socket),
    ensures
        lists(sockets, events, pick),
    decreases events.len(),
{
    reveal(Seq::filter);
    if events.len() > 0 {
        let rest = events.drop_last();
        let fewer = rest.filter(pick).map_values(|event: Event| event.socket);
        lemma_listed(rest, pick, fewer);
        assert forall|k: int| 0 <= k < sockets.len() implies picked(
            events,
            pick,
            #[trigger] sockets[k],
        ) by {
            if k < fewer.len() {
                assert(sockets[k] == fewer[k]);
                assert(picked(rest, pick, fewer[k]));
                let i = choose|i: int|
                    0 <= i < rest.len() && pick(rest[i]) && (#[trigger] rest[i]).socket == fewer[k];
                assert(events[i] == rest[i]);
            } else {
                assert(events[events.len() - 1].socket == sockets[k]);
            }
        }
        assert forall|i: int| 0 <= i < events.len() && pick(#[trigger] events[i]) implies exists|
            k: int,
        | 0 <= k < sockets.len() && #[trigger] sockets[k] == events[i].socket by {
            if i < rest.len() {
                assert(rest[i] == events[i]);
                let k = choose|k: int|
                    0 <= k < fewer.len() && #[trigger] fewer[k] == rest[i].socket;
                assert(sockets[k] == fewer[k]);
            } else {
                assert(sockets[fewer.len() as int] == events[i].socket);
            }
        }
    }
}

/// The sockets that are registered on for writing are those of own interest, and those for which
/// the sockets of interest are registered.
proof fn lemma_writes_step(map: Seq<Option<EntryView>>, from: int, to: int)
    ensures
        writes_through(map, from, to) <==> exists|i: int|
            0 <= i < interests(map, from).len() && {
                ||| interests(map, from)[i].flags.writes() && #[trigger] target(map, from, i) == to
                ||| interests(map, from)[i].flags.reads() && writes_through(
                    map,
                    target(map, from, i),
                    to,
                )
            },
{
    if writes_through(map, from, to) {
        let (mid, k) = choose|mid: int, k: int|
            #![trigger reads_through(map, from, mid), target(map, mid, k)]
            {
                &&& reads_through(map, from, mid)
                &&& 0 <= k < interests(map, mid).len()
                &&& interests(map, mid)[k].flags.writes()
                &&& target(map, mid, k) == to
            };
        lemma_reads_step(map, from, mid);
        if from != mid {
            let i = choose|i: int|
                0 <= i < interests(map, from).len() && interests(map, from)[i].flags.reads()
                    && reads_through(map, #[trigger] target(map, from, i), mid);
            assert(writes_through(map, target(map, from, i), to));
        }
    }
    assert forall|i: int|
        0 <= i < interests(map, from).len() && {
            ||| interests(map, from)[i].flags.writes() && #[trigger] target(map, from, i) == to
            ||| interests(map, from)[i].flags.reads() && writes_through(
                map,
                target(map, from, i),
                to,
            )
        } implies writes_through(map, from, to) by {
        if interests(map, from)[i].flags.writes() && target(map, from, i) == to {
            lemma_reads_step(map, from, from);
        } else {
            let next = target(map, from, i);
            let (mid, k) = choose|mid: int, k: int|
                #![trigger reads_through(map, next, mid), target(map, mid, k)]
                {
                    &&& reads_through(map, next, mid)
                    &&& 0 <= k < interests(map, mid).len()
                    &&& interests(map, mid)[k].flags.writes()
                    &&& target(map, mid, k) == to
                };
            lemma_reads_step(map, from, mid);
            assert(reads_through(map, from, mid));
        }
    }
}

/// Registering a waker changes neither the interests nor what sockets hold.
proof fn lemma_waiting_keeps(
    before: Seq<Option<EntryView>>,
    after: Seq<Option<EntryView>>,
    waker: Waker,
    sends: Set<int>,
    recvs: Set<int>,
)
    requires
        map_waits(before, after, waker, sends, recvs),
    ensures
        forall|id: int| #[trigger] interests(after, id) == interests(before, id),
        forall|id: int| #[trigger]
            crate::socket_map::held(after, id) == crate::socket_map::held(before, id),
        forall|ids: Set<int>| #[trigger] handles_of(after, ids) == handles_of(before, ids),
{
    assert forall|id: int| #[trigger] interests(after, id) == interests(before, id) by {
        if 0 <= id < before.len() {
            assert(entry_waits(
                before[id],
                after[id],
                waker,
                sends.contains(id),
                recvs.contains(id),
            ));
        }
    }
    assert forall|id: int| #[trigger]
        crate::socket_map::held(after, id) == crate::socket_map::held(before, id) by {
        if 0 <= id < before.len() {
            assert(entry_waits(
                before[id],
                after[id],
                waker,
                sends.contains(id),
                recvs.contains(id),
            ));
        }
    }
    assert forall|ids: Set<int>| #[trigger]
        handles_of(after, ids) == handles_of(before, ids) by {
        assert forall|handle: SocketHandle|
            handles_of(after, ids).contains(handle) == handles_of(before, ids).contains(handle) by {
            if handles_of(after, ids).contains(handle) {
                let id = choose|id: int|
                    ids.contains(id) && #[trigger] crate::socket_map::held(after, id).contains(
                        handle,
                    );
                assert(crate::socket_map::held(before, id).contains(handle));
            }
            if handles_of(before, ids).contains(handle) {
                let id = choose|id: int|
                    ids.contains(id) && #[trigger] crate::socket_map::held(before, id).contains(
                        handle,
                    );
                assert(crate::socket_map::held(after, id).contains(handle));
            }
        }
        assert(handles_of(after, ids) =~= handles_of(before, ids));
    }
}

/// Where interests are the same, they lead the same ways.
proof fn lemma_same_reads(
    before: Seq<Option<EntryView>>,
    after: Seq<Option<EntryView>>,
    from: int,
    to: int,
    steps: nat,
)
    requires
        forall|id: int| #[trigger] interests(after, id) == interests(before, id),
    ensures
        reads_within(after, from, to, steps) == reads_within(before, from, to, steps),
    decreases steps,
{
    if steps > 0 {
        assert forall|i: int| target(after, from, i) == target(before, from, i) by {
            assert(interests(after, from) == interests(before, from));
        }
        assert forall|i: int|
            reads_within(after, #[trigger] target(after, from, i), to, (steps - 1) as nat)
                == reads_within(before, target(before, from, i), to, (steps - 1) as nat) by {
            lemma_same_reads(before, after, target(before, from, i), to, (steps - 1) as nat);
        }
        if from != to && reads_within(before, from, to, steps) {
            let i = choose|i: int|
                0 <= i < interests(before, from).len() && interests(before, from)[i].flags.reads()
                    && reads_within(
                    before,
                    #[trigger] target(before, from, i),
                    to,
                    (steps - 1) as nat,
                );
            assert(reads_within(after, target(after, from, i), to, (steps - 1) as nat));
        }
        if from != to && reads_within(after, from, to, steps) {
            let i = choose|i: int|
                0 <= i < interests(after, from).len() && interests(after, from)[i].flags.reads()
                    && reads_within(
                    after,
                    #[trigger] target(after, from, i),
                    to,
                    (steps - 1) as nat,
                );
            assert(reads_within(before, target(before, from, i), to, (steps - 1) as nat));
        }
    }
}

/// Where interests are the same, a wait for reading registers on the same sockets.
pub proof fn lemma_same_ways(before: Seq<Option<EntryView>>, after: Seq<Option<EntryView>>, from: int)
    requires
        forall|id: int| #[trigger] interests(after, id) == interests(before, id),
    ensures
        recvs_of(after, from) == recvs_of(before, from),
        sends_of(after, from) == sends_of(before, from),
{
    assert forall|to: int| #[trigger]
        reads_through(after, from, to) == reads_through(before, from, to) by {
        if reads_through(before, from, to) {
            let steps = choose|steps: nat| reads_within(before, from, to, steps);
            lemma_same_reads(before, after, from, to, steps);
        }
        if reads_through(after, from, to) {
            let steps = choose|steps: nat| reads_within(after, from, to, steps);
            lemma_same_reads(before, after, from, to, steps);
        }
    }
    assert(recvs_of(after, from) =~= recvs_of(before, from));
    assert forall|to: int| #[trigger]
        writes_through(after, from, to) == writes_through(before, from, to) by {
        if writes_through(before, from, to) {
            let (mid, k) = choose|mid: int, k: int|
                #![trigger reads_through(before, from, mid), target(before, mid, k)]
                {
                    &&& reads_through(before, from, mid)
                    &&& 0 <= k < interests(before, mid).len()
                    &&& interests(before, mid)[k].flags.writes()
                    &&& target(before, mid, k) == to
                };
            assert(interests(after, mid) == interests(before, mid));
            assert(reads_through(after, from, mid) && target(after, mid, k) == to);
        }
        if writes_through(after, from, to) {
            let (mid, k) = choose|mid: int, k: int|
                #![trigger reads_through(after, from, mid), target(after, mid, k)]
                {
                    &&& reads_through(after, from, mid)
                    &&& 0 <= k < interests(after, mid).len()
                    &&& interests(after, mid)[k].flags.writes()
                    &&& target(after, mid, k) == to
                };
            assert(interests(after, mid) == interests(before, mid));
            assert(reads_through(before, from, mid) && target(before, mid, k) == to);
        }
    }
    assert(sends_of(after, from) =~= sends_of(before, from));
}

/// Where interests are the same, their ways end alike.
pub proof fn lemma_same_ends(
    before: Seq<Option<EntryView>>,
    after: Seq<Option<EntryView>>,
    id: int,
    steps: nat,
)
    requires
        forall|id: int| #[trigger] interests(after, id) == interests(before, id),
        reading_ends(before, id, steps),
    ensures
        reading_ends(after, id, steps),
    decreases steps,
{
    assert forall|i: int|
        0 <= i < interests(after, id).len() && interests(after, id)[i].flags.reads() implies
        reading_ends(after, #[trigger] target(after, id, i), (steps - 1) as nat) by {
        assert(interests(after, id) == interests(before, id));
        assert(reading_ends(before, target(before, id, i), (steps - 1) as nat));
        lemma_same_ends(before, after, target(before, id, i), (steps - 1) as nat);
    }
}

/// Two registrations of a waker, one after the other, are a registration on the sockets of both.
proof fn lemma_waits_join(
    before: (Seq<Option<EntryView>>, Map<SocketHandle, TcpModel>),
    mid: (Seq<Option<EntryView>>, Map<SocketHandle, TcpModel>),
    after: (Seq<Option<EntryView>>, Map<SocketHandle, TcpModel>),
    waker: Waker,
    sends: (Set<int>, Set<int>),
    recvs: (Set<int>, Set<int>),
)
    requires
        waits(before, mid, waker, sends.0, recvs.0),
        waits(mid, after, waker, sends.1, recvs.1),
    ensures
        waits(before, after, waker, sends.0.union(sends.1), recvs.0.union(recvs.1)),
{
    let all_sends = sends.0.union(sends.1);
    let all_recvs = recvs.0.union(recvs.1);
    assert forall|id: int| 0 <= id < before.0.len() implies entry_waits(
        before.0[id],
        #[trigger] after.0[id],
        waker,
        all_sends.contains(id),
        all_recvs.contains(id),
    ) by {
        assert(entry_waits(
            before.0[id],
            mid.0[id],
            waker,
            sends.0.contains(id),
            recvs.0.contains(id),
        ));
    }
    lemma_waiting_keeps(before.0, mid.0, waker, sends.0, recvs.0);
    lemma_handles_join(before.0, sends.0, sends.1);
    lemma_handles_join(before.0, recvs.0, recvs.1);
    assert forall|handle: SocketHandle| before.1.dom().contains(handle) implies {
        let (then, now) = (before.1[handle], #[trigger] after.1[handle]);
        &&& now == TcpModel { tx_waker: now.tx_waker, rx_waker: now.rx_waker, ..then }
        &&& if handles_of(before.0, all_sends).contains(handle) {
            crate::smol::registered(then.tx_waker, now.tx_waker, waker)
        } else {
            now.tx_waker == then.tx_waker
        }
        &&& if handles_of(before.0, all_recvs).contains(handle) {
            crate::smol::registered(then.rx_waker, now.rx_waker, waker)
        } else {
            now.rx_waker == then.rx_waker
        }
    } by {
        let between = mid.1[handle];
        assert(handles_of(mid.0, sends.1) == handles_of(before.0, sends.1));
        assert(handles_of(mid.0, recvs.1) == handles_of(before.0, recvs.1));
    }
}

/// What sockets of two sets hold is what those of one hold and what those of the other hold.
proof fn lemma_handles_join(map: Seq<Option<EntryView>>, some: Set<int>, others: Set<int>)
    ensures
        handles_of(map, some.union(others)) == handles_of(map, some).union(
            handles_of(map, others),
        ),
{
    assert forall|handle: SocketHandle| #[trigger]
        handles_of(map, some.union(others)).contains(handle) == handles_of(map, some).union(
            handles_of(map, others),
        ).contains(handle) by {
        if handles_of(map, some).contains(handle) {
            let id = choose|id: int|
                some.contains(id) && #[trigger] crate::socket_map::held(map, id).contains(handle);
            assert(some.union(others).contains(id));
        }
        if handles_of(map, others).contains(handle) {
            let id = choose|id: int|
                others.contains(id) && #[trigger] crate::socket_map::held(map, id).contains(
                    handle,
                );
            assert(some.union(others).contains(id));
        }
    }
    assert(handles_of(map, some.union(others)) =~= handles_of(map, some).union(
        handles_of(map, others),
    ));
}

/// What a single socket holds.
proof fn lemma_handles_of_one(map: Seq<Option<EntryView>>, id: int)
    ensures
        handles_of(map, set![id]) == crate::socket_map::held(map, id).to_set(),
        handles_of(map, Set::empty()) == Set::<SocketHandle>::empty(),
{
    assert forall|handle: SocketHandle|
        handles_of(map, set![id]).contains(handle) == crate::socket_map::held(
            map,
            id,
        ).to_set().contains(handle) by {
        if crate::socket_map::held(map, id).to_set().contains(handle) {
            assert(set![id].contains(id));
            assert(crate::socket_map::held(map, id).contains(handle));
        }
    }
    assert(handles_of(map, set![id]) =~= crate::socket_map::held(map, id).to_set());
    assert(handles_of(map, Set::empty()) =~= Set::<SocketHandle>::empty());
}

/// Registering a waker takes nothing away from any socket.
proof fn lemma_waits_owned(
    before: (Seq<Option<EntryView>>, Map<SocketHandle, TcpModel>),
    after: (Seq<Option<EntryView>>, Map<SocketHandle, TcpModel>),
    waker: Waker,
    sends: Set<int>,
    recvs: Set<int>,
)
    requires
        crate::socket_map::owned(before.0, before.1),
        waits(before, after, waker, sends, recvs),
    ensures
        crate::socket_map::owned(after.0, after.1),
{
    lemma_waiting_keeps(before.0, after.0, waker, sends, recvs);
    assert forall|handle: SocketHandle| #[trigger]
        before.1.dom().contains(handle) && before.1[handle].refs > 0 implies after.1.dom().contains(
        handle,
    ) && after.1[handle].refs > 0 by {
        let now = after.1[handle];
    }
    crate::socket_map::lemma_owned_kept(before, after);
}

impl SocketMap {
    /// Registers a waker for writing on a socket.
    fn register_on_send(&mut self, socket: Socket, waker: &Waker, nic: &mut NetworkInterface)
        requires
            old(self).wf(*old(nic)),
        ensures
            waits(
                (old(self)@, old(nic).tcp()),
                (final(self)@, final(nic).tcp()),
                *waker,
                set![socket.id as int],
                Set::empty(),
            ),
            final(self).wf(*final(nic)),
            final(nic).same_but_sockets(*old(nic)),
    {
        let ghost id = socket.id as int;
        proof {
            crate::socket_map::lemma_owned_live(self@, nic.tcp(), id);
            lemma_handles_of_one(self@, id);
        }
        if let Ok(entry) = self.get_mut(socket) {
            match &mut entry.async_socket {
                AsyncSocket::Tcp(tcp) => tcp.register_send_waker(waker, nic),
                AsyncSocket::Waker(waker_socket) => {
                    waker_socket.register_exclusive_send_waker(waker)
                },
                _ => {},
            }
        }
        proof {
            lemma_waits_owned(
                (old(self)@, old(nic).tcp()),
                (self@, nic.tcp()),
                *waker,
                set![id],
                Set::empty(),
            );
        }
    }

    /// Registers a waker for reading on a socket, but not on those it is interested in.
    fn register_on_recv(&mut self, socket: Socket, waker: &Waker, nic: &mut NetworkInterface)
        requires
            old(self).wf(*old(nic)),
        ensures
            waits(
                (old(self)@, old(nic).tcp()),
                (final(self)@, final(nic).tcp()),
                *waker,
                Set::empty(),
                set![socket.id as int],
            ),
            final(self).wf(*final(nic)),
            final(nic).same_but_sockets(*old(nic)),
    {
        let ghost id = socket.id as int;
        proof {
            crate::socket_map::lemma_owned_live(self@, nic.tcp(), id);
            lemma_handles_of_one(self@, id);
        }
        if let Ok(entry) = self.get_mut(socket) {
            match &mut entry.async_socket {
                AsyncSocket::Tcp(tcp) => tcp.register_recv_waker(waker, nic),
                AsyncSocket::Waker(waker_socket) => {
                    waker_socket.register_exclusive_recv_waker(waker)
                },
                _ => {},
            }
        }
        proof {
            lemma_waits_owned(
                (old(self)@, old(nic).tcp()),
                (self@, nic.tcp()),
                *waker,
                Set::empty(),
                set![id],
            );
        }
    }

    /// The interests of a socket, if it is an event socket.
    pub(crate) fn interests_of(&self, socket: Socket) -> (events: Vec<Event>)
        ensures
            events@ == interests(self@, socket.id as int),
    {
        if let Ok(entry) = self.get(socket) {
            if let AsyncSocket::Event(event) = &entry.async_socket {
                return event.poll_events().events;
            }
        }
        Vec::new()
    }

    /// The sockets that a socket is interested in writing to, and those that it is interested in
    /// reading from, if it is an event socket.
    fn interests_by_side(&self, socket: Socket) -> (sides: (Vec<Socket>, Vec<Socket>))
        ensures
            lists(
                sides.0@,
                interests(self@, socket.id as int),
                |event: Event| event.flags.writes(),
            ),
            lists(
                sides.1@,
                interests(self@, socket.id as int),
                |event: Event| event.flags.reads(),
            ),
    {
        if let Ok(entry) = self.get(socket) {
            if let AsyncSocket::Event(event) = &entry.async_socket {
                let sides = event.register_recv_waker();
                proof {
                    lemma_listed(event@, |event: Event| event.flags.writes(), sides.0@);
                    lemma_listed(event@, |event: Event| event.flags.reads(), sides.1@);
                }
                return sides;
            }
        }
        (Vec::new(), Vec::new())
    }

    /// Registers a waker for reading on a socket and on all that its interests lead to.
    fn register_for_reading(
        &mut self,
        socket: Socket,
        waker: &Waker,
        nic: &mut NetworkInterface,
        Ghost(steps): Ghost<nat>,
    )
        requires
            old(self).wf(*old(nic)),
            reading_ends(old(self)@, socket.id as int, steps),
        ensures
            waits(
                (old(self)@, old(nic).tcp()),
                (final(self)@, final(nic).tcp()),
                *waker,
                sends_of(old(self)@, socket.id as int),
                recvs_of(old(self)@, socket.id as int),
            ),
            final(self).wf(*final(nic)),
            final(nic).same_but_sockets(*old(nic)),
        decreases steps,
    {
        let ghost id = socket.id as int;
        let ghost before = (self@, nic.tcp());
        let ghost events = interests(self@, id);
        let (send, recv) = self.interests_by_side(socket);
        self.register_on_recv(socket, waker, nic);
        let ghost mut sends: Set<int> = Set::empty();
        let ghost mut recvs: Set<int> = set![id];
        let mut i: usize = 0;
        while i < send.len()
            invariant
                i <= send@.len(),
                recvs == set![id],
                self.wf(*nic),
                nic.same_but_sockets(*old(nic)),
                waits(before, (self@, nic.tcp()), *waker, sends, recvs),
                forall|to: int| #[trigger]
                    sends.contains(to) <==> exists|k: int|
                        0 <= k < i && (#[trigger] send@[k]).id as int == to,
            decreases send@.len() - i,
        {
            let ghost mid = (self@, nic.tcp());
            let ghost to = send@[i as int].id as int;
            self.register_on_send(send[i], waker, nic);
            proof {
                lemma_waits_join(
                    before,
                    mid,
                    (self@, nic.tcp()),
                    *waker,
                    (sends, set![to]),
                    (recvs, Set::empty()),
                );
                sends = sends.union(set![to]);
                assert(recvs.union(Set::empty()) =~= recvs);
            }
            i += 1;
        }
        let ghost own = sends;
        proof {
            assert forall|k: int| 0 <= k < recv@.len() implies reading_ends(
                before.0,
                (#[trigger] recv@[k]).id as int,
                (steps - 1) as nat,
            ) by {
                let j = choose|j: int|
                    0 <= j < events.len() && events[j].flags.reads() && (
                    #[trigger] events[j]).socket == recv@[k];
                assert(target(before.0, id, j) == recv@[k].id as int);
            }
        }
        let mut i: usize = 0;
        while i < recv.len()
            invariant
                i <= recv@.len(),
                steps > 0,
                forall|k: int|
                    0 <= k < recv@.len() ==> reading_ends(
                        before.0,
                        (#[trigger] recv@[k]).id as int,
                        (steps - 1) as nat,
                    ),
                self.wf(*nic),
                nic.same_but_sockets(*old(nic)),
                waits(before, (self@, nic.tcp()), *waker, sends, recvs),
                forall|to: int| #[trigger]
                    recvs.contains(to) <==> to == id || exists|k: int|
                        0 <= k < i && reads_through(before.0, (#[trigger] recv@[k]).id as int, to),
                forall|to: int| #[trigger]
                    sends.contains(to) <==> own.contains(to) || exists|k: int|
                        0 <= k < i && writes_through(before.0, (#[trigger] recv@[k]).id as int, to),
            decreases recv@.len() - i,
        {
            let ghost mid = (self@, nic.tcp());
            let ghost to = recv@[i as int].id as int;
            proof {
                lemma_waiting_keeps(before.0, mid.0, *waker, sends, recvs);
                lemma_same_ends(before.0, mid.0, to, (steps - 1) as nat);
                lemma_same_ways(before.0, mid.0, to);
            }
            self.register_for_reading(recv[i], waker, nic, Ghost((steps - 1) as nat));
            proof {
                lemma_waits_join(
                    before,
                    mid,
                    (self@, nic.tcp()),
                    *waker,
                    (sends, sends_of(before.0, to)),
                    (recvs, recvs_of(before.0, to)),
                );
                sends = sends.union(sends_of(before.0, to));
                recvs = recvs.union(recvs_of(before.0, to));
            }
            i += 1;
        }
        proof {
            assert forall|to: int| #[trigger]
                recvs.contains(to) == recvs_of(before.0, id).contains(to) by {
                lemma_reads_step(before.0, id, to);
                if recvs.contains(to) && to != id {
                    let k = choose|k: int|
                        0 <= k < recv@.len() && reads_through(
                            before.0,
                            (#[trigger] recv@[k]).id as int,
                            to,
                        );
                    let j = choose|j: int|
                        0 <= j < events.len() && events[j].flags.reads() && (
                        #[trigger] events[j]).socket == recv@[k];
                    assert(target(before.0, id, j) == recv@[k].id as int);
                }
                if recvs_of(before.0, id).contains(to) && to != id {
                    let j = choose|j: int|
                        0 <= j < events.len() && events[j].flags.reads() && reads_through(
                            before.0,
                            #[trigger] target(before.0, id, j),
                            to,
                        );
                    let k = choose|k: int|
                        0 <= k < recv@.len() && #[trigger] recv@[k] == events[j].socket;
                    assert(reads_through(before.0, recv@[k].id as int, to));
                }
            }
            assert(recvs =~= recvs_of(before.0, id));
            assert forall|to: int| #[trigger]
                sends.contains(to) == sends_of(before.0, id).contains(to) by {
                lemma_writes_step(before.0, id, to);
                if own.contains(to) {
                    let k = choose|k: int|
                        0 <= k < send@.len() && (#[trigger] send@[k]).id as int == to;
                    let j = choose|j: int|
                        0 <= j < events.len() && events[j].flags.writes() && (
                        #[trigger] events[j]).socket == send@[k];
                    assert(target(before.0, id, j) == to);
                } else if sends.contains(to) {
                    let k = choose|k: int|
                        0 <= k < recv@.len() && writes_through(
                            before.0,
                            (#[trigger] recv@[k]).id as int,
                            to,
                        );
                    let j = choose|j: int|
                        0 <= j < events.len() && events[j].flags.reads() && (
                        #[trigger] events[j]).socket == recv@[k];
                    assert(target(before.0, id, j) == recv@[k].id as int);
                }
                if sends_of(before.0, id).contains(to) {
                    let j = choose|j: int|
                        0 <= j < events.len() && {
                            ||| events[j].flags.writes() && #[trigger] target(before.0, id, j) == to
                            ||| events[j].flags.reads() && writes_through(
                                before.0,
                                target(before.0, id, j),
                                to,
                            )
                        };
                    if events[j].flags.writes() && target(before.0, id, j) == to {
                        let k = choose|k: int|
                            0 <= k < send@.len() && #[trigger] send@[k] == events[j].socket;
                        assert(send@[k].id as int == to);
                    } else {
                        let k = choose|k: int|
                            0 <= k < recv@.len() && #[trigger] recv@[k] == events[j].socket;
                        assert(writes_through(before.0, recv@[k].id as int, to));
                    }
                }
            }
            assert(sends =~= sends_of(before.0, id));
        }
    }

    /// Registers a waker on a socket, and for reading also on all that its interests lead to.
    pub fn register_wake_task_waker(
        &mut self,
        socket: Socket,
        waker: &Waker,
        wake_on: WakeOn,
        nic: &mut NetworkInterface,
    )
        requires
            old(self).wf(*old(nic)),
            wake_on.recvs() ==> exists|steps: nat|
                reading_ends(old(self)@, socket.id as int, steps),
        ensures
            waits(
                (old(self)@, old(nic).tcp()),
                (final(self)@, final(nic).tcp()),
                *waker,
                woken_sends(old(self)@, socket.id as int, wake_on),
                woken_recvs(old(self)@, socket.id as int, wake_on),
            ),
            final(self).wf(*final(nic)),
            final(nic).same_but_sockets(*old(nic)),
    {
        let ghost id = socket.id as int;
        let ghost before = (self@, nic.tcp());
        let ghost steps = choose|steps: nat| reading_ends(before.0, id, steps);
        match wake_on {
            WakeOn::Send => self.register_on_send(socket, waker, nic),
            WakeOn::Recv => self.register_for_reading(socket, waker, nic, Ghost(steps)),
            WakeOn::SendRecv => {
                self.register_on_send(socket, waker, nic);
                let ghost mid = (self@, nic.tcp());
                proof {
                    lemma_waiting_keeps(before.0, mid.0, *waker, set![id], Set::empty());
                    lemma_same_ends(before.0, mid.0, id, steps);
                    lemma_same_ways(before.0, mid.0, id);
                }
                self.register_for_reading(socket, waker, nic, Ghost(steps));
                proof {
                    lemma_waits_join(
                        before,
                        mid,
                        (self@, nic.tcp()),
                        *waker,
                        (set![id], sends_of(before.0, id)),
                        (Set::empty(), recvs_of(before.0, id)),
                    );
                }
            },
        }
        assert(woken_sends(before.0, id, wake_on) =~= match wake_on {
            WakeOn::Send => set![id],
            WakeOn::Recv => sends_of(before.0, id),
            WakeOn::SendRecv => set![id].union(sends_of(before.0, id)),
        });
        assert(woken_recvs(before.0, id, wake_on) =~= match wake_on {
            WakeOn::Send => Set::empty(),
            WakeOn::Recv => recvs_of(before.0, id),
            WakeOn::SendRecv => Set::empty().union(recvs_of(before.0, id)),
        });
    }
}

/// The sockets that are registered on for writing when a socket waits.
pub open spec fn woken_sends(map: Seq<Option<EntryView>>, id: int, wake_on: WakeOn) -> Set<int> {
    Set::new(|to: int| wake_on.sends() && to == id || wake_on.recvs() && writes_through(map, id, to))
}

/// The sockets that are registered on for reading when a socket waits.
pub open spec fn woken_recvs(map: Seq<Option<EntryView>>, id: int, wake_on: WakeOn) -> Set<int> {
    Set::new(|to: int| wake_on.recvs() && reads_through(map, id, to))
}

/// The socket is an event socket.
pub open spec fn is_event(map: Seq<Option<EntryView>>, id: int) -> bool {
    crate::socket_map::lookup(map, id) matches Some(entry) && entry.socket is Event
}

/// Every way along interests meets fewer event sockets than as many, or as many, at most.
pub open spec fn nested(map: Seq<Option<EntryView>>, id: int, levels: nat) -> bool
    decreases levels,
{
    is_event(map, id) ==> {
        &&& levels > 0
        &&& forall|i: int|
            0 <= i < interests(map, id).len() ==> nested(
                map,
                #[trigger] target(map, id, i),
                (levels - 1) as nat,
            )
    }
}

/// The same sockets have the same interests.
pub open spec fn same_interests(
    before: Seq<Option<EntryView>>,
    after: Seq<Option<EntryView>>,
) -> bool {
    forall|id: int|
        #![trigger interests(after, id)]
        #![trigger is_event(after, id)]
        interests(after, id) == interests(before, id) && is_event(after, id) == is_event(before, id)
}

/// Where interests are the same, they are nested alike.
pub proof fn lemma_same_nesting(
    before: Seq<Option<EntryView>>,
    after: Seq<Option<EntryView>>,
    id: int,
    levels: nat,
)
    requires
        same_interests(before, after),
        nested(before, id, levels),
    ensures
        nested(after, id, levels),
    decreases levels,
{
    if is_event(after, id) {
        assert forall|i: int| 0 <= i < interests(after, id).len() implies nested(
            after,
            #[trigger] target(after, id, i),
            (levels - 1) as nat,
        ) by {
            assert(interests(after, id) == interests(before, id));
            assert(nested(before, target(before, id, i), (levels - 1) as nat));
            lemma_same_nesting(before, after, target(before, id, i), (levels - 1) as nat);
        }
    }
}

/// If interests do not lead in circles, a waker can be registered along them.
pub proof fn law_nested_reading_ends(map: Seq<Option<EntryView>>, id: int, levels: nat)
    requires
        nested(map, id, levels),
    ensures
        reading_ends(map, id, levels + 1),
    decreases levels,
{
    assert forall|i: int|
        0 <= i < interests(map, id).len() && interests(map, id)[i].flags.reads() implies
        reading_ends(map, #[trigger] target(map, id, i), levels) by {
        assert(is_event(map, id));
        assert(nested(map, target(map, id, i), (levels - 1) as nat));
        law_nested_reading_ends(map, target(map, id, i), (levels - 1) as nat);
    }
}

impl SocketMap {
    /// Tells whether every way along interests meets as many event sockets at most.
    pub fn is_nested(&self, socket: Socket, levels: usize) -> (is_nested: bool)
        ensures
            is_nested == nested(self@, socket.id as int, levels as nat),
        decreases levels,
    {
        let ghost id = socket.id as int;
        let mut found: bool = false;
        if let Ok(entry) = self.get(socket) {
            if let AsyncSocket::Event(_) = &entry.async_socket {
                found = true;
            }
        }
        if !found {
            return true;
        }
        if levels == 0 {
            return false;
        }
        let events = self.interests_of(socket);
        let mut i: usize = 0;
        while i < events.len()
            invariant
                i <= events@.len(),
                levels > 0,
                id == socket.id as int,
                events@ == interests(self@, id),
                is_event(self@, id),
                forall|j: int|
                    0 <= j < i ==> nested(
                        self@,
                        #[trigger] target(self@, id, j),
                        (levels - 1) as nat,
                    ),
            decreases events@.len() - i,
        {
            if !self.is_nested(events[i].socket, levels - 1) {
                assert(!nested(self@, target(self@, id, i as int), (levels - 1) as nat));
                return false;
            }
            i += 1;
        }
        true
    }
}

/// Where there are no interests, they lead nowhere.
pub proof fn lemma_no_interests(map: Seq<Option<EntryView>>, id: int)
    requires
        interests(map, id).len() == 0,
    ensures
        recvs_of(map, id) == set![id],
        sends_of(map, id) == Set::<int>::empty(),
{
    assert forall|to: int| recvs_of(map, id).contains(to) == set![id].contains(to) by {
        lemma_reads_step(map, id, to);
    }
    assert(recvs_of(map, id) =~= set![id]);
    assert forall|to: int| !sends_of(map, id).contains(to) by {
        lemma_writes_step(map, id, to);
    }
    assert(sends_of(map, id) =~= Set::<int>::empty());
}

/// The interests of a socket are those of an event socket, and none of any other.
pub proof fn law_only_event_sockets_have_interests(map: Seq<Option<EntryView>>, id: int, i: int)
    ensures
        match crate::socket_map::lookup(map, id) {
            Some(entry) => match entry.socket {
                SocketView::Event(events) => {
                    &&& is_event(map, id)
                    &&& interests(map, id) == events
                    &&& target(map, id, i) == events[i].socket.id as int
                },
                _ => !is_event(map, id) && interests(map, id).len() == 0,
            },
            None => !is_event(map, id) && interests(map, id).len() == 0,
        },
{
}

/// Who waits for writing is registered on the socket alone. Who waits for reading is registered for
/// reading on the socket and wherever its interests in reading lead, and for writing wherever an
/// interest in writing on the way is in; on no other socket.
pub proof fn law_waiting_reaches_all_of_interest(
    map: Seq<Option<EntryView>>,
    id: int,
    to: int,
)
    ensures
        woken_sends(map, id, WakeOn::Send).contains(to) <==> to == id,
        !woken_recvs(map, id, WakeOn::Send).contains(to),
        woken_recvs(map, id, WakeOn::Recv).contains(to) <==> to == id || exists|i: int|
            0 <= i < interests(map, id).len() && interests(map, id)[i].flags.reads()
                && woken_recvs(map, #[trigger] target(map, id, i), WakeOn::Recv).contains(to),
        woken_sends(map, id, WakeOn::Recv).contains(to) <==> exists|i: int|
            0 <= i < interests(map, id).len() && {
                ||| interests(map, id)[i].flags.writes() && #[trigger] target(map, id, i) == to
                ||| interests(map, id)[i].flags.reads() && woken_sends(
                    map,
                    target(map, id, i),
                    WakeOn::Recv,
                ).contains(to)
            },
        woken_recvs(map, id, WakeOn::SendRecv) == woken_recvs(map, id, WakeOn::Recv),
        woken_sends(map, id, WakeOn::SendRecv) == woken_sends(map, id, WakeOn::Recv).insert(id),
{
    lemma_reads_step(map, id, to);
    lemma_writes_step(map, id, to);
    if reads_through(map, id, to) && to != id {
        let i = choose|i: int|
            0 <= i < interests(map, id).len() && interests(map, id)[i].flags.reads()
                && reads_through(map, #[trigger] target(map, id, i), to);
        assert(woken_recvs(map, target(map, id, i), WakeOn::Recv).contains(to));
    }
    if writes_through(map, id, to) {
        let i = choose|i: int|
            0 <= i < interests(map, id).len() && {
                ||| interests(map, id)[i].flags.writes() && #[trigger] target(map, id, i) == to
                ||| interests(map, id)[i].flags.reads() && writes_through(
                    map,
                    target(map, id, i),
                    to,
                )
            };
        if !(interests(map, id)[i].flags.writes() && target(map, id, i) == to) {
            assert(woken_sends(map, target(map, id, i), WakeOn::Recv).contains(to));
        }
    }
    assert(woken_recvs(map, id, WakeOn::SendRecv) =~= woken_recvs(map, id, WakeOn::Recv));
    assert(woken_sends(map, id, WakeOn::SendRecv) =~= woken_sends(map, id, WakeOn::Recv).insert(
        id,
    ));
}

/// Registering a waker on a socket puts one in place that wakes the same task: on the socket of the
/// interface that a TCP socket holds, or on a waker socket. Sockets that it is not registered on
/// stay as they are, and so does what else is kept of any.
pub proof fn law_waker_is_registered_where_waited(
    before: (Seq<Option<EntryView>>, Map<SocketHandle, TcpModel>),
    after: (Seq<Option<EntryView>>, Map<SocketHandle, TcpModel>),
    waker: Waker,
    sends: Set<int>,
    recvs: Set<int>,
    id: int,
    handle: SocketHandle,
)
    requires
        waits(before, after, waker, sends, recvs),
        crate::socket_map::owned(before.0, before.1),
        crate::socket_map::held(before.0, id).contains(handle),
    ensures
        crate::socket_map::lookup(after.0, id) == crate::socket_map::lookup(before.0, id),
        sends.contains(id) ==> (after.1[handle].tx_waker matches Some(kept) && (cloned(waker, kept)
            || before.1[handle].tx_waker == Some(kept) && crate::smol::will_wake(kept, waker))),
        recvs.contains(id) ==> (after.1[handle].rx_waker matches Some(kept) && (cloned(waker, kept)
            || before.1[handle].rx_waker == Some(kept) && crate::smol::will_wake(kept, waker))),
        !sends.contains(id) ==> after.1[handle].tx_waker == before.1[handle].tx_waker,
        !recvs.contains(id) ==> after.1[handle].rx_waker == before.1[handle].rx_waker,
        after.1[handle] == (TcpModel {
            tx_waker: after.1[handle].tx_waker,
            rx_waker: after.1[handle].rx_waker,
            ..before.1[handle]
        }),
{
    assert(before.1.dom().contains(handle));
    assert(sends.contains(id) <==> handles_of(before.0, sends).contains(handle));
    assert(recvs.contains(id) <==> handles_of(before.0, recvs).contains(handle));
    crate::smol::law_registered_waker_is_kept(
        before.1,
        after.1,
        waker,
        handles_of(before.0, sends),
        handles_of(before.0, recvs),
        handle,
    );
    let now = after.0[id];
}

/// Registering a waker on a waker socket puts a copy of it in place on the sides that are waited
/// on, and leaves all else as it is.
pub proof fn law_waker_socket_keeps_the_waker(
    before: (Seq<Option<EntryView>>, Map<SocketHandle, TcpModel>),
    after: (Seq<Option<EntryView>>, Map<SocketHandle, TcpModel>),
    waker: Waker,
    sends: Set<int>,
    recvs: Set<int>,
    id: int,
    then: AsyncWakerSocket,
)
    requires
        waits(before, after, waker, sends, recvs),
        crate::socket_map::lookup(before.0, id) matches Some(entry) && entry.socket
            == SocketView::Waker(then),
    ensures
        crate::socket_map::lookup(after.0, id) matches Some(entry) && entry.socket matches
            SocketView::Waker(now) && {
            &&& now.event_flags == then.event_flags && now.socket == then.socket
            &&& sends.contains(id) ==> (now.send_waker matches Some(kept) && cloned(waker, kept))
            &&& recvs.contains(id) ==> (now.recv_waker matches Some(kept) && cloned(waker, kept))
            &&& !sends.contains(id) ==> now.send_waker == then.send_waker
            &&& !recvs.contains(id) ==> now.recv_waker == then.recv_waker
            &&& entry == EntryView {
                socket: entry.socket,
                ..crate::socket_map::lookup(before.0, id)->0
            }
        },
{
    let now = after.0[id];
}

/// Sockets without interests end every way. An event socket ends its ways within one level more
/// than all its sockets of interest do; one that is interested in itself ends them never.
pub proof fn law_circles_never_end(map: Seq<Option<EntryView>>, id: int, levels: nat, i: int)
    ensures
        !is_event(map, id) ==> nested(map, id, levels),
        is_event(map, id) ==> !nested(map, id, 0),
        is_event(map, id) && nested(map, id, levels) && 0 <= i < interests(map, id).len()
            ==> nested(map, target(map, id, i), (levels - 1) as nat),
        is_event(map, id) && 0 <= i < interests(map, id).len() && target(map, id, i) == id
            ==> !nested(map, id, levels),
        is_event(map, id) && levels > 0 && (forall|j: int|
            0 <= j < interests(map, id).len() ==> nested(
                map,
                #[trigger] target(map, id, j),
                (levels - 1) as nat,
            )) ==> nested(map, id, levels),
    decreases levels,
{
    if levels > 0 {
        law_circles_never_end(map, id, (levels - 1) as nat, i);
    }
}

} // verus!
