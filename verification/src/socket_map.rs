//! The sockets, by the numbers that their users know them by.
use vstd::prelude::*;

use smoltcp::socket::SocketHandle;
use std::task::Waker;

use crate::io::{Error, ErrorKind, IoResult};
use crate::net::Socket;
use crate::nic::NetworkInterface;
use crate::poll::{TaskPoll, WakeOn};
use crate::smol::TcpModel;
use crate::socket::{AsyncSocket, SocketView};
use crate::waker::WakerRegistration;

verus! {

broadcast use vstd::map::group_map_axioms;

/// How a socket is called.
#[derive(Debug, Clone, Copy, PartialEq, Eq, Structural)]
pub struct Options {
    /// Operations do not wait for the socket. One that the socket is not ready for fails; one that
    /// then finds nothing to be had yet is tried again at once.
    pub non_blocking: bool,
    /// How long operations wait at most, in milliseconds.
    pub timeout: Option<u64>,
}

/// A socket with the options that govern how it is called, and with those who wait for it.
#[derive(Debug)]
pub struct SocketEntry {
    /// The socket to perform operations on.
    pub async_socket: AsyncSocket,
    /// How the socket is called.
    pub options: Options,
    /// Whether the socket is being closed.
    pub closing: bool,
    /// The task that wakes all who wait for reading. It registers its waker on the socket, and has
    /// to be woken when the socket is replaced.
    pub recv_task_waker: WakerRegistration,
    /// The task that wakes all who wait for writing.
    pub send_task_waker: WakerRegistration,
    /// All who wait for reading.
    pub recv_wakers: Vec<Waker>,
    /// All who wait for writing.
    pub send_wakers: Vec<Waker>,
}

/// The sockets, by their numbers.
#[derive(Debug)]
pub struct SocketMap {
    pub sockets: Vec<Option<SocketEntry>>,
}

/// What is kept of a socket.
pub ghost struct EntryView {
    pub socket: SocketView,
    pub options: Options,
    pub closing: bool,
    pub recv_task: Option<Waker>,
    pub send_task: Option<Waker>,
    pub recv_wakers: Seq<Waker>,
    pub send_wakers: Seq<Waker>,
}

impl View for SocketEntry {
    type V = EntryView;

    open spec fn view(&self) -> EntryView {
        EntryView {
            socket: self.async_socket@,
            options: self.options,
            closing: self.closing,
            recv_task: self.recv_task_waker.waker,
            send_task: self.send_task_waker.waker,
            recv_wakers: self.recv_wakers@,
            send_wakers: self.send_wakers@,
        }
    }
}

/// What is kept in a place of the map.
pub open spec fn entry_view(entry: Option<SocketEntry>) -> Option<EntryView> {
    match entry {
        Some(entry) => Some(entry@),
        None => None,
    }
}

impl View for SocketMap {
    type V = Seq<Option<EntryView>>;

    open spec fn view(&self) -> Seq<Option<EntryView>> {
        Seq::new(self.sockets@.len(), |i: int| entry_view(self.sockets@[i]))
    }
}

/// The error of a socket that there is not.
pub open spec fn unknown() -> Error {
    Error { kind: ErrorKind::NotSocket, msg: "unknown socket" }
}

/// What is kept of a socket, if there is one of that number.
pub open spec fn lookup(map: Seq<Option<EntryView>>, id: int) -> Option<EntryView> {
    if 0 <= id < map.len() {
        map[id]
    } else {
        None
    }
}

/// The sockets of the interface that a socket holds.
pub open spec fn held(map: Seq<Option<EntryView>>, id: int) -> Seq<SocketHandle> {
    match lookup(map, id) {
        Some(entry) => entry.socket.handles(),
        None => seq![],
    }
}

/// Each socket of the interface is held by one socket at most, and the interface knows that it is
/// held.
pub open spec fn owned(map: Seq<Option<EntryView>>, tcp: Map<SocketHandle, TcpModel>) -> bool {
    &&& forall|id: int| (#[trigger] held(map, id)).no_duplicates()
    &&& forall|id: int, handle: SocketHandle| #[trigger]
        held(map, id).contains(handle) ==> tcp.dom().contains(handle) && tcp[handle].refs > 0
    &&& forall|i: int, j: int, handle: SocketHandle|
        i != j && #[trigger] held(map, i).contains(handle) ==> !#[trigger] held(map, j).contains(
            handle,
        )
}

/// What a socket of the map holds is held.
pub proof fn lemma_owned_live(
    map: Seq<Option<EntryView>>,
    tcp: Map<SocketHandle, TcpModel>,
    id: int,
)
    requires
        owned(map, tcp),
    ensures
        lookup(map, id) matches Some(entry) ==> entry.socket.live(tcp),
{
    if let Some(entry) = lookup(map, id) {
        assert(held(map, id) == entry.socket.handles());
        if let SocketView::Tcp(socket) = entry.socket {
            assert forall|i: int| 0 <= i < socket.held.handles().len() implies {
                &&& tcp.dom().contains(#[trigger] socket.held.handles()[i])
                &&& tcp[socket.held.handles()[i]].refs > 0
            } by {
                assert(held(map, id).contains(socket.held.handles()[i]));
            }
        }
    }
}

/// Ownership goes by what is held and by what the interface knows to be held.
pub proof fn lemma_owned_kept(
    before: (Seq<Option<EntryView>>, Map<SocketHandle, TcpModel>),
    after: (Seq<Option<EntryView>>, Map<SocketHandle, TcpModel>),
)
    requires
        owned(before.0, before.1),
        forall|id: int| #[trigger] held(after.0, id) == held(before.0, id),
        forall|handle: SocketHandle| #[trigger]
            before.1.dom().contains(handle) && before.1[handle].refs > 0 ==> after.1.dom().contains(
                handle,
            ) && after.1[handle].refs > 0,
    ensures
        owned(after.0, after.1),
{
    assert forall|id: int, handle: SocketHandle| #[trigger]
        held(after.0, id).contains(handle) implies after.1.dom().contains(handle)
        && after.1[handle].refs > 0 by {
        assert(held(before.0, id).contains(handle));
        assert(before.1.dom().contains(handle));
    }
    assert forall|i: int, j: int, handle: SocketHandle|
        i != j && #[trigger] held(after.0, i).contains(handle) implies !#[trigger] held(
        after.0,
        j,
    ).contains(handle) by {
        assert(held(before.0, i).contains(handle));
    }
}

/// Ownership is kept where a socket of the interface is given up that no socket of the map holds.
pub proof fn lemma_owned_kept_by_others(
    before: (Seq<Option<EntryView>>, Map<SocketHandle, TcpModel>),
    after: Map<SocketHandle, TcpModel>,
    given_up: SocketHandle,
)
    requires
        owned(before.0, before.1),
        after == crate::smol::released(before.1, set![given_up]),
        forall|id: int| !#[trigger] held(before.0, id).contains(given_up),
    ensures
        owned(before.0, after),
{
    assert forall|id: int, handle: SocketHandle| #[trigger]
        held(before.0, id).contains(handle) implies after.dom().contains(handle)
        && after[handle].refs > 0 by {}
}

impl EntryView {
    /// A socket that was just made.
    pub open spec fn fresh(options: Options) -> EntryView {
        EntryView {
            socket: SocketView::Unbound,
            options,
            closing: false,
            recv_task: None,
            send_task: None,
            recv_wakers: seq![],
            send_wakers: seq![],
        }
    }

    /// The socket after its tasks were woken.
    pub open spec fn tasks_woken(self) -> EntryView {
        EntryView { recv_task: None, send_task: None, ..self }
    }

    /// The wakers of the socket's tasks.
    pub open spec fn tasks(self) -> Seq<Waker> {
        crate::waker::pending(self.send_task) + crate::waker::pending(self.recv_task)
    }
}

impl SocketEntry {
    /// The socket and its options.
    pub fn split_ref(&self) -> (parts: (&AsyncSocket, &Options))
        ensures
            *parts.0 == self.async_socket,
            *parts.1 == self.options,
    {
        (&self.async_socket, &self.options)
    }

    /// The socket and its options, to be changed.
    pub fn split_mut(&mut self) -> (parts: (&mut AsyncSocket, &mut Options))
        ensures
            *parts.0 == old(self).async_socket,
            *parts.1 == old(self).options,
            *final(self) == (SocketEntry {
                async_socket: *final(parts.0),
                options: *final(parts.1),
                ..*old(self)
            }),
    {
        (&mut self.async_socket, &mut self.options)
    }

    /// Registers one more who waits for writing.
    pub fn register_send_waker(&mut self, waker: &Waker)
        ensures
            final(self)@.send_wakers.len() == old(self)@.send_wakers.len() + 1,
            cloned(*waker, final(self)@.send_wakers.last()),
            final(self)@ == (EntryView {
                send_wakers: old(self)@.send_wakers.push(final(self)@.send_wakers.last()),
                ..old(self)@
            }),
    {
        self.send_wakers.push(waker.clone());
        assert(self@.send_wakers =~= old(self)@.send_wakers.push(self@.send_wakers.last()));
    }

    /// Registers one more who waits for reading.
    pub fn register_recv_waker(&mut self, waker: &Waker)
        ensures
            final(self)@.recv_wakers.len() == old(self)@.recv_wakers.len() + 1,
            cloned(*waker, final(self)@.recv_wakers.last()),
            final(self)@ == (EntryView {
                recv_wakers: old(self)@.recv_wakers.push(final(self)@.recv_wakers.last()),
                ..old(self)@
            }),
    {
        self.recv_wakers.push(waker.clone());
        assert(self@.recv_wakers =~= old(self)@.recv_wakers.push(self@.recv_wakers.last()));
    }

    /// Puts a socket in place of the one that is there, and wakes the tasks.
    pub fn insert_async_socket(
        &mut self,
        async_socket: AsyncSocket,
        nic: &mut NetworkInterface,
        wakes: &mut Vec<Waker>,
    )
        requires
            old(self)@.socket.live(old(nic).tcp()),
        ensures
            final(self)@ == (EntryView { socket: async_socket@, ..old(self)@ }).tasks_woken(),
            final(nic).tcp() == crate::smol::released(
                old(nic).tcp(),
                old(self)@.socket.handles().to_set(),
            ),
            final(nic).same_but_sockets(*old(nic)),
            final(wakes)@ == old(wakes)@ + old(self)@.tasks(),
    {
        let mut previous = async_socket;
        std::mem::swap(&mut self.async_socket, &mut previous);
        previous.release(nic);
        self.wake_tasks(wakes);
    }

    /// Wakes the tasks, to let them know of a change of the socket.
    pub fn wake_tasks(&mut self, wakes: &mut Vec<Waker>)
        ensures
            final(self)@ == old(self)@.tasks_woken(),
            final(wakes)@ == old(wakes)@ + old(self)@.tasks(),
    {
        self.send_task_waker.wake(wakes);
        self.recv_task_waker.wake(wakes);
        assert(wakes@ =~= old(wakes)@ + old(self)@.tasks());
    }

    /// Wakes all who wait for reading.
    pub fn wake_recv(&mut self, wakes: &mut Vec<Waker>)
        ensures
            final(self)@ == (EntryView { recv_wakers: seq![], ..old(self)@ }),
            final(wakes)@ == old(wakes)@ + old(self)@.recv_wakers,
    {
        wakes.append(&mut self.recv_wakers);
        assert(self@.recv_wakers =~= seq![]);
    }

    /// Wakes all who wait for writing.
    pub fn wake_send(&mut self, wakes: &mut Vec<Waker>)
        ensures
            final(self)@ == (EntryView { send_wakers: seq![], ..old(self)@ }),
            final(wakes)@ == old(wakes)@ + old(self)@.send_wakers,
    {
        wakes.append(&mut self.send_wakers);
        assert(self@.send_wakers =~= seq![]);
    }
}

impl SocketMap {
    /// Each socket of the interface is held by one socket of the map at most, and the interface
    /// knows that it is held.
    pub open spec fn wf(self, nic: NetworkInterface) -> bool {
        owned(self@, nic.tcp())
    }

    /// A map without sockets.
    pub fn new() -> (map: Self)
        ensures
            map@ == Seq::<Option<EntryView>>::empty(),
            forall|nic: NetworkInterface| map.wf(nic),
    {
        let map = SocketMap { sockets: Vec::with_capacity(256) };
        assert(map@ =~= Seq::<Option<EntryView>>::empty());
        map
    }

    /// Finds the first place that nothing is kept in, or adds one.
    fn next_free_entry(&mut self) -> (socket: Socket)
        ensures
            socket.id < final(self)@.len(),
            final(self)@[socket.id as int] is None,
            forall|i: int| 0 <= i < socket.id ==> (#[trigger] old(self)@[i]) is Some,
            final(self)@ == (if socket.id < old(self)@.len() {
                old(self)@
            } else {
                old(self)@.push(None)
            }),
            socket.id <= old(self)@.len(),
    {
        let mut id: usize = 0;
        while id < self.sockets.len()
            invariant
                id <= self.sockets@.len(),
                *self == *old(self),
                forall|i: int| 0 <= i < id ==> (#[trigger] self@[i]) is Some,
            decreases self.sockets@.len() - id,
        {
            if self.sockets[id].is_none() {
                assert(self@[id as int] is None);
                return Socket { id };
            }
            assert(self@[id as int] is Some);
            id += 1;
        }
        self.sockets.push(None);
        assert(self@ =~= old(self)@.push(None));
        Socket { id }
    }

    /// Takes a socket out of the map.
    pub fn take(&mut self, socket: Socket) -> (entry: IoResult<SocketEntry>)
        ensures
            match (lookup(old(self)@, socket.id as int), entry) {
                (Some(view), Ok(entry)) => {
                    &&& entry@ == view
                    &&& final(self)@ == old(self)@.update(socket.id as int, None)
                },
                (None, Err(error)) => error == unknown() && final(self)@ == old(self)@,
                _ => false,
            },
    {
        if socket.id < self.sockets.len() {
            let mut slot: Option<SocketEntry> = None;
            std::mem::swap(&mut self.sockets[socket.id], &mut slot);
            assert(old(self)@[socket.id as int] == entry_view(slot));
            if let Some(entry) = slot {
                assert(self@ =~= old(self)@.update(socket.id as int, None));
                return Ok(entry);
            }
            assert(self@ =~= old(self)@);
        }
        Err(Error::new(ErrorKind::NotSocket, "unknown socket"))
    }

    /// What is kept of a socket.
    pub fn get(&self, socket: Socket) -> (entry: IoResult<&SocketEntry>)
        ensures
            match (lookup(self@, socket.id as int), entry) {
                (Some(view), Ok(entry)) => entry@ == view,
                (None, Err(error)) => error == unknown(),
                _ => false,
            },
    {
        if socket.id < self.sockets.len() {
            if let Some(entry) = &self.sockets[socket.id] {
                return Ok(entry);
            }
        }
        Err(Error::new(ErrorKind::NotSocket, "unknown socket"))
    }

    /// What is kept of a socket, to be changed.
    pub fn get_mut(&mut self, socket: Socket) -> (entry: IoResult<&mut SocketEntry>)
        ensures
            match (lookup(old(self)@, socket.id as int), entry) {
                (Some(view), Ok(entry)) => {
                    &&& entry@ == view
                    &&& final(self)@ == old(self)@.update(
                        socket.id as int,
                        Some((*final(entry))@),
                    )
                },
                (None, Err(error)) => error == unknown() && final(self)@ == old(self)@,
                _ => false,
            },
    {
        if socket.id < self.sockets.len() {
            if let Some(entry) = &mut self.sockets[socket.id] {
                return Ok(entry);
            }
        }
        Err(Error::new(ErrorKind::NotSocket, "unknown socket"))
    }

    /// Puts a socket in place of the one of the given number, and wakes its tasks. What the previous
    /// one holds is given up; if there is none of that number, what the new one holds.
    pub fn bind_socket(
        &mut self,
        socket: Socket,
        async_socket: AsyncSocket,
        nic: &mut NetworkInterface,
        wakes: &mut Vec<Waker>,
    ) -> (result: IoResult<()>)
        requires
            old(self).wf(*old(nic)),
            async_socket@.live(old(nic).tcp()),
            forall|id: int, handle: SocketHandle| #[trigger]
                held(old(self)@, id).contains(handle) ==> !async_socket@.handles().contains(handle),
        ensures
            match lookup(old(self)@, socket.id as int) {
                Some(entry) => {
                    &&& result == Ok::<(), Error>(())
                    &&& final(self)@ == old(self)@.update(
                        socket.id as int,
                        Some(EntryView { socket: async_socket@, ..entry }.tasks_woken()),
                    )
                    &&& final(nic).tcp() == crate::smol::released(
                        old(nic).tcp(),
                        entry.socket.handles().to_set(),
                    )
                    &&& final(wakes)@ == old(wakes)@ + entry.tasks()
                },
                None => {
                    &&& result == Err::<(), Error>(unknown())
                    &&& final(self)@ == old(self)@
                    &&& final(nic).tcp() == crate::smol::released(
                        old(nic).tcp(),
                        async_socket@.handles().to_set(),
                    )
                    &&& final(wakes)@ == old(wakes)@
                },
            },
            final(nic).same_but_sockets(*old(nic)),
            final(self).wf(*final(nic)),
    {
        let ghost id = socket.id as int;
        let ghost view = async_socket@;
        proof {
            lemma_owned_live(self@, nic.tcp(), id);
        }
        match self.get_mut(socket) {
            Ok(entry) => {
                entry.insert_async_socket(async_socket, nic, wakes);
                proof {
                    lemma_owned_replaced(
                        (old(self)@, old(nic).tcp()),
                        (self@, nic.tcp()),
                        id,
                        view,
                    );
                }
                Ok(())
            },
            Err(error) => {
                async_socket.release(nic);
                proof {
                    assert forall|id: int, handle: SocketHandle| #[trigger]
                        held(self@, id).contains(handle) implies nic.tcp().dom().contains(handle)
                        && nic.tcp()[handle].refs > 0 by {
                        assert(held(old(self)@, id).contains(handle));
                    }
                }
                Err(error)
            },
        }
    }

    /// Makes a new socket in the first free place. Its two tasks, for writing and for reading, are
    /// to be started.
    pub fn new_socket(&mut self, options: Options) -> (socket: Socket)
        ensures
            final(self)@ == with_new(old(self)@, socket.id as int, options),
            is_first_free(old(self)@, socket.id as int),
            forall|nic: NetworkInterface| old(self).wf(nic) ==> #[trigger] final(self).wf(nic),
    {
        let socket = self.next_free_entry();
        let entry = SocketEntry {
            async_socket: AsyncSocket::Unbound,
            options,
            closing: false,
            send_task_waker: WakerRegistration::new(),
            recv_task_waker: WakerRegistration::new(),
            send_wakers: Vec::with_capacity(4),
            recv_wakers: Vec::with_capacity(4),
        };
        assert(entry@.send_wakers =~= seq![]);
        assert(entry@.recv_wakers =~= seq![]);
        assert(entry@ == EntryView::fresh(options));
        let ghost mid = self@;
        self.sockets[socket.id] = Some(entry);
        assert(self@ =~= mid.update(socket.id as int, Some(EntryView::fresh(options))));
        assert(self@ =~= with_new(old(self)@, socket.id as int, options));
        proof {
            assert forall|nic: NetworkInterface| old(self).wf(nic) implies #[trigger] self.wf(
                nic,
            ) by {
                assert forall|id: int| #[trigger] held(self@, id) == held(old(self)@, id) by {}
                lemma_owned_kept((old(self)@, nic.tcp()), (self@, nic.tcp()));
            }
        }
        socket
    }

    /// One turn of the task that wakes all who wait for writing to a socket: it wakes them, and
    /// registers itself to be woken when the socket can be written to or is replaced. It ends when
    /// the socket is gone.
    pub fn poll_send_task(
        &mut self,
        socket: Socket,
        waker: &Waker,
        nic: &mut NetworkInterface,
        wakes: &mut Vec<Waker>,
    ) -> (poll: TaskPoll<()>)
        requires
            old(self).wf(*old(nic)),
        ensures
            match lookup(old(self)@, socket.id as int) {
                None => {
                    &&& poll == TaskPoll::Ready(())
                    &&& final(self)@ == old(self)@
                    &&& final(nic).tcp() == old(nic).tcp()
                    &&& final(wakes)@ == old(wakes)@
                },
                Some(entry) => {
                    &&& poll == TaskPoll::<()>::Pending
                    &&& final(wakes)@ == old(wakes)@ + entry.send_wakers
                    &&& lookup(final(self)@, socket.id as int) matches Some(now)
                    &&& now.send_task is Some
                    &&& cloned(*waker, now.send_task->0)
                    &&& crate::interest::waits(
                        (
                            old(self)@.update(
                                socket.id as int,
                                Some(
                                    EntryView {
                                        send_task: now.send_task,
                                        send_wakers: seq![],
                                        ..entry
                                    },
                                ),
                            ),
                            old(nic).tcp(),
                        ),
                        (final(self)@, final(nic).tcp()),
                        *waker,
                        set![socket.id as int],
                        Set::empty(),
                    )
                },
            },
            final(nic).same_but_sockets(*old(nic)),
            final(self).wf(*final(nic)),
    {
        let ghost id = socket.id as int;
        match self.get_mut(socket) {
            Ok(entry) => {
                entry.send_task_waker.register(waker);
                entry.wake_send(wakes);
            },
            Err(_) => {
                return TaskPoll::Ready(());
            },
        }
        proof {
            assert forall|id: int| #[trigger] held(self@, id) == held(old(self)@, id) by {}
            lemma_owned_kept((old(self)@, nic.tcp()), (self@, nic.tcp()));
        }
        let ghost mid = self@;
        self.register_wake_task_waker(socket, waker, WakeOn::Send, nic);
        proof {
            assert(crate::interest::entry_waits(
                mid[id],
                self@[id],
                *waker,
                crate::interest::woken_sends(mid, id, WakeOn::Send).contains(id),
                crate::interest::woken_recvs(mid, id, WakeOn::Send).contains(id),
            ));
            assert(crate::interest::woken_sends(mid, id, WakeOn::Send) =~= set![id]);
            assert(crate::interest::woken_recvs(mid, id, WakeOn::Send) =~= Set::empty());
        }
        TaskPoll::Pending
    }

    /// One turn of the task that wakes all who wait for reading from a socket: it wakes them, and
    /// registers itself to be woken when there is something to read, in the socket or in one that
    /// its interests lead to, or when the socket is replaced. It ends when the socket is gone.
    pub fn poll_recv_task(
        &mut self,
        socket: Socket,
        waker: &Waker,
        nic: &mut NetworkInterface,
        wakes: &mut Vec<Waker>,
    ) -> (poll: TaskPoll<()>)
        requires
            old(self).wf(*old(nic)),
            exists|steps: nat|
                crate::interest::reading_ends(old(self)@, socket.id as int, steps),
        ensures
            match lookup(old(self)@, socket.id as int) {
                None => {
                    &&& poll == TaskPoll::Ready(())
                    &&& final(self)@ == old(self)@
                    &&& final(nic).tcp() == old(nic).tcp()
                    &&& final(wakes)@ == old(wakes)@
                },
                Some(entry) => {
                    &&& poll == TaskPoll::<()>::Pending
                    &&& final(wakes)@ == old(wakes)@ + entry.recv_wakers
                    &&& lookup(final(self)@, socket.id as int) matches Some(now)
                    &&& now.recv_task is Some
                    &&& cloned(*waker, now.recv_task->0)
                    &&& crate::interest::waits(
                        (
                            old(self)@.update(
                                socket.id as int,
                                Some(
                                    EntryView {
                                        recv_task: now.recv_task,
                                        recv_wakers: seq![],
                                        ..entry
                                    },
                                ),
                            ),
                            old(nic).tcp(),
                        ),
                        (final(self)@, final(nic).tcp()),
                        *waker,
                        crate::interest::sends_of(old(self)@, socket.id as int),
                        crate::interest::recvs_of(old(self)@, socket.id as int),
                    )
                },
            },
            final(nic).same_but_sockets(*old(nic)),
            final(self).wf(*final(nic)),
    {
        let ghost id = socket.id as int;
        let ghost steps = choose|steps: nat| crate::interest::reading_ends(self@, id, steps);
        match self.get_mut(socket) {
            Ok(entry) => {
                entry.recv_task_waker.register(waker);
                entry.wake_recv(wakes);
            },
            Err(_) => {
                return TaskPoll::Ready(());
            },
        }
        let ghost mid = self@;
        proof {
            assert forall|id: int| #[trigger] held(self@, id) == held(old(self)@, id) by {}
            lemma_owned_kept((old(self)@, nic.tcp()), (self@, nic.tcp()));
            crate::interest::lemma_same_ends(old(self)@, mid, id, steps);
            crate::interest::lemma_same_ways(old(self)@, mid, id);
        }
        self.register_wake_task_waker(socket, waker, WakeOn::Recv, nic);
        proof {
            assert(crate::interest::entry_waits(
                mid[id],
                self@[id],
                *waker,
                crate::interest::woken_sends(mid, id, WakeOn::Recv).contains(id),
                crate::interest::woken_recvs(mid, id, WakeOn::Recv).contains(id),
            ));
            assert(crate::interest::woken_sends(mid, id, WakeOn::Recv)
                =~= crate::interest::sends_of(mid, id));
            assert(crate::interest::woken_recvs(mid, id, WakeOn::Recv)
                =~= crate::interest::recvs_of(mid, id));
        }
        TaskPoll::Pending
    }
}

/// The place is free, and those before it are not.
pub open spec fn is_first_free(map: Seq<Option<EntryView>>, id: int) -> bool {
    &&& 0 <= id <= map.len()
    &&& lookup(map, id) is None
    &&& forall|i: int| 0 <= i < id ==> (#[trigger] map[i]) is Some
}

/// The map with a new socket in the given place.
pub open spec fn with_new(
    map: Seq<Option<EntryView>>,
    id: int,
    options: Options,
) -> Seq<Option<EntryView>> {
    if id < map.len() {
        map.update(id, Some(EntryView::fresh(options)))
    } else {
        map.push(Some(EntryView::fresh(options)))
    }
}

/// Ownership is kept where what one socket holds changes, if it then holds what is held and what
/// no other socket holds, and if nothing is taken away from the others.
pub proof fn lemma_owned_changed(
    before: (Seq<Option<EntryView>>, Map<SocketHandle, TcpModel>),
    after: (Seq<Option<EntryView>>, Map<SocketHandle, TcpModel>),
    id: int,
)
    requires
        owned(before.0, before.1),
        held(after.0, id).no_duplicates(),
        forall|handle: SocketHandle| #[trigger]
            held(after.0, id).contains(handle) ==> after.1.dom().contains(handle)
                && after.1[handle].refs > 0,
        forall|other: int, handle: SocketHandle|
            other != id && #[trigger] held(before.0, other).contains(handle) ==> {
                &&& !held(after.0, id).contains(handle)
                &&& after.1.dom().contains(handle)
                &&& after.1[handle].refs > 0
            },
        forall|other: int| other != id ==> #[trigger] held(after.0, other) == held(before.0, other),
    ensures
        owned(after.0, after.1),
{
    assert forall|other: int| (#[trigger] held(after.0, other)).no_duplicates() by {
        if other != id {
            assert(held(before.0, other).no_duplicates());
        }
    }
    assert forall|other: int, handle: SocketHandle| #[trigger]
        held(after.0, other).contains(handle) implies after.1.dom().contains(handle)
        && after.1[handle].refs > 0 by {
        if other != id {
            assert(held(before.0, other).contains(handle));
        }
    }
    assert forall|i: int, j: int, handle: SocketHandle|
        i != j && #[trigger] held(after.0, i).contains(handle) implies !#[trigger] held(
        after.0,
        j,
    ).contains(handle) by {
        if i != id {
            assert(held(before.0, i).contains(handle));
        } else if held(after.0, j).contains(handle) {
            assert(held(before.0, j).contains(handle));
        }
    }
}

/// Ownership is kept where a socket takes the place of another, if what it holds is held by no
/// other and what the other held is given up.
pub proof fn lemma_owned_replaced(
    before: (Seq<Option<EntryView>>, Map<SocketHandle, TcpModel>),
    after: (Seq<Option<EntryView>>, Map<SocketHandle, TcpModel>),
    id: int,
    socket: SocketView,
)
    requires
        owned(before.0, before.1),
        lookup(before.0, id) is Some,
        socket.live(before.1),
        forall|other: int, handle: SocketHandle| #[trigger]
            held(before.0, other).contains(handle) ==> !socket.handles().contains(handle),
        held(after.0, id) == socket.handles(),
        forall|other: int| other != id ==> #[trigger] held(after.0, other) == held(before.0, other),
        after.1 == crate::smol::released(before.1, held(before.0, id).to_set()),
    ensures
        owned(after.0, after.1),
{
    assert forall|handle: SocketHandle| #[trigger]
        held(after.0, id).contains(handle) implies after.1.dom().contains(handle)
        && after.1[handle].refs > 0 by {
        let i = choose|i: int| 0 <= i < socket.handles().len() && socket.handles()[i] == handle;
        assert(before.1.dom().contains(socket.handles()[i]));
        if held(before.0, id).to_set().contains(handle) {
            assert(held(before.0, id).contains(handle));
        }
    }
    assert forall|other: int, handle: SocketHandle|
        other != id && #[trigger] held(before.0, other).contains(handle) implies {
        &&& !held(after.0, id).contains(handle)
        &&& after.1.dom().contains(handle)
        &&& after.1[handle].refs > 0
    } by {
        if held(before.0, id).to_set().contains(handle) {
            assert(held(before.0, id).contains(handle));
        }
    }
    lemma_owned_changed(before, after, id);
}

/// A new socket is found under its number, and all others are as they were.
pub proof fn law_new_socket_is_found(
    map: Seq<Option<EntryView>>,
    id: int,
    options: Options,
    other: int,
)
    requires
        is_first_free(map, id),
    ensures
        lookup(with_new(map, id, options), id) == Some(EntryView::fresh(options)),
        other != id ==> lookup(with_new(map, id, options), other) == lookup(map, other),
{
}

/// A socket that was taken out is no longer found, and all others are as they were.
pub proof fn law_taken_socket_is_gone(map: Seq<Option<EntryView>>, id: int, other: int)
    requires
        lookup(map, id) is Some,
    ensures
        lookup(map.update(id, None), id) is None,
        other != id ==> lookup(map.update(id, None), other) == lookup(map, other),
{
}

/// The lowest number that is free is given to a new socket: that of the socket that was taken out
/// last, if none below it is free.
pub proof fn law_numbers_are_reused(map: Seq<Option<EntryView>>, id: int)
    requires
        lookup(map, id) is Some,
        forall|i: int| 0 <= i < id ==> (#[trigger] map[i]) is Some,
    ensures
        is_first_free(map.update(id, None), id),
        forall|other: int| is_first_free(map.update(id, None), other) ==> other == id,
{
    let after = map.update(id, None);
    assert forall|i: int| 0 <= i < id implies (#[trigger] after[i]) is Some by {
        assert(map[i] is Some);
    }
    assert forall|other: int| is_first_free(after, other) implies other == id by {
        if other < id {
            assert(after[other] is Some);
        } else if id < other {
            assert(after[id] is Some);
        }
    }
}

/// A number names a socket exactly if there is one in its place.
pub proof fn law_numbers_name_places(map: Seq<Option<EntryView>>, id: int)
    ensures
        0 <= id < map.len() ==> lookup(map, id) == map[id],
        id < 0 || id >= map.len() ==> lookup(map, id) is None,
        unknown().kind == ErrorKind::NotSocket,
        match lookup(map, id) {
            Some(entry) => held(map, id) == entry.socket.handles(),
            None => held(map, id).len() == 0,
        },
{
}

/// A new socket is not bound, is not being closed, has no tasks and is waited for by nobody. It is
/// called by the options that it was made with.
pub proof fn law_new_socket_is_unbound(options: Options)
    ensures
        ({
            let entry = EntryView::fresh(options);
            &&& entry.socket is Unbound
            &&& entry.options == options
            &&& !entry.closing
            &&& entry.recv_task is None && entry.send_task is None
            &&& entry.recv_wakers.len() == 0 && entry.send_wakers.len() == 0
        }),
{
}

/// Waking the tasks of a socket wakes both, that for writing first, each once, and changes nothing
/// else of the socket.
pub proof fn law_tasks_are_woken(entry: EntryView)
    ensures
        entry.tasks_woken() == (EntryView { recv_task: None, send_task: None, ..entry }),
        entry.tasks_woken().tasks().len() == 0,
        forall|task: Waker| #[trigger]
            entry.tasks().contains(task) <==> entry.send_task == Some(task) || entry.recv_task
                == Some(task),
        entry.send_task matches Some(task) ==> entry.tasks()[0] == task,
        entry.recv_task matches Some(task) ==> entry.tasks().last() == task,
        entry.tasks().len() == (if entry.send_task is Some {
            1int
        } else {
            0
        }) + (if entry.recv_task is Some {
            1int
        } else {
            0
        }),
{
    let tasks = entry.tasks();
    assert forall|task: Waker| #[trigger] tasks.contains(task) <==> entry.send_task == Some(task)
        || entry.recv_task == Some(task) by {
        if entry.send_task == Some(task) {
            assert(tasks[0] == task);
        }
        if entry.recv_task == Some(task) {
            assert(tasks[tasks.len() - 1] == task);
        }
    }
}

/// There is one place for a new socket: the first that is free, or the one after the last.
pub proof fn law_first_free_place_is_the_lowest(
    map: Seq<Option<EntryView>>,
    id: int,
    other: int,
    options: Options,
)
    requires
        is_first_free(map, id),
    ensures
        0 <= id <= map.len(),
        id < map.len() ==> map[id] is None,
        0 <= other < id ==> map[other] is Some,
        is_first_free(map, other) ==> other == id,
        with_new(map, id, options).len() == (if id < map.len() {
            map.len()
        } else {
            map.len() + 1
        }),
{
    if is_first_free(map, other) {
        if other < id {
            assert(map[other] is Some);
        } else if id < other {
            assert(map[id] is Some);
        }
    }
}

} // verus!
