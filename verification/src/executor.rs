//! The executor, which runs tasks while a thread idles on network I/O.
use vstd::prelude::*;

use concurrent_queue::ConcurrentQueue;

use crate::io::{Error, ErrorKind, IoResult};

verus! {

/// A thread's number.
pub type Tid = u32;

/// concurrent_queue's queue.
#[verifier::external_type_specification]
#[verifier::external_body]
#[verifier::reject_recursive_types(T)]
pub struct ExConcurrentQueue<T>(ConcurrentQueue<T>);

/// The numbers in a queue, the oldest first.
pub uninterp spec fn queued(queue: ConcurrentQueue<u64>) -> Seq<u64>;

/// A queue takes whatever is pushed: it is unbounded and was not closed.
pub uninterp spec fn accepts(queue: ConcurrentQueue<u64>) -> bool;

/// `ConcurrentQueue::unbounded`: an empty queue that takes whatever is pushed.
#[verifier::external_body]
fn queue_unbounded() -> (queue: ConcurrentQueue<u64>)
    ensures
        queued(queue) == Seq::<u64>::empty(),
        accepts(queue),
{
    ConcurrentQueue::unbounded()
}

/// `ConcurrentQueue::push` on a queue that nobody else has access to: an unbounded queue that was
/// not closed takes the number in at its end.
#[verifier::external_body]
fn queue_push(queue: &mut ConcurrentQueue<u64>, task: u64) -> (pushed: bool)
    requires
        accepts(*old(queue)),
    ensures
        pushed,
        queued(*final(queue)) == queued(*old(queue)).push(task),
        accepts(*final(queue)),
{
    queue.push(task).is_ok()
}

/// `ConcurrentQueue::pop` on a queue that nobody else has access to: the oldest number leaves it,
/// if there is any.
#[verifier::external_body]
fn queue_pop(queue: &mut ConcurrentQueue<u64>) -> (task: Option<u64>)
    ensures
        task == (if queued(*old(queue)).len() > 0 {
            Some(queued(*old(queue))[0])
        } else {
            None
        }),
        queued(*final(queue)) == (if queued(*old(queue)).len() > 0 {
            queued(*old(queue)).skip(1)
        } else {
            queued(*old(queue))
        }),
        accepts(*final(queue)) == accepts(*old(queue)),
{
    queue.pop().ok()
}

/// The tasks that are ready to run, by their numbers.
#[derive(Debug)]
pub struct TaskQueue {
    queue: ConcurrentQueue<u64>,
}

impl View for TaskQueue {
    type V = Seq<u64>;

    closed spec fn view(&self) -> Seq<u64> {
        queued(self.queue)
    }
}

impl TaskQueue {
    /// The queue takes whatever task is scheduled.
    pub closed spec fn wf(self) -> bool {
        accepts(self.queue)
    }

    /// A queue without tasks.
    pub fn new() -> (tasks: Self)
        ensures
            tasks.wf(),
            tasks@ == Seq::<u64>::empty(),
    {
        TaskQueue { queue: queue_unbounded() }
    }

    /// Puts a task at the end.
    pub fn schedule(&mut self, task: u64)
        requires
            old(self).wf(),
        ensures
            final(self).wf(),
            final(self)@ == old(self)@.push(task),
    {
        let _ = queue_push(&mut self.queue, task);
    }

    /// Takes the oldest task out to be run, if there is one.
    pub fn next_task(&mut self) -> (task: Option<u64>)
        requires
            old(self).wf(),
        ensures
            final(self).wf(),
            match task {
                Some(task) => {
                    &&& old(self)@.len() > 0
                    &&& task == old(self)@[0]
                    &&& final(self)@ == old(self)@.skip(1)
                },
                None => old(self)@.len() == 0 && final(self)@ == old(self)@,
            },
    {
        queue_pop(&mut self.queue)
    }

    /// Takes all tasks out to be run, the oldest first.
    ///
    /// Tasks that are scheduled while these run are taken out by the next call.
    pub fn execute_all(&mut self) -> (tasks: Vec<u64>)
        requires
            old(self).wf(),
        ensures
            final(self).wf(),
            final(self)@ == Seq::<u64>::empty(),
            tasks@ == old(self)@,
    {
        let mut tasks: Vec<u64> = Vec::new();
        assert(old(self)@ =~= tasks@ + self@);
        loop
            invariant_except_break
                old(self)@ == tasks@ + self@,
            invariant
                self.wf(),
            ensures
                self@ == Seq::<u64>::empty(),
                old(self)@ == tasks@,
            decreases self@.len(),
        {
            let ghost rest = self@;
            match self.next_task() {
                Some(task) => {
                    assert(rest =~= seq![task] + self@);
                    tasks.push(task);
                    assert(old(self)@ =~= tasks@ + self@);
                },
                None => {
                    assert(old(self)@ =~= tasks@);
                    break;
                },
            }
        }
        tasks
    }
}

/// How the executor is run when it is not waited for anything.
#[derive(Debug, Clone, Copy, PartialEq, Eq, Structural)]
pub enum RunEvent {
    /// The executor is to be run.
    Start,
    /// Polling mode was entered and the ready tasks were run.
    Entered,
    /// The interface was polled and the ready tasks were run: whether it was woken by them.
    Polled { woken: bool },
}

/// What is to be done next to run the executor.
#[derive(Debug, Clone, Copy, PartialEq, Eq, Structural)]
pub enum RunAction {
    /// Enter polling mode and run the ready tasks.
    Enter,
    /// Poll the interface and run the ready tasks.
    Poll,
    /// Leave polling mode, run the ready tasks and poll the interface. The run is then over.
    Leave,
}

/// What is to be done next to run the executor, given what happened last.
pub open spec fn next_run(event: RunEvent) -> RunAction {
    match event {
        RunEvent::Start => RunAction::Enter,
        RunEvent::Entered => RunAction::Poll,
        RunEvent::Polled { woken } => if woken {
            RunAction::Poll
        } else {
            RunAction::Leave
        },
    }
}

/// One step of running the executor: given what happened last, what is to be done next.
///
/// The interface is polled for as long as tasks give it work.
pub fn run_executor(event: RunEvent) -> (action: RunAction)
    ensures
        action == next_run(event),
        action == (match event {
            RunEvent::Start => RunAction::Enter,
            RunEvent::Entered => RunAction::Poll,
            RunEvent::Polled { woken } => if woken {
                RunAction::Poll
            } else {
                RunAction::Leave
            },
        }),
{
    match event {
        RunEvent::Start => RunAction::Enter,
        RunEvent::Entered => RunAction::Poll,
        RunEvent::Polled { woken: true } => RunAction::Poll,
        RunEvent::Polled { woken: false } => RunAction::Leave,
    }
}

/// How a blocked thread learns that it is to go on.
#[derive(Debug, Clone, Copy, PartialEq, Eq, Structural)]
pub struct ThreadNotify {
    /// The thread.
    pub thread: Tid,
    /// A wakeup is remembered until the thread is about to block.
    pub unparked: bool,
    /// A wakeup occurred.
    pub woken: bool,
}

impl ThreadNotify {
    /// A thread that was not woken.
    pub fn new(thread: Tid) -> (notify: Self)
        ensures
            notify == (ThreadNotify { thread, unparked: false, woken: false }),
    {
        ThreadNotify { thread, unparked: false, woken: false }
    }

    /// Tells whether a wakeup occurred.
    pub fn was_woken(&self) -> (woken: bool)
        ensures
            woken == self.woken,
    {
        self.woken
    }

    /// Forgets a remembered wakeup, and tells whether there was one.
    pub fn swap_unparked(&mut self) -> (unparked: bool)
        ensures
            unparked == old(self).unparked,
            *final(self) == (ThreadNotify { unparked: false, ..*old(self) }),
    {
        let unparked = self.unparked;
        self.unparked = false;
        unparked
    }

    /// Forgets all wakeups.
    pub fn reset(&mut self)
        ensures
            *final(self) == (ThreadNotify { woken: false, unparked: false, ..*old(self) }),
    {
        self.woken = false;
        self.unparked = false;
    }

    /// Notes a wakeup, and tells whether the thread has to be woken for it.
    ///
    /// It need not be if a wakeup is already remembered.
    pub fn wake_by_ref(&mut self) -> (wakeup: bool)
        ensures
            wakeup == !old(self).unparked,
            *final(self) == (ThreadNotify { woken: true, unparked: true, ..*old(self) }),
    {
        self.woken = true;
        let unparked = self.unparked;
        self.unparked = true;
        !unparked
    }

    /// Notes a wakeup, and tells whether the thread has to be woken for it.
    pub fn wake(&mut self) -> (wakeup: bool)
        ensures
            wakeup == !old(self).unparked,
            *final(self) == (ThreadNotify { woken: true, unparked: true, ..*old(self) }),
    {
        self.wake_by_ref()
    }
}

/// A delay of the interface beyond which a thread blocks, in milliseconds.
pub const BLOCKING_DELAY: u64 = 1000;

/// A thread that waits for a future.
#[derive(Debug, Clone, Copy, PartialEq, Eq, Structural)]
pub struct BlockOn {
    /// When the thread began to wait, in milliseconds.
    pub start: i64,
    /// How long it waits at most, in milliseconds.
    pub timeout: Option<u64>,
    /// The thread keeps the interface in polling mode.
    pub polling: bool,
}

/// What happened last while a thread waits for a future.
#[derive(Debug, Clone, Copy, PartialEq, Eq, Structural)]
pub enum BlockEvent {
    /// The wait begins.
    Start,
    /// The ready tasks were run, the interface and then the future were polled.
    Polled { ready: bool, now: i64 },
    /// The ready tasks were run and the interface was polled.
    Driven { now: i64 },
    /// The interface told when it wants to be polled again, if at all, in milliseconds; then the
    /// ready tasks were run.
    Delay(Option<u64>),
}

/// What is to be done next while a thread waits for a future.
#[derive(Debug, Clone, Copy, PartialEq, Eq, Structural)]
pub enum BlockAction {
    /// Run the ready tasks, poll the interface and then the future.
    PollFuture,
    /// Enter polling mode if told to, ask the interface for its delay and run the ready tasks.
    AskDelay { enter_polling: bool },
    /// Run the ready tasks and poll the interface.
    Drive,
    /// Leave polling mode and, if told to, block the thread, for the given time if there is one.
    /// Then run the ready tasks and poll the interface.
    Sleep { block: Option<Option<u64>> },
    /// Leave polling mode and return what the future gave.
    Return,
    /// Leave polling mode and return the error that the wait timed out.
    TimedOut,
}

impl BlockOn {
    /// When the wait ends at the latest, if it has a timeout.
    pub open spec fn deadline(self) -> int {
        self.start + (self.timeout->0 as i64)
    }

    /// The end of the wait can be told.
    pub open spec fn wf(self) -> bool {
        self.timeout is Some ==> i64::MIN <= self.deadline() <= i64::MAX
    }

    /// The wait has timed out.
    pub open spec fn timed_out(self, now: i64) -> bool {
        self.timeout is Some && now >= self.deadline()
    }

    /// The future is not ready: it is polled again once the thread was woken.
    pub open spec fn idle(self, notify: ThreadNotify, now: i64) -> (
        BlockOn,
        ThreadNotify,
        BlockAction,
    ) {
        if notify.woken {
            (self, ThreadNotify { woken: false, unparked: false, ..notify }, BlockAction::PollFuture)
        } else if self.timed_out(now) {
            (self, notify, BlockAction::TimedOut)
        } else {
            (
                BlockOn { polling: true, ..self },
                notify,
                BlockAction::AskDelay { enter_polling: !self.polling },
            )
        }
    }

    /// The wait after an event, with what is to be done.
    pub open spec fn after(self, notify: ThreadNotify, event: BlockEvent) -> (
        BlockOn,
        ThreadNotify,
        BlockAction,
    ) {
        match event {
            BlockEvent::Start => (
                self,
                ThreadNotify { woken: false, unparked: false, ..notify },
                BlockAction::PollFuture,
            ),
            BlockEvent::Polled { ready, now } => if ready {
                (BlockOn { polling: false, ..self }, notify, BlockAction::Return)
            } else {
                self.idle(notify, now)
            },
            BlockEvent::Driven { now } => self.idle(notify, now),
            BlockEvent::Delay(delay) => if !notify.woken && (delay is None || delay->0
                > BLOCKING_DELAY) {
                (
                    BlockOn { polling: false, ..self },
                    ThreadNotify { unparked: false, ..notify },
                    BlockAction::Sleep {
                        block: if notify.unparked {
                            None
                        } else {
                            Some(delay)
                        },
                    },
                )
            } else {
                (self, notify, BlockAction::Drive)
            },
        }
    }

    /// A wait that begins now, in polling mode.
    pub fn new(start: i64, timeout: Option<u64>) -> (wait: Self)
        ensures
            wait == (BlockOn { start, timeout, polling: true }),
    {
        BlockOn { start, timeout, polling: true }
    }

    /// One step of the wait: given what happened last, what is to be done next.
    ///
    /// The thread blocks only while nothing has woken it and the interface wants to be left alone
    /// for a while, and never in polling mode.
    pub fn block_on(&mut self, notify: &mut ThreadNotify, event: BlockEvent) -> (action:
        BlockAction)
        requires
            old(self).wf(),
        ensures
            (*final(self), *final(notify), action) == old(self).after(*old(notify), event),
            final(self).wf(),
    {
        match event {
            BlockEvent::Start => {
                notify.reset();
                BlockAction::PollFuture
            },
            BlockEvent::Polled { ready: true, .. } => {
                self.polling = false;
                BlockAction::Return
            },
            BlockEvent::Polled { ready: false, now } => self.while_idle(notify, now),
            BlockEvent::Driven { now } => self.while_idle(notify, now),
            BlockEvent::Delay(delay) => {
                let long = match delay {
                    None => true,
                    Some(delay) => delay > BLOCKING_DELAY,
                };
                if !notify.was_woken() && long {
                    self.polling = false;
                    if !notify.swap_unparked() {
                        BlockAction::Sleep { block: Some(delay) }
                    } else {
                        BlockAction::Sleep { block: None }
                    }
                } else {
                    BlockAction::Drive
                }
            },
        }
    }

    fn while_idle(&mut self, notify: &mut ThreadNotify, now: i64) -> (action: BlockAction)
        requires
            old(self).wf(),
        ensures
            (*final(self), *final(notify), action) == old(self).idle(*old(notify), now),
    {
        if notify.was_woken() {
            notify.reset();
            return BlockAction::PollFuture;
        }
        if let Some(timeout) = self.timeout {
            if now >= self.start + (timeout as i64) {
                return BlockAction::TimedOut;
            }
        }
        let enter_polling = !self.polling;
        self.polling = true;
        BlockAction::AskDelay { enter_polling }
    }
}

/// The error of a wait that timed out.
pub open spec fn timed_out_error() -> Error {
    Error { kind: ErrorKind::TimedOut, msg: "executor timed out" }
}

/// What a wait gives back: what the future gave, or the error that it timed out.
pub fn block_result<T>(ready: Option<T>) -> (result: IoResult<T>)
    ensures
        result == (match ready {
            Some(value) => Ok(value),
            None => Err(timed_out_error()),
        }),
{
    match ready {
        Some(value) => Ok(value),
        None => Err(Error::new(ErrorKind::TimedOut, "executor timed out")),
    }
}

/// A wakeup is not lost: if the thread was woken since its wakeups were forgotten, it does not
/// block, and once the interface has answered or was polled the future is polled again.
pub proof fn law_wakeup_is_not_lost(
    wait: BlockOn,
    notify: ThreadNotify,
    delay: Option<u64>,
    now: i64,
)
    ensures
        ({
            let woken = ThreadNotify { woken: true, unparked: true, ..notify };
            &&& wait.after(woken, BlockEvent::Delay(delay)).2 == BlockAction::Drive
            &&& wait.after(woken, BlockEvent::Driven { now }).2 == BlockAction::PollFuture
            &&& wait.after(woken, BlockEvent::Polled { ready: false, now }).2
                == BlockAction::PollFuture
        }),
{
}

/// Whatever happens, the thread blocks only out of polling mode, if it was not woken, no wakeup is
/// remembered and the interface asks for no poll or for one after the blocking delay; it then
/// blocks for as long as the interface said.
pub proof fn law_blocks_only_when_idle(wait: BlockOn, notify: ThreadNotify, event: BlockEvent)
    ensures
        ({
            let (after, _, action) = wait.after(notify, event);
            action matches BlockAction::Sleep { block } ==> {
                &&& !after.polling
                &&& !notify.woken
                &&& block matches Some(time) ==> {
                    &&& !notify.unparked
                    &&& event == BlockEvent::Delay(time)
                    &&& time matches Some(delay) ==> delay > BLOCKING_DELAY
                }
            }
        }),
{
}

/// A wait times out only at its deadline or later, and only while the future is not ready; a wait
/// without a timeout never does.
pub proof fn law_times_out_at_deadline(wait: BlockOn, notify: ThreadNotify, event: BlockEvent)
    ensures
        wait.after(notify, event).2 == BlockAction::TimedOut ==> {
            &&& wait.timeout is Some
            &&& match event {
                BlockEvent::Polled { ready, now } => !ready && now >= wait.deadline(),
                BlockEvent::Driven { now } => now >= wait.deadline(),
                _ => false,
            }
        },
{
}

/// A future that is ready ends the wait, whatever the time and whoever woke the thread.
pub proof fn law_ready_future_returns(wait: BlockOn, notify: ThreadNotify, now: i64)
    ensures
        wait.after(notify, BlockEvent::Polled { ready: true, now }).2 == BlockAction::Return,
{
}

/// A wait whose deadline has come times out as soon as it is known that the future is not ready, in
/// polling mode or not, unless the thread was woken.
pub proof fn law_deadline_ends_the_wait(
    wait: BlockOn,
    notify: ThreadNotify,
    timeout: u64,
    now: i64,
)
    requires
        wait.timeout == Some(timeout),
        timeout <= i64::MAX,
        now >= wait.start + timeout,
        !notify.woken,
    ensures
        wait.after(notify, BlockEvent::Polled { ready: false, now }) == (
            wait,
            notify,
            BlockAction::TimedOut,
        ),
        wait.after(notify, BlockEvent::Driven { now }) == (wait, notify, BlockAction::TimedOut),
{
}

/// A wait whose deadline has not come, or that has none, goes on: the interface is asked for its
/// delay in polling mode, which is entered if it was left.
pub proof fn law_wait_goes_on_before_its_deadline(
    wait: BlockOn,
    notify: ThreadNotify,
    now: i64,
)
    requires
        !notify.woken,
        wait.timeout matches Some(timeout) ==> timeout <= i64::MAX && now < wait.start + timeout,
    ensures
        ({
            let expected = (
                BlockOn { polling: true, ..wait },
                notify,
                BlockAction::AskDelay { enter_polling: !wait.polling },
            );
            &&& wait.after(notify, BlockEvent::Polled { ready: false, now }) == expected
            &&& wait.after(notify, BlockEvent::Driven { now }) == expected
        }),
{
}

/// A thread that was not woken sleeps once the interface asks for no poll within a second: it
/// leaves polling mode, and blocks for as long as the interface said unless a wakeup is remembered,
/// which is then forgotten. If a poll is asked for earlier, or the thread was woken, it drives on.
pub proof fn law_idle_thread_sleeps(wait: BlockOn, notify: ThreadNotify, delay: Option<u64>)
    ensures
        wait.after(notify, BlockEvent::Delay(delay)) == (if notify.woken || (delay matches Some(
            millis,
        ) && millis <= 1000) {
            (wait, notify, BlockAction::Drive)
        } else {
            (
                BlockOn { polling: false, ..wait },
                ThreadNotify { unparked: false, ..notify },
                BlockAction::Sleep {
                    block: if notify.unparked {
                        None
                    } else {
                        Some(delay)
                    },
                },
            )
        }),
{
}

/// A wait begins, and goes on after a wakeup, by polling the future, with all wakeups forgotten. It
/// ends out of polling mode.
pub proof fn law_wakeups_are_forgotten_before_a_poll(
    wait: BlockOn,
    notify: ThreadNotify,
    now: i64,
)
    ensures
        ({
            let quiet = ThreadNotify { woken: false, unparked: false, ..notify };
            let polled = (wait, quiet, BlockAction::PollFuture);
            &&& wait.after(notify, BlockEvent::Start) == polled
            &&& notify.woken ==> wait.after(notify, BlockEvent::Driven { now }) == polled
            &&& notify.woken ==> wait.after(notify, BlockEvent::Polled { ready: false, now })
                == polled
            &&& wait.after(notify, BlockEvent::Polled { ready: true, now }) == (
                BlockOn { polling: false, ..wait },
                notify,
                BlockAction::Return,
            )
        }),
{
}

/// The error of a wait that timed out says so.
pub proof fn law_timeout_is_told()
    ensures
        timed_out_error().kind == ErrorKind::TimedOut,
{
}

/// The executor runs in polling mode: it is entered first, the interface is polled at least once
/// and as long as tasks give it work, and then it is left.
pub proof fn law_executor_runs_while_there_is_work(woken: bool)
    ensures
        next_run(RunEvent::Start) == RunAction::Enter,
        next_run(RunEvent::Entered) == RunAction::Poll,
        next_run(RunEvent::Polled { woken }) == RunAction::Poll <==> woken,
        next_run(RunEvent::Polled { woken }) == RunAction::Leave <==> !woken,
{
}

} // verus!
