//! Running tasks and blocking on futures.
use hermit_sys::executor::{
    block_result, run_executor, BlockAction, BlockEvent, BlockOn, RunAction, RunEvent, TaskQueue,
    ThreadNotify,
};
use hermit_sys::io::{Error, ErrorKind};

#[test]
fn tasks_run_in_the_order_they_were_scheduled() {
    let mut queue = TaskQueue::new();
    assert!(queue.execute_all().is_empty());
    queue.schedule(3);
    queue.schedule(1);
    queue.schedule(3);
    assert_eq!(queue.execute_all(), vec![3, 1, 3]);
    assert!(queue.execute_all().is_empty());
    queue.schedule(7);
    assert_eq!(queue.execute_all(), vec![7]);
}

#[test]
fn oldest_task_is_next() {
    let mut queue = TaskQueue::new();
    assert_eq!(queue.next_task(), None);
    queue.schedule(5);
    queue.schedule(2);
    assert_eq!(queue.next_task(), Some(5));
    queue.schedule(9);
    assert_eq!(queue.next_task(), Some(2));
    assert_eq!(queue.execute_all(), vec![9]);
    assert_eq!(queue.next_task(), None);
}

#[test]
fn executor_polls_while_the_interface_is_woken() {
    assert_eq!(run_executor(RunEvent::Start), RunAction::Enter);
    assert_eq!(run_executor(RunEvent::Entered), RunAction::Poll);
    assert_eq!(run_executor(RunEvent::Polled { woken: true }), RunAction::Poll);
    assert_eq!(run_executor(RunEvent::Polled { woken: false }), RunAction::Leave);
}

#[test]
fn first_wakeup_is_handed_on() {
    let mut notify = ThreadNotify::new(5);
    assert_eq!(notify.thread, 5);
    assert!(!notify.was_woken());
    assert!(notify.wake_by_ref());
    assert!(notify.was_woken());
    assert!(!notify.wake());
    assert!(notify.swap_unparked());
    assert!(!notify.swap_unparked());
    assert!(notify.wake());
    notify.reset();
    assert!(!notify.was_woken());
    assert!(!notify.swap_unparked());
}

#[test]
fn ready_future_ends_the_wait() {
    let mut notify = ThreadNotify::new(1);
    let mut wait = BlockOn::new(100, Some(50));
    assert_eq!(wait.block_on(&mut notify, BlockEvent::Start), BlockAction::PollFuture);
    let ready = BlockEvent::Polled { ready: true, now: 1000 };
    assert_eq!(wait.block_on(&mut notify, ready), BlockAction::Return);
    assert!(!wait.polling);
    assert_eq!(block_result(Some(3)), Ok(3));
}

#[test]
fn wait_times_out_at_its_deadline() {
    let mut notify = ThreadNotify::new(1);
    let mut wait = BlockOn::new(100, Some(50));
    let early = BlockEvent::Polled { ready: false, now: 149 };
    let ask = BlockAction::AskDelay { enter_polling: false };
    assert_eq!(wait.block_on(&mut notify, early), ask);
    let late = BlockEvent::Driven { now: 150 };
    assert_eq!(wait.block_on(&mut notify, late), BlockAction::TimedOut);
    let timed_out = Error::new(ErrorKind::TimedOut, "executor timed out");
    assert_eq!(block_result::<u8>(None), Err(timed_out));
    let mut endless = BlockOn::new(100, None);
    let much_later = BlockEvent::Driven { now: i64::MAX };
    assert_eq!(endless.block_on(&mut notify, much_later), ask);
}

#[test]
fn thread_blocks_only_when_idle() {
    let mut notify = ThreadNotify::new(1);
    let mut wait = BlockOn::new(0, None);
    assert_eq!(wait.block_on(&mut notify, BlockEvent::Delay(Some(1000))), BlockAction::Drive);
    assert!(wait.polling);
    let sleep = BlockAction::Sleep { block: Some(Some(1001)) };
    assert_eq!(wait.block_on(&mut notify, BlockEvent::Delay(Some(1001))), sleep);
    assert!(!wait.polling);
    let ask = BlockAction::AskDelay { enter_polling: true };
    assert_eq!(wait.block_on(&mut notify, BlockEvent::Driven { now: 5 }), ask);
    let endless = BlockAction::Sleep { block: Some(None) };
    assert_eq!(wait.block_on(&mut notify, BlockEvent::Delay(None)), endless);
    notify.unparked = true;
    let awake = BlockAction::Sleep { block: None };
    assert_eq!(wait.block_on(&mut notify, BlockEvent::Delay(None)), awake);
    assert!(!notify.unparked);
}

#[test]
fn wakeup_while_idle_is_not_lost() {
    let mut notify = ThreadNotify::new(1);
    let mut wait = BlockOn::new(0, Some(10));
    let pending = BlockEvent::Polled { ready: false, now: 0 };
    let ask = BlockAction::AskDelay { enter_polling: false };
    assert_eq!(wait.block_on(&mut notify, pending), ask);
    notify.wake_by_ref();
    assert_eq!(wait.block_on(&mut notify, BlockEvent::Delay(None)), BlockAction::Drive);
    let driven = BlockEvent::Driven { now: 99 };
    assert_eq!(wait.block_on(&mut notify, driven), BlockAction::PollFuture);
    assert!(!notify.was_woken());
}
