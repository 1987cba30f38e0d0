use std::cell::RefCell;
use std::rc::Rc;

use miniexec::exec::{block_on, Runtime};
use miniexec::sleep::{sleep_until, Sleep};
use miniexec::task::{Computation, Effects, Poll};
use miniexec::wake::WakeRef;

/// A spawnable task for the scenarios: completes on its first poll,
/// recording its label in a shared log.
struct Noop {
    label: usize,
    log: Rc<RefCell<Vec<usize>>>,
}

impl Computation<Noop> for Noop {
    type Output = ();

    fn poll(&mut self, _now: u64, _me: WakeRef, _fx: &mut Effects<Noop>) -> Poll<()> {
        self.log.borrow_mut().push(self.label);
        Poll::Ready(())
    }
}

/// A root that spawns three immediately-ready tasks on its first poll and
/// then awaits a timed wait, completing with the instant it resumed.
struct SpawnThenSleep {
    spawned: bool,
    sleep: Sleep,
    log: Rc<RefCell<Vec<usize>>>,
}

impl Computation<Noop> for SpawnThenSleep {
    type Output = u64;

    fn poll(&mut self, now: u64, _me: WakeRef, fx: &mut Effects<Noop>) -> Poll<u64> {
        if !self.spawned {
            for label in 0..3 {
                fx.spawn(Noop { label, log: Rc::clone(&self.log) });
            }
            self.spawned = true;
        }
        self.sleep.poll_step(now, fx)
    }
}

#[test]
fn end_to_end_spawn_three_and_sleep() {
    let log: Rc<RefCell<Vec<usize>>> = Rc::new(RefCell::new(Vec::new()));
    let root = SpawnThenSleep {
        spawned: false,
        sleep: sleep_until(1050),
        log: Rc::clone(&log),
    };
    let woke = block_on::<Noop, SpawnThenSleep>(root, 1000, 100);

    // The wait resolves no earlier than its deadline; with no scheduling
    // lag in the deterministic clock, exactly at it.
    assert_eq!(woke, Some(1050));

    // All three spawned tasks completed during the initial drain, in the
    // order they were spawned.
    assert_eq!(*log.borrow(), vec![0, 1, 2]);
}

/// A root whose wake handle fires from inside its own poll: first poll
/// reports "not yet" after invoking its own handle, second completes.
struct SelfWake {
    polls: u32,
}

impl Computation<Noop> for SelfWake {
    type Output = u32;

    fn poll(&mut self, _now: u64, me: WakeRef, fx: &mut Effects<Noop>) -> Poll<u32> {
        self.polls += 1;
        if self.polls == 1 {
            fx.wake(me);
            Poll::Pending
        } else {
            Poll::Ready(self.polls)
        }
    }
}

#[test]
fn wake_from_inside_poll_is_not_lost() {
    // The wakeup lands before the driver decides whether to park; the
    // parking loop re-checks and must not sleep past it.
    let r = block_on::<Noop, SelfWake>(SelfWake { polls: 0 }, 0, 10);
    assert_eq!(r, Some(2));
}

/// A root that spawns one task, then keeps invoking that task's wake
/// handle after the task has completed, before finishing on its third poll.
struct StaleWaker {
    polls: u32,
}

impl Computation<Noop> for StaleWaker {
    type Output = u32;

    fn poll(&mut self, _now: u64, me: WakeRef, fx: &mut Effects<Noop>) -> Poll<u32> {
        self.polls += 1;
        if self.polls == 1 {
            fx.spawn(Noop { label: 0, log: Rc::new(RefCell::new(Vec::new())) });
            fx.wake(me);
            Poll::Pending
        } else if self.polls == 2 {
            // The spawned task completed during the first drain; its wake
            // handle must now be a harmless no-op.
            fx.wake(WakeRef::Task(0));
            fx.wake(WakeRef::Task(0));
            fx.wake(me);
            Poll::Pending
        } else {
            Poll::Ready(self.polls)
        }
    }
}

#[test]
fn stale_wake_after_completion_is_harmless() {
    let r = block_on::<Noop, StaleWaker>(StaleWaker { polls: 0 }, 0, 20);
    assert_eq!(r, Some(3));
}

/// A root that always reports "not yet" without arranging any wakeup.
struct NeverReady {}

impl Computation<Noop> for NeverReady {
    type Output = ();

    fn poll(&mut self, _now: u64, _me: WakeRef, _fx: &mut Effects<Noop>) -> Poll<()> {
        Poll::Pending
    }
}

#[test]
fn park_with_nothing_pending_reports_none() {
    // No ready work, no timer, no other thread: the driver would park
    // forever, and reports it instead.
    let r = block_on::<Noop, NeverReady>(NeverReady {}, 0, 10);
    assert_eq!(r, None);
}

/// A root that re-wakes itself on every poll, starving the parking step.
struct Livelock {}

impl Computation<Noop> for Livelock {
    type Output = ();

    fn poll(&mut self, _now: u64, me: WakeRef, fx: &mut Effects<Noop>) -> Poll<()> {
        fx.wake(me);
        Poll::Pending
    }
}

#[test]
fn perpetual_self_wake_exhausts_the_budget() {
    let r = block_on::<Noop, Livelock>(Livelock {}, 0, 25);
    assert_eq!(r, None);
}

/// A spawnable task that waits for its own deadline before recording its
/// label.
struct SleepyTask {
    sleep: Sleep,
    label: usize,
    log: Rc<RefCell<Vec<usize>>>,
}

impl Computation<SleepyTask> for SleepyTask {
    type Output = ();

    fn poll(&mut self, now: u64, _me: WakeRef, fx: &mut Effects<SleepyTask>) -> Poll<()> {
        match self.sleep.poll_step(now, fx) {
            Poll::Ready(_) => {
                self.log.borrow_mut().push(self.label);
                Poll::Ready(())
            }
            Poll::Pending => Poll::Pending,
        }
    }
}

/// A root that spawns two timed tasks with deadlines in reverse order and
/// then sleeps past both.
struct TimedRoot {
    spawned: bool,
    sleep: Sleep,
    log: Rc<RefCell<Vec<usize>>>,
}

impl Computation<SleepyTask> for TimedRoot {
    type Output = u64;

    fn poll(&mut self, now: u64, _me: WakeRef, fx: &mut Effects<SleepyTask>) -> Poll<u64> {
        if !self.spawned {
            fx.spawn(SleepyTask { sleep: sleep_until(30), label: 0, log: Rc::clone(&self.log) });
            fx.spawn(SleepyTask { sleep: sleep_until(10), label: 1, log: Rc::clone(&self.log) });
            self.spawned = true;
        }
        self.sleep.poll_step(now, fx)
    }
}

#[test]
fn suspended_tasks_resume_in_deadline_order() {
    let log: Rc<RefCell<Vec<usize>>> = Rc::new(RefCell::new(Vec::new()));
    let root = TimedRoot { spawned: false, sleep: sleep_until(100), log: Rc::clone(&log) };
    let woke = block_on::<SleepyTask, TimedRoot>(root, 0, 100);
    assert_eq!(woke, Some(100));

    // The task with the earlier deadline resumed and completed first, even
    // though it was spawned second.
    assert_eq!(*log.borrow(), vec![1, 0]);
}

#[test]
fn runtime_spawn_and_stale_wake() {
    let log: Rc<RefCell<Vec<usize>>> = Rc::new(RefCell::new(Vec::new()));
    let mut rt: Runtime<Noop> = Runtime::new();
    assert!(!rt.worker().is_ready());

    let (a, notify_a) = rt.spawn(Noop { label: 7, log: Rc::clone(&log) });
    let (b, notify_b) = rt.spawn(Noop { label: 8, log: Rc::clone(&log) });
    assert_eq!(a, 0);
    assert_eq!(b, 1);
    // The driver was running, not parked, so no signal is owed.
    assert!(!notify_a);
    assert!(!notify_b);
    assert!(rt.worker().is_ready());

    // A wake handle for a slot that never existed records readiness and
    // nothing else: no panic, no effect on other tasks.
    let notify = rt.wake(WakeRef::Task(99));
    assert!(!notify);
    assert!(rt.worker().is_ready());
}
