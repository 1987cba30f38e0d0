use miniexec::sleep::{sleep_until, Sleep};
use miniexec::task::{Effect, Effects, Poll};
use miniexec::timer::{TimerEntry, TimerQueue};
use miniexec::wake::WakeRef;
use miniexec::worker::Worker;

#[test]
fn wake_records_readiness_and_notifies() {
    let mut w = Worker::new();
    assert!(!w.is_ready());
    assert!(!w.root_ready());

    // A wake while the driver runs records readiness without notifying.
    let notify = w.wake(WakeRef::Task(5));
    assert!(!notify);
    assert!(w.is_ready());

    // A wake while the driver is parked asks for exactly one notification.
    w.begin_park();
    let notify = w.wake(WakeRef::Task(6));
    assert!(notify);
    assert!(w.is_ready());

    // Both wakeups were durably recorded, in order.
    assert_eq!(w.pop_ready(), Some(5));
    assert_eq!(w.pop_ready(), Some(6));
    assert_eq!(w.pop_ready(), None);

    // The root wake handle sets the root flag instead of queueing.
    let notify = w.wake(WakeRef::Root);
    assert!(!notify);
    assert!(w.root_ready());
    assert_eq!(w.pop_ready(), None);
}

#[test]
fn ready_queue_drains_in_fifo_order() {
    let mut w = Worker::new();
    w.wake(WakeRef::Task(1));
    w.wake(WakeRef::Task(2));
    w.wake(WakeRef::Task(3));
    assert_eq!(w.pop_ready(), Some(1));
    assert_eq!(w.pop_ready(), Some(2));
    assert_eq!(w.pop_ready(), Some(3));
    assert_eq!(w.pop_ready(), None);
}

#[test]
fn timer_service_fires_due_entries_in_deadline_order() {
    let mut w = Worker::new();
    // Registered out of order: deadlines t+300, t+100, t+200 for t = 1000.
    w.register_timer(1300, WakeRef::Task(30));
    w.register_timer(1100, WakeRef::Task(10));
    w.register_timer(1200, WakeRef::Task(20));

    // Serviced at t+250: exactly the second and third fire, ascending.
    let timeout = w.update_timers(1250);
    assert_eq!(timeout, Some(50));
    assert!(w.is_ready());
    assert!(!w.root_ready());
    assert_eq!(w.pop_ready(), Some(10));
    assert_eq!(w.pop_ready(), Some(20));
    assert_eq!(w.pop_ready(), None);

    // Servicing again before the last deadline fires nothing more.
    let timeout = w.update_timers(1250);
    assert_eq!(timeout, Some(50));
    assert_eq!(w.pop_ready(), None);

    // At its deadline the remaining entry fires and none is left.
    let timeout = w.update_timers(1300);
    assert_eq!(timeout, None);
    assert_eq!(w.pop_ready(), Some(30));
    assert_eq!(w.pop_ready(), None);
}

#[test]
fn timer_service_with_root_waker_sets_root_flag() {
    let mut w = Worker::new();
    w.register_timer(700, WakeRef::Root);
    assert_eq!(w.update_timers(699), Some(1));
    assert!(!w.root_ready());
    assert_eq!(w.update_timers(700), None);
    assert!(w.root_ready());
    assert!(w.is_ready());
}

#[test]
fn equal_deadlines_fire_in_registration_order() {
    let mut w = Worker::new();
    w.register_timer(100, WakeRef::Task(1));
    w.register_timer(100, WakeRef::Task(2));
    assert_eq!(w.update_timers(100), None);
    assert_eq!(w.pop_ready(), Some(1));
    assert_eq!(w.pop_ready(), Some(2));
    assert_eq!(w.pop_ready(), None);
}

#[test]
fn timer_queue_orders_entries() {
    let mut q = TimerQueue::new();
    assert_eq!(q.peek_deadline(), None);
    assert_eq!(q.pop_due(u64::MAX), None);

    q.push(TimerEntry { deadline: 30, waker: WakeRef::Task(3) });
    q.push(TimerEntry { deadline: 10, waker: WakeRef::Task(1) });
    q.push(TimerEntry { deadline: 20, waker: WakeRef::Task(2) });
    assert_eq!(q.len(), 3);
    assert_eq!(q.peek_deadline(), Some(10));

    // Nothing is due strictly before the earliest deadline.
    assert_eq!(q.pop_due(9), None);
    assert_eq!(q.pop_due(10), Some(TimerEntry { deadline: 10, waker: WakeRef::Task(1) }));
    assert_eq!(q.peek_deadline(), Some(20));
    assert_eq!(q.pop_due(25), Some(TimerEntry { deadline: 20, waker: WakeRef::Task(2) }));
    assert_eq!(q.pop_due(25), None);
    assert_eq!(q.len(), 1);
}

#[test]
fn sleep_registers_exactly_one_timer() {
    let mut s: Sleep = sleep_until(500);
    assert_eq!(s.deadline, 500);
    assert!(!s.registered);

    // First poll before the deadline registers one timer entry.
    let mut fx: Effects<Sleep> = Effects::new();
    let r = s.poll_step(100, &mut fx);
    assert!(matches!(r, Poll::Pending));
    assert!(s.registered);
    let list = fx.into_list();
    assert_eq!(list.len(), 1);
    assert!(matches!(list[0], Effect::Timer(500)));

    // A repeated poll before the deadline registers nothing more.
    let mut fx: Effects<Sleep> = Effects::new();
    let r = s.poll_step(200, &mut fx);
    assert!(matches!(r, Poll::Pending));
    let list = fx.into_list();
    assert_eq!(list.len(), 0);

    // At the deadline the wait completes with the observed instant.
    let mut fx: Effects<Sleep> = Effects::new();
    let r = s.poll_step(500, &mut fx);
    assert_eq!(r, Poll::Ready(500));
    assert_eq!(fx.into_list().len(), 0);
}

#[test]
fn sleep_past_deadline_completes_without_registering() {
    let mut s: Sleep = sleep_until(40);
    let mut fx: Effects<Sleep> = Effects::new();
    let r = s.poll_step(90, &mut fx);
    assert_eq!(r, Poll::Ready(90));
    assert!(!s.registered);
    assert_eq!(fx.into_list().len(), 0);
}
