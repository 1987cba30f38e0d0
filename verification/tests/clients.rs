use miniexec::channel::channel;
use miniexec::mutex::{AsyncMutex, AsyncMutexGuard};
use miniexec::task::Poll;
use miniexec::wake::WakeRef;

fn expect_guard(p: Poll<AsyncMutexGuard>) -> AsyncMutexGuard {
    match p {
        Poll::Ready(g) => g,
        Poll::Pending => panic!("expected the lock to be acquired"),
    }
}

#[test]
fn channel_delivers_in_fifo_order() {
    let (mut ch, tx, rx) = channel::<u32>();
    assert_eq!(tx.send(&mut ch, 1), Ok(None));
    assert_eq!(tx.send(&mut ch, 2), Ok(None));
    assert_eq!(rx.recv(&mut ch, WakeRef::Task(4)), Poll::Ready(Some(1)));
    assert_eq!(rx.recv(&mut ch, WakeRef::Task(4)), Poll::Ready(Some(2)));
}

#[test]
fn channel_send_hands_back_the_registered_waker() {
    let (mut ch, tx, rx) = channel::<u32>();

    // An empty channel with a live sender leaves the consumer waiting.
    assert_eq!(rx.recv(&mut ch, WakeRef::Task(4)), Poll::Pending);

    // The next send takes the registered wake handle for the caller to
    // invoke, exactly once.
    assert_eq!(tx.send(&mut ch, 9), Ok(Some(WakeRef::Task(4))));
    assert_eq!(tx.send(&mut ch, 10), Ok(None));
    assert_eq!(rx.recv(&mut ch, WakeRef::Task(4)), Poll::Ready(Some(9)));
}

#[test]
fn channel_send_fails_once_receiver_is_gone() {
    let (mut ch, tx, rx) = channel::<u32>();
    rx.close(&mut ch);
    assert_eq!(tx.send(&mut ch, 5), Err(5));
}

#[test]
fn channel_recv_reports_closed_after_last_sender() {
    let (mut ch, tx, rx) = channel::<u32>();
    let tx2 = tx.duplicate(&mut ch);

    // The consumer waits; dropping one of two senders wakes no one.
    assert_eq!(rx.recv(&mut ch, WakeRef::Root), Poll::Pending);
    assert_eq!(tx2.close(&mut ch), None);

    // The last sender to go hands back the consumer's wake handle, and the
    // woken consumer then observes the closed channel.
    assert_eq!(tx.close(&mut ch), Some(WakeRef::Root));
    assert_eq!(rx.recv(&mut ch, WakeRef::Root), Poll::Ready(None));
}

#[test]
fn mutex_free_lock_is_acquired_on_first_poll() {
    let mut m = AsyncMutex::new(0u32);
    let mut a = m.lock();
    let g = expect_guard(a.poll(&mut m, WakeRef::Task(1)));
    assert_eq!(*g.get(&m), 0);
    *g.get_mut(&mut m) = 5;
    assert_eq!(*g.get(&m), 5);
    assert_eq!(g.release(&mut m), None);

    // Released with no one waiting: free again, claimable at once.
    let mut b = m.lock();
    expect_guard(b.poll(&mut m, WakeRef::Task(2)));
}

#[test]
fn mutex_hands_the_lock_over_in_fifo_order() {
    let mut m = AsyncMutex::new(());
    let mut a0 = m.lock();
    let g0 = expect_guard(a0.poll(&mut m, WakeRef::Task(10)));

    // Two contenders queue up behind the holder, in order.
    let mut a1 = m.lock();
    let mut a2 = m.lock();
    assert!(matches!(a1.poll(&mut m, WakeRef::Task(11)), Poll::Pending));
    assert!(matches!(a2.poll(&mut m, WakeRef::Task(12)), Poll::Pending));

    // Release hands the lock to the longest waiter and returns its wake
    // handle; the woken contender finds its ticket gone and completes.
    assert_eq!(g0.release(&mut m), Some(WakeRef::Task(11)));
    let g1 = expect_guard(a1.poll(&mut m, WakeRef::Task(11)));
    assert_eq!(g1.release(&mut m), Some(WakeRef::Task(12)));
    let g2 = expect_guard(a2.poll(&mut m, WakeRef::Task(12)));
    assert_eq!(g2.release(&mut m), None);
}

#[test]
fn mutex_cancelled_waiter_leaves_the_queue() {
    let mut m = AsyncMutex::new(());
    let mut a0 = m.lock();
    let g0 = expect_guard(a0.poll(&mut m, WakeRef::Task(10)));

    let mut a1 = m.lock();
    assert!(matches!(a1.poll(&mut m, WakeRef::Task(11)), Poll::Pending));

    // The waiter gives up: no one is woken, and the release finds an empty
    // queue.
    assert_eq!(a1.cancel(&mut m), None);
    assert_eq!(g0.release(&mut m), None);
}

#[test]
fn mutex_cancelled_next_owner_passes_the_lock_on() {
    let mut m = AsyncMutex::new(());
    let mut a0 = m.lock();
    let g0 = expect_guard(a0.poll(&mut m, WakeRef::Task(10)));

    let a1 = m.lock();
    let mut a2 = m.lock();
    assert!(matches!(a2.poll(&mut m, WakeRef::Task(12)), Poll::Pending));

    // The release removes the never-polled front waiter from the queue; it
    // registered no wake handle, so there is no one to notify.
    assert_eq!(g0.release(&mut m), None);

    // That waiter abandons the acquisition instead of completing it: the
    // lock passes to the next contender, whose wake handle comes back.
    assert_eq!(a1.cancel(&mut m), Some(WakeRef::Task(12)));
    let g2 = expect_guard(a2.poll(&mut m, WakeRef::Task(12)));
    assert_eq!(g2.release(&mut m), None);

    // The lock ends free: a fresh acquisition completes at once.
    let mut a3 = m.lock();
    expect_guard(a3.poll(&mut m, WakeRef::Task(13)));
}

#[test]
fn mutex_cancel_after_acquiring_changes_nothing() {
    let mut m = AsyncMutex::new(());
    let mut a0 = m.lock();
    let g0 = expect_guard(a0.poll(&mut m, WakeRef::Task(10)));

    let mut a1 = m.lock();
    assert!(matches!(a1.poll(&mut m, WakeRef::Task(11)), Poll::Pending));

    // An Acquire that already yielded its guard is inert when abandoned.
    assert_eq!(a0.cancel(&mut m), None);
    assert_eq!(g0.release(&mut m), Some(WakeRef::Task(11)));
    let g1 = expect_guard(a1.poll(&mut m, WakeRef::Task(11)));
    assert_eq!(g1.release(&mut m), None);
}
