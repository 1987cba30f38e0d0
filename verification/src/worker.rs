//! The worker: shared scheduler state and the waking protocol.
//!
//! A `Worker` owns the flag marking the root computation ready, the FIFO
//! queue of ready task slots, the deadline-ordered timer queue, and the
//! tri-state run flag.  Every mutation is a small step with an exact
//! contract, stated over the abstract view `WorkerView`; the laws at the end
//! of the module say what the waking protocol guarantees: a wakeup is never
//! lost, tasks woken in order drain in that order, and servicing timers
//! fires exactly the due entries in ascending deadline order.

use std::collections::VecDeque;
use vstd::prelude::*;

use crate::timer::{deadline_sorted, due_count, TimerEntry, TimerQueue};
use crate::wake::WakeRef;

verus! {

/// What the driver thread is doing: actively polling (`Running`), blocked
/// waiting for a wakeup or deadline (`Parked`), or holding an unconsumed
/// wakeup (`Ready`).
#[derive(Clone, Copy, PartialEq, Eq, Structural, Debug)]
pub enum WorkerState {
    Running,
    Parked,
    Ready,
}

/// The abstract state of a worker: the mathematical model every contract in
/// this module speaks of.
pub struct WorkerView {
    /// Whether the root computation has been signaled ready.
    pub root_task: bool,
    /// The ready task slots, front first.
    pub tasks: Seq<usize>,
    /// The pending timer entries, in ascending deadline order.
    pub timers: Seq<TimerEntry>,
    /// The run flag.
    pub state: WorkerState,
}

/// The effect of invoking a wake handle for `u` on worker state `v`: record
/// that `u` must be reconsidered (enqueue the task, or set the root flag)
/// and leave the run flag `Ready` so a parking driver cannot miss it.
pub open spec fn wake_view(v: WorkerView, u: WakeRef) -> WorkerView {
    WorkerView {
        root_task: v.root_task || u is Root,
        tasks: match u {
            WakeRef::Task(i) => v.tasks.push(i),
            WakeRef::Root => v.tasks,
        },
        state: WorkerState::Ready,
        ..v
    }
}

/// Whether `u` is recorded in `v` as needing to be reconsidered.
pub open spec fn pending(v: WorkerView, u: WakeRef) -> bool {
    match u {
        WakeRef::Root => v.root_task,
        WakeRef::Task(i) => v.tasks.contains(i),
    }
}

/// Where a new entry with `deadline` lands in the sorted timer sequence
/// `timers`: behind every entry already due at that deadline.
pub open spec fn register_view(timers: Seq<TimerEntry>, deadline: u64, waker: WakeRef) -> Seq<
    TimerEntry,
> {
    timers.insert(due_count(timers, deadline) as int, TimerEntry { deadline, waker })
}

/// Fire the earliest timer entry of `v`: remove it and invoke its wake
/// handle.
pub open spec fn service_step(v: WorkerView) -> WorkerView
    recommends
        v.timers.len() > 0,
{
    wake_view(WorkerView { timers: v.timers.drop_first(), ..v }, v.timers[0].waker)
}

/// Fire every timer entry whose deadline has elapsed at `now`, earliest
/// first.
pub open spec fn service_view(v: WorkerView, now: u64) -> WorkerView
    decreases v.timers.len(),
{
    if v.timers.len() > 0 && v.timers[0].deadline <= now {
        service_view(service_step(v), now)
    } else {
        v
    }
}

/// The shared scheduler state of one executor invocation.
pub struct Worker {
    root_task: bool,
    tasks: VecDeque<usize>,
    timers: TimerQueue,
    state: WorkerState,
}

impl View for Worker {
    type V = WorkerView;

    closed spec fn view(&self) -> WorkerView {
        WorkerView {
            root_task: self.root_task,
            tasks: self.tasks@,
            timers: self.timers@,
            state: self.state,
        }
    }
}

impl Worker {
    /// The worker's invariant: its timers stand in ascending deadline order.
    pub open spec fn wf(self) -> bool {
        deadline_sorted(self@.timers)
    }

    /// A fresh worker: nothing ready, no timers, driver running.
    pub fn new() -> (w: Self)
        ensures
            w.wf(),
            w@ == (WorkerView {
                root_task: false,
                tasks: Seq::<usize>::empty(),
                timers: Seq::<TimerEntry>::empty(),
                state: WorkerState::Running,
            }),
    {
        Worker {
            root_task: false,
            tasks: VecDeque::new(),
            timers: TimerQueue::new(),
            state: WorkerState::Running,
        }
    }

    /// Invoke a wake handle for `u`: durably record that `u` should be
    /// reconsidered and flip the run flag to `Ready`.  Returns whether the
    /// parking primitive must be signaled, which is the case exactly when
    /// the driver was parked.  Safe for any `u`, including one whose task
    /// has already completed.
    pub fn wake(&mut self, u: WakeRef) -> (notify: bool)
        ensures
            final(self)@ == wake_view(old(self)@, u),
            final(self).wf() == old(self).wf(),
            notify == (old(self)@.state == WorkerState::Parked),
    {
        let notify = self.state == WorkerState::Parked;
        match u {
            WakeRef::Root => {
                self.root_task = true;
            },
            WakeRef::Task(i) => {
                self.tasks.push_back(i);
            },
        }
        self.state = WorkerState::Ready;
        notify
    }

    /// Pop the front of the ready queue, if any: the task that became ready
    /// earliest among those still queued.
    pub fn pop_ready(&mut self) -> (r: Option<usize>)
        ensures
            final(self).wf() == old(self).wf(),
            match r {
                Some(i) => {
                    &&& old(self)@.tasks.len() > 0
                    &&& i == old(self)@.tasks[0]
                    &&& final(self)@ == (WorkerView {
                        tasks: old(self)@.tasks.drop_first(),
                        ..old(self)@
                    })
                },
                None => {
                    &&& old(self)@.tasks.len() == 0
                    &&& final(self)@ == old(self)@
                },
            },
    {
        let r = self.tasks.pop_front();
        proof {
            if r is Some {
                assert(final(self)@.tasks =~= old(self)@.tasks.drop_first());
            }
        }
        r
    }

    /// Whether the root computation has been signaled ready.
    pub fn root_ready(&self) -> (r: bool)
        ensures
            r == self@.root_task,
    {
        self.root_task
    }

    /// Whether an unconsumed wakeup is recorded.
    pub fn is_ready(&self) -> (r: bool)
        ensures
            r == (self@.state == WorkerState::Ready),
    {
        self.state == WorkerState::Ready
    }

    /// Announce that the driver is about to block on the parking primitive.
    pub fn begin_park(&mut self)
        ensures
            final(self)@ == (WorkerView { state: WorkerState::Parked, ..old(self)@ }),
            final(self).wf() == old(self).wf(),
    {
        self.state = WorkerState::Parked;
    }

    /// Consume the recorded wakeup: announce that the driver is polling
    /// again.
    pub fn set_running(&mut self)
        ensures
            final(self)@ == (WorkerView { state: WorkerState::Running, ..old(self)@ }),
            final(self).wf() == old(self).wf(),
    {
        self.state = WorkerState::Running;
    }

    /// Register a timed wakeup: fire `waker` once `deadline` has elapsed.
    /// The entry takes its place in deadline order, behind those already
    /// registered for the same deadline.
    pub fn register_timer(&mut self, deadline: u64, waker: WakeRef)
        requires
            old(self).wf(),
        ensures
            final(self).wf(),
            final(self)@.timers.len() == old(self)@.timers.len() + 1,
            final(self)@ == (WorkerView {
                timers: register_view(old(self)@.timers, deadline, waker),
                ..old(self)@
            }),
    {
        self.timers.push(TimerEntry { deadline, waker });
    }

    /// Fire every timer whose deadline has elapsed at `now`, earliest first,
    /// invoking each one's wake handle; then report how long until the next
    /// deadline, or `None` when no timer is pending.  A wake handle here is
    /// plain data — a queue entry or the root flag — so firing it is a pure
    /// state step, never a call into user code that could need the lock
    /// guarding this worker.
    pub fn update_timers(&mut self, now: u64) -> (timeout: Option<u64>)
        requires
            old(self).wf(),
        ensures
            final(self).wf(),
            final(self)@ == service_view(old(self)@, now),
            match timeout {
                Some(t) => {
                    &&& final(self)@.timers.len() > 0
                    &&& final(self)@.timers[0].deadline > now
                    &&& t == final(self)@.timers[0].deadline - now
                },
                None => final(self)@.timers.len() == 0,
            },
    {
        loop
            invariant
                self.wf(),
                service_view(self@, now) == service_view(old(self)@, now),
            decreases self@.timers.len(),
        {
            let ghost prev = self@;
            let due = self.timers.pop_due(now);
            match due {
                None => {
                    proof {
                        assert(service_view(self@, now) == self@);
                    }
                    match self.timers.peek_deadline() {
                        None => {
                            return None;
                        },
                        Some(d) => {
                            return Some(d - now);
                        },
                    }
                },
                Some(e) => {
                    self.wake(e.waker);
                    proof {
                        assert(self@ == service_step(prev));
                        assert(service_view(prev, now) == service_view(self@, now));
                    }
                },
            }
        }
    }
}

/// Law: no lost wakeup.  Invoking a wake handle leaves the run flag
/// `Ready`, so the driver's parking loop, which re-checks the flag under the
/// same lock before sleeping, cannot park past it; the woken unit is
/// recorded as pending, and no unit that was already pending is forgotten.
pub proof fn lemma_wake_never_lost(v: WorkerView, u: WakeRef)
    ensures
        wake_view(v, u).state == WorkerState::Ready,
        pending(wake_view(v, u), u),
        forall|u2: WakeRef| pending(v, u2) ==> pending(wake_view(v, u), u2),
{
    let w = wake_view(v, u);
    match u {
        WakeRef::Root => {
        },
        WakeRef::Task(i) => {
            assert(w.tasks[v.tasks.len() as int] == i);
        },
    }
    assert forall|u2: WakeRef| pending(v, u2) implies pending(w, u2) by {
        match u2 {
            WakeRef::Root => {
            },
            WakeRef::Task(j) => {
                let k = choose|k: int| 0 <= k < v.tasks.len() && v.tasks[k] == j;
                assert(w.tasks[k] == j);
            },
        }
    }
}

/// Law: no lost wakeup, across timer servicing.  Firing due timers only
/// invokes further wake handles, so every unit recorded as pending before
/// the service is still pending after it: the driver cannot shed recorded
/// work between draining and parking.
pub proof fn lemma_service_preserves_pending(v: WorkerView, now: u64, u: WakeRef)
    requires
        pending(v, u),
    ensures
        pending(service_view(v, now), u),
    decreases v.timers.len(),
{
    if v.timers.len() > 0 && v.timers[0].deadline <= now {
        let mid = WorkerView { timers: v.timers.drop_first(), ..v };
        assert(pending(mid, u));
        lemma_wake_never_lost(mid, v.timers[0].waker);
        assert(pending(wake_view(mid, v.timers[0].waker), u));
        assert(service_step(v) == wake_view(mid, v.timers[0].waker));
        lemma_service_preserves_pending(service_step(v), now, u);
    }
}

/// Invoke wake handles for the task slots `ids`, in order.
pub open spec fn wake_all(v: WorkerView, ids: Seq<usize>) -> WorkerView
    decreases ids.len(),
{
    if ids.len() == 0 {
        v
    } else {
        wake_all(wake_view(v, WakeRef::Task(ids[0])), ids.drop_first())
    }
}

/// Law: FIFO fairness of the ready queue.  Tasks woken in the order `ids`,
/// with no further wakeups, stand behind the already-queued tasks in exactly
/// that order; since the drain pass pops the front of the queue — as the
/// driver's own contract states through its drain relation — they are
/// polled in that order.
pub proof fn lemma_ready_queue_fifo(v: WorkerView, ids: Seq<usize>)
    ensures
        wake_all(v, ids).tasks == v.tasks + ids,
    decreases ids.len(),
{
    if ids.len() == 0 {
        assert(v.tasks + ids =~= v.tasks);
    } else {
        let v1 = wake_view(v, WakeRef::Task(ids[0]));
        lemma_ready_queue_fifo(v1, ids.drop_first());
        assert(v.tasks.push(ids[0]) + ids.drop_first() =~= v.tasks + ids);
    }
}

/// The task slots enqueued when the entries of `s` fire in order.
pub open spec fn fired_tasks(s: Seq<TimerEntry>) -> Seq<usize>
    decreases s.len(),
{
    if s.len() == 0 {
        Seq::<usize>::empty()
    } else {
        (match s[0].waker {
            WakeRef::Task(i) => seq![i],
            WakeRef::Root => Seq::<usize>::empty(),
        }) + fired_tasks(s.drop_first())
    }
}

/// Whether any entry of `s` wakes the root computation.
pub open spec fn fires_root(s: Seq<TimerEntry>) -> bool {
    exists|k: int| 0 <= k < s.len() && s[k].waker is Root
}

/// How many entries of `s` wake the unit `u`.
pub open spec fn entries_for(s: Seq<TimerEntry>, u: WakeRef) -> nat {
    s.filter(|e: TimerEntry| e.waker == u).len()
}

/// Law: a timed wait never fires twice.  Servicing splits the entries
/// waking `u` exactly between the fired prefix and the surviving queue.
/// A timed wait registers at most one entry over its whole life (see the
/// sleep module), so once that entry stands in the fired prefix, no entry
/// for the wait survives, and it can never fire again.
pub proof fn lemma_wait_fires_at_most_once(v: WorkerView, now: u64, u: WakeRef)
    requires
        deadline_sorted(v.timers),
    ensures
        entries_for(v.timers.take(due_count(v.timers, now) as int), u) + entries_for(
            service_view(v, now).timers,
            u,
        ) == entries_for(v.timers, u),
{
    let k = due_count(v.timers, now) as int;
    lemma_timer_service_exact(v, now);
    assert(v.timers.take(k) + v.timers.skip(k) =~= v.timers);
    Seq::<TimerEntry>::filter_distributes_over_add(
        v.timers.take(k),
        v.timers.skip(k),
        |e: TimerEntry| e.waker == u,
    );
}

/// Law: timer ordering.  Servicing a deadline-sorted timer queue at `now`
/// fires exactly the entries whose deadlines have elapsed, in ascending
/// deadline order (they form the sorted leading prefix), leaves exactly the
/// later entries pending, enqueues the fired tasks in that order behind the
/// ready queue, and leaves the run flag `Ready` exactly when something
/// fired.
pub proof fn lemma_timer_service_exact(v: WorkerView, now: u64)
    requires
        deadline_sorted(v.timers),
    ensures
        ({
            let k = due_count(v.timers, now) as int;
            let sv = service_view(v, now);
            &&& 0 <= k <= v.timers.len()
            &&& forall|i: int| 0 <= i < k ==> #[trigger] v.timers[i].deadline <= now
            &&& forall|i: int| k <= i < v.timers.len() ==> #[trigger] v.timers[i].deadline > now
            &&& sv.timers == v.timers.skip(k)
            &&& sv.tasks == v.tasks + fired_tasks(v.timers.take(k))
            &&& sv.root_task == (v.root_task || fires_root(v.timers.take(k)))
            &&& sv.state == if k > 0 {
                WorkerState::Ready
            } else {
                v.state
            }
        }),
    decreases v.timers.len(),
{
    let k = due_count(v.timers, now) as int;
    let sv = service_view(v, now);
    if v.timers.len() > 0 && v.timers[0].deadline <= now {
        let v1 = service_step(v);
        assert(deadline_sorted(v1.timers)) by {
            assert forall|p: int, q: int| 0 <= p <= q < v1.timers.len() implies #[trigger] v1
                .timers[p].deadline <= #[trigger] v1.timers[q].deadline by {
                assert(v.timers[p + 1].deadline <= v.timers[q + 1].deadline);
            }
        }
        lemma_timer_service_exact(v1, now);
        let k1 = due_count(v1.timers, now) as int;
        assert(k == k1 + 1);
        assert(sv.timers =~= v.timers.skip(k)) by {
            assert(v1.timers.skip(k1) =~= v.timers.skip(k));
        }
        assert forall|i: int| 0 <= i < k implies #[trigger] v.timers[i].deadline <= now by {
            if i > 0 {
                assert(v1.timers[i - 1].deadline <= now);
            }
        }
        assert forall|i: int| k <= i < v.timers.len() implies #[trigger] v.timers[i].deadline
            > now by {
            assert(v1.timers[i - 1].deadline > now);
        }
        assert(sv.tasks =~= v.tasks + fired_tasks(v.timers.take(k))) by {
            assert(v1.timers.take(k1) =~= v.timers.take(k).drop_first());
            assert(fired_tasks(v.timers.take(k)) == (match v.timers[0].waker {
                WakeRef::Task(i) => seq![i],
                WakeRef::Root => Seq::<usize>::empty(),
            }) + fired_tasks(v1.timers.take(k1))) by {
                assert(v.timers.take(k)[0] == v.timers[0]);
                assert(v.timers.take(k).len() > 0);
            }
            match v.timers[0].waker {
                WakeRef::Task(i) => {
                    assert(v1.tasks =~= v.tasks.push(i));
                    assert(v.tasks.push(i) + fired_tasks(v1.timers.take(k1)) =~= v.tasks + (seq![i]
                        + fired_tasks(v1.timers.take(k1))));
                },
                WakeRef::Root => {
                    assert(Seq::<usize>::empty() + fired_tasks(v1.timers.take(k1)) =~= fired_tasks(
                        v1.timers.take(k1)));
                },
            }
        }
        assert(sv.root_task == (v.root_task || fires_root(v.timers.take(k)))) by {
            if v.timers[0].waker is Root {
                assert(v.timers.take(k)[0].waker is Root);
            } else if fires_root(v1.timers.take(k1)) {
                let j = choose|j: int|
                    0 <= j < v1.timers.take(k1).len() && v1.timers.take(k1)[j].waker is Root;
                assert(v.timers.take(k)[j + 1].waker is Root);
            } else if fires_root(v.timers.take(k)) {
                let j = choose|j: int|
                    0 <= j < v.timers.take(k).len() && v.timers.take(k)[j].waker is Root;
                if j > 0 {
                    assert(v1.timers.take(k1)[j - 1].waker is Root);
                }
            }
        }
    } else {
        assert(k == 0);
        assert(sv.timers =~= v.timers.skip(0));
        assert(fired_tasks(v.timers.take(0)) =~= Seq::<usize>::empty());
        assert(sv.tasks =~= v.tasks + fired_tasks(v.timers.take(k)));
        assert(!fires_root(v.timers.take(0)));
    }
}

} // verus!
