//! The executor driver: poll the root, drain ready tasks, service timers,
//! park.
//!
//! A `Runtime` is one top-level executor invocation: the worker state plus
//! the table of spawned tasks, each task a slot owning its computation.
//! `block_on` owns the control loop: it polls the root computation, drains
//! the ready queue front-first, fires due timers, and parks until a wakeup
//! or the next deadline.  Time is deterministic: it starts at the given
//! instant and advances only when the driver parks with a timeout, exactly
//! as a lone worker thread with no outside wake sources would experience
//! it.  Parking with no pending timer can therefore never end, and the
//! driver reports it as `None` instead of blocking forever.

use vstd::prelude::*;

use crate::task::{Computation, Effect, Effects, Poll};
use crate::timer::{due_count, TimerEntry};
use crate::wake::WakeRef;
use crate::worker::{
    lemma_timer_service_exact,
    register_view,
    service_view,
    wake_view,
    Worker,
    WorkerState,
    WorkerView,
};

verus! {

/// The abstract state of one executor invocation: the worker, and the task
/// table (`None` marks a slot whose computation completed or is being
/// polled).
pub struct RuntimeView<C> {
    pub worker: WorkerView,
    pub slots: Seq<Option<C>>,
}

/// The effect of one scheduling request issued by the unit `me` on runtime
/// state `v`: spawning allocates the next slot and wakes it, a timer
/// request registers an entry waking `me`, and a wake request invokes the
/// named unit's wake handle.
pub open spec fn apply_one<C>(v: RuntimeView<C>, me: WakeRef, e: Effect<C>) -> RuntimeView<C> {
    match e {
        Effect::Spawn(c) => RuntimeView {
            worker: wake_view(v.worker, WakeRef::Task(v.slots.len() as usize)),
            slots: v.slots.push(Some(c)),
        },
        Effect::Timer(d) => RuntimeView {
            worker: WorkerView { timers: register_view(v.worker.timers, d, me), ..v.worker },
            slots: v.slots,
        },
        Effect::Wake(u) => RuntimeView { worker: wake_view(v.worker, u), slots: v.slots },
    }
}

/// The effect of a whole poll's scheduling requests, applied in order.
pub open spec fn apply_view<C>(v: RuntimeView<C>, me: WakeRef, fx: Seq<Effect<C>>) -> RuntimeView<
    C,
>
    decreases fx.len(),
{
    if fx.len() == 0 {
        v
    } else {
        apply_view(apply_one(v, me, fx[0]), me, fx.drop_first())
    }
}

/// `w` with its run flag set to `s`.
pub open spec fn with_state(w: WorkerView, s: WorkerState) -> WorkerView {
    WorkerView { state: s, ..w }
}

/// The timers-and-park phase of one driver pass, which is deterministic:
/// service the timers at `now`; if a wakeup is then recorded, consume it
/// and poll again at once; otherwise park bounded by the earliest
/// remaining deadline — with no outside wake source the wait runs to that
/// deadline, where re-servicing fires at least the earliest entry and
/// wakes the driver — or, with no pending timer at all, park forever
/// (`None`).  The driver never parks past a recorded wakeup, and never
/// parks unboundedly while a timer is pending.
pub open spec fn park_phase(w: WorkerView, now: u64) -> Option<(WorkerView, u64)> {
    let w1 = service_view(w, now);
    if w1.state == WorkerState::Ready {
        Some((with_state(w1, WorkerState::Running), now))
    } else if w1.timers.len() > 0 {
        let d = w1.timers[0].deadline;
        let w2 = service_view(with_state(w1, WorkerState::Parked), d);
        Some((with_state(w2, WorkerState::Running), d))
    } else {
        None
    }
}

/// The drain loop of one driver pass, as a relation: from task table
/// `slots`, worker `w` and poll budget `steps`, the front of the ready
/// queue is popped and polled in FIFO order — a cleared or out-of-range
/// slot is skipped, a completed task leaves its slot empty, a pending one
/// returns to it — and each poll's requests are applied in order, so tasks
/// spawned during the pass are appended and drained within it.  `out` is
/// an allowed outcome: the table, worker and remaining budget once the
/// queue is empty, or `None` when the budget runs out first.
pub open spec fn drain_rel<C: Computation<C, Output = ()>>(
    slots: Seq<Option<C>>,
    w: WorkerView,
    now: u64,
    steps: u64,
    out: Option<(Seq<Option<C>>, WorkerView, u64)>,
) -> bool
    decreases steps,
{
    if w.tasks.len() == 0 {
        out == Some((slots, w, steps))
    } else {
        let id = w.tasks[0];
        let w1 = WorkerView { tasks: w.tasks.drop_first(), ..w };
        if steps == 0 {
            out is None
        } else if id < slots.len() && slots[id as int] is Some {
            match slots[id as int] {
                Some(pre) => exists|post: C, r: Poll<()>, fxs: Seq<Effect<C>>|
                    {
                        &&& #[trigger] C::step(pre, now, WakeRef::Task(id), post, r, fxs)
                        &&& {
                            let kept = if r is Pending {
                                Some(post)
                            } else {
                                None::<C>
                            };
                            let rv = apply_view(
                                RuntimeView { worker: w1, slots: slots.update(id as int, kept) },
                                WakeRef::Task(id),
                                fxs,
                            );
                            drain_rel(rv.slots, rv.worker, now, (steps - 1) as u64, out)
                        }
                    },
                None => false,
            }
        } else {
            drain_rel(slots, w1, now, (steps - 1) as u64, out)
        }
    }
}

/// One allowed run of the driver loop from root computation `root`, task
/// table `slots`, worker `w`, instant `now` and poll budget `steps`,
/// yielding `r`: with no budget the run reports `None`; otherwise the root
/// is polled (an outcome its `step` specification allows) and its requests
/// applied — completion yields the root's value, and "not yet" is followed
/// by the drain pass, the timers-and-park phase, and the next pass at the
/// instant parking woke up, with `None` where the budget ran out or the
/// park could never end.
pub open spec fn drives<C: Computation<C, Output = ()>, R: Computation<C>>(
    root: R,
    slots: Seq<Option<C>>,
    w: WorkerView,
    now: u64,
    steps: u64,
    r: Option<R::Output>,
) -> bool
    decreases steps,
{
    if steps == 0 {
        r is None
    } else {
        exists|post: R, res: Poll<R::Output>, fxs: Seq<Effect<C>>|
            {
                &&& #[trigger] R::step(root, now, WakeRef::Root, post, res, fxs)
                &&& {
                    let rv = apply_view(RuntimeView { worker: w, slots }, WakeRef::Root, fxs);
                    match res {
                        Poll::Ready(v) => r == Some(v),
                        Poll::Pending => exists|dout: Option<(Seq<Option<C>>, WorkerView, u64)>|
                            {
                                &&& #[trigger] drain_rel::<C>(
                                    rv.slots,
                                    rv.worker,
                                    now,
                                    (steps - 1) as u64,
                                    dout,
                                )
                                &&& match dout {
                                    None => r is None,
                                    Some((slots2, w2, steps2)) => match park_phase(w2, now) {
                                        None => r is None,
                                        Some((w3, now2)) => if steps2 < steps {
                                            drives(post, slots2, w3, now2, steps2, r)
                                        } else {
                                            false
                                        },
                                    },
                                }
                            },
                    }
                }
            }
    }
}

/// An allowed outcome of driving `root` from instant `start` with poll
/// budget `steps`, beginning from a fresh runtime: the statement
/// `block_on` makes of its result.
pub open spec fn driver_run<C: Computation<C, Output = ()>, R: Computation<C>>(
    root: R,
    start: u64,
    steps: u64,
    r: Option<R::Output>,
) -> bool {
    drives(
        root,
        Seq::<Option<C>>::empty(),
        WorkerView {
            root_task: false,
            tasks: Seq::<usize>::empty(),
            timers: Seq::<TimerEntry>::empty(),
            state: WorkerState::Running,
        },
        start,
        steps,
        r,
    )
}

/// One top-level executor invocation: worker state and task table.
pub struct Runtime<C> {
    worker: Worker,
    slots: Vec<Option<C>>,
}

impl<C> View for Runtime<C> {
    type V = RuntimeView<C>;

    closed spec fn view(&self) -> RuntimeView<C> {
        RuntimeView { worker: self.worker@, slots: self.slots@ }
    }
}

impl<C> Runtime<C> {
    /// The runtime's invariant: its timer queue stands in deadline order.
    pub open spec fn wf(self) -> bool {
        crate::timer::deadline_sorted(self@.worker.timers)
    }

    /// A fresh invocation: no tasks, no timers, nothing ready, driver
    /// running.
    pub fn new() -> (rt: Self)
        ensures
            rt.wf(),
            rt@.slots == Seq::<Option<C>>::empty(),
            rt@.worker == (WorkerView {
                root_task: false,
                tasks: Seq::<usize>::empty(),
                timers: Seq::<TimerEntry>::empty(),
                state: WorkerState::Running,
            }),
    {
        Runtime { worker: Worker::new(), slots: Vec::new() }
    }

    /// The worker state, for observation.
    pub fn worker(&self) -> (w: &Worker)
        ensures
            w@ == self@.worker,
    {
        &self.worker
    }

    /// Invoke a wake handle for `u` from outside any poll.  Safe at any
    /// time, for any `u`: a handle whose task has already completed still
    /// only records readiness, and the driver skips the empty slot.
    pub fn wake(&mut self, u: WakeRef) -> (notify: bool)
        ensures
            final(self).wf() == old(self).wf(),
            final(self)@.slots == old(self)@.slots,
            final(self)@.worker == wake_view(old(self)@.worker, u),
            notify == (old(self)@.worker.state == WorkerState::Parked),
    {
        self.worker.wake(u)
    }

    /// Schedule a new task owning `c`: allocate the next slot, push it on
    /// the ready queue, and leave the run flag `Ready`.  Returns the new
    /// task's slot index, and whether the parking primitive must be
    /// signaled — which is the case exactly when the driver was parked.
    pub fn spawn(&mut self, c: C) -> (r: (usize, bool))
        ensures
            final(self).wf() == old(self).wf(),
            r.0 == old(self)@.slots.len(),
            r.1 == (old(self)@.worker.state == WorkerState::Parked),
            final(self)@.slots == old(self)@.slots.push(Some(c)),
            final(self)@.worker == wake_view(old(self)@.worker, WakeRef::Task(r.0)),
    {
        let id = self.slots.len();
        self.slots.push(Some(c));
        let notify = self.worker.wake(WakeRef::Task(id));
        (id, notify)
    }

    /// Apply the scheduling requests recorded during one poll of the unit
    /// `me`, in order.
    pub fn apply_effects(&mut self, me: WakeRef, fx: Effects<C>)
        requires
            old(self).wf(),
        ensures
            final(self).wf(),
            final(self)@ == apply_view(old(self)@, me, fx@),
    {
        let mut list = fx.into_list();
        proof {
            assert(list@ == fx@);
        }
        let ghost start = self@;
        let ghost whole = list@;
        while list.len() > 0
            invariant
                self.wf(),
                apply_view(self@, me, list@) == apply_view(start, me, whole),
            decreases list@.len(),
        {
            let ghost prev = self@;
            let ghost plist = list@;
            let e = list.remove(0);
            proof {
                assert(e == plist[0]);
                assert(list@ == plist.drop_first());
            }
            match e {
                Effect::Spawn(c) => {
                    self.spawn(c);
                },
                Effect::Timer(d) => {
                    self.worker.register_timer(d, me);
                },
                Effect::Wake(u) => {
                    self.worker.wake(u);
                },
            }
            proof {
                assert(self@ == apply_one(prev, me, plist[0]));
            }
        }
    }

    /// Take the computation of slot `id` out for polling, leaving the slot
    /// empty; a slot whose task completed yields `None`.
    fn take_slot(&mut self, id: usize) -> (c: Option<C>)
        requires
            id < old(self)@.slots.len(),
        ensures
            final(self).wf() == old(self).wf(),
            c == old(self)@.slots[id as int],
            final(self)@.slots == old(self)@.slots.update(id as int, None::<C>),
            final(self)@.worker == old(self)@.worker,
    {
        self.slots[id].take()
    }

    /// Return the computation of slot `id` after a poll that did not
    /// complete it.
    fn put_slot(&mut self, id: usize, c: C)
        requires
            id < old(self)@.slots.len(),
        ensures
            final(self).wf() == old(self).wf(),
            final(self)@.slots == old(self)@.slots.update(id as int, Some(c)),
            final(self)@.worker == old(self)@.worker,
    {
        self.slots[id] = Some(c);
    }
}

/// Drive `root` on the calling thread, starting the monotonic clock at
/// `start`, spending at most `steps` polls.
///
/// The loop polls the root with the root wake handle; while it reports "not
/// yet", the driver drains the ready queue front-first (tasks spawned
/// during the drain are appended and drained in the same pass), fires due
/// timers, and parks until the run flag is `Ready`, bounded by the next
/// deadline.  Time advances only when a bounded park runs to its deadline,
/// exactly as a lone worker with no outside wake sources experiences it.
///
/// `None` is returned where the protocol would simply never come back: a
/// park with no pending timer (nothing left that could wake the driver),
/// or work that outlasts the poll budget — the budget makes the
/// accepted liveness caveat of FIFO cooperative draining (a computation
/// that perpetually re-spawns ready work starves parking) a detectable
/// outcome instead of a hang.
///
/// The contract states the whole run: the result is an outcome that
/// `driver_run` — the abstract driver loop over the computations' own
/// `step` specifications — allows from a fresh runtime at `start`.
#[verifier::loop_isolation(false)]
pub fn block_on<C: Computation<C, Output = ()>, R: Computation<C>>(
    root: R,
    start: u64,
    steps: u64,
) -> (r: Option<R::Output>)
    ensures
        driver_run::<C, R>(root, start, steps, r),
        steps == 0 ==> r is None,
{
    let ghost root0 = root;
    let ghost steps_all = steps;
    let mut root = root;
    let mut rt: Runtime<C> = Runtime::new();
    let mut now: u64 = start;
    let mut steps = steps;
    loop
        invariant
            rt.wf(),
            forall|res: Option<R::Output>|
                #[trigger] drives::<C, R>(root, rt@.slots, rt@.worker, now, steps, res)
                    ==> driver_run::<C, R>(root0, start, steps_all, res),
        decreases steps,
    {
        let ghost h_root = root;
        let ghost h_slots = rt@.slots;
        let ghost h_w = rt@.worker;
        let ghost h_now = now;
        let ghost h_steps = steps;
        if steps == 0 {
            proof {
                assert(drives::<C, R>(h_root, h_slots, h_w, h_now, h_steps, None::<R::Output>));
            }
            return None;
        }
        steps = steps - 1;
        let mut fx: Effects<C> = Effects::new();
        let res = root.poll(now, WakeRef::Root, &mut fx);
        let ghost res_g = res;
        let ghost rootfx = fx@;
        proof {
            assert(rootfx.skip(0) =~= rootfx);
            assert(R::step(h_root, h_now, WakeRef::Root, root, res_g, rootfx));
        }
        rt.apply_effects(WakeRef::Root, fx);
        let ghost d_slots = rt@.slots;
        let ghost d_w = rt@.worker;
        let ghost d_steps = steps;
        match res {
            Poll::Ready(v) => {
                proof {
                    assert(drives::<C, R>(h_root, h_slots, h_w, h_now, h_steps, Some(v)));
                    if steps_all == 0 {
                        assert(false);
                    }
                }
                return Some(v);
            },
            Poll::Pending => {},
        }
        // Drain the ready queue: pop the front task, poll it with its own
        // wake handle, and apply what the poll requested.  Tasks spawned
        // during the drain land at the back and are drained in this pass.
        loop
            invariant
                rt.wf(),
                steps < h_steps,
                forall|out: Option<(Seq<Option<C>>, WorkerView, u64)>|
                    #[trigger] drain_rel::<C>(rt@.slots, rt@.worker, h_now, steps, out)
                        ==> drain_rel::<C>(d_slots, d_w, h_now, d_steps, out),
            decreases steps,
        {
            let ghost g_slots = rt@.slots;
            let ghost g_w = rt@.worker;
            let ghost g_steps = steps;
            let nxt = rt.worker.pop_ready();
            match nxt {
                None => {
                    break ;
                },
                Some(id) => {
                    if steps == 0 {
                        proof {
                            let n = None::<(Seq<Option<C>>, WorkerView, u64)>;
                            assert(drain_rel::<C>(g_slots, g_w, h_now, g_steps, n));
                            assert(drain_rel::<C>(d_slots, d_w, h_now, d_steps, n));
                            assert(drives::<C, R>(
                                h_root,
                                h_slots,
                                h_w,
                                h_now,
                                h_steps,
                                None::<R::Output>,
                            ));
                        }
                        return None;
                    }
                    steps = steps - 1;
                    if id < rt.slots.len() {
                        let taken = rt.take_slot(id);
                        match taken {
                            None => {
                                proof {
                                    assert(rt@.slots =~= g_slots);
                                    assert forall|out: Option<(Seq<Option<C>>, WorkerView, u64)>|
                                        #[trigger] drain_rel::<C>(
                                            rt@.slots,
                                            rt@.worker,
                                            h_now,
                                            steps,
                                            out,
                                        ) implies drain_rel::<C>(
                                        d_slots,
                                        d_w,
                                        h_now,
                                        d_steps,
                                        out,
                                    ) by {
                                        assert(drain_rel::<C>(g_slots, g_w, h_now, g_steps, out));
                                    }
                                }
                            },
                            Some(mut c) => {
                                let ghost c_pre = c;
                                let mut cfx: Effects<C> = Effects::new();
                                let pr = c.poll(now, WakeRef::Task(id), &mut cfx);
                                let ghost pr_g = pr;
                                let ghost c_post = c;
                                let ghost cfxs = cfx@;
                                proof {
                                    assert(cfxs.skip(0) =~= cfxs);
                                    assert(C::step(c_pre, h_now, WakeRef::Task(id), c_post, pr_g,
                                        cfxs));
                                }
                                match pr {
                                    Poll::Ready(_) => {},
                                    Poll::Pending => {
                                        rt.put_slot(id, c);
                                    },
                                }
                                rt.apply_effects(WakeRef::Task(id), cfx);
                                proof {
                                    let kept = if pr_g is Pending {
                                        Some(c_post)
                                    } else {
                                        None::<C>
                                    };
                                    if pr_g is Pending {
                                        assert(g_slots.update(id as int, None::<C>).update(
                                            id as int,
                                            Some(c_post),
                                        ) =~= g_slots.update(id as int, kept));
                                    }
                                    assert forall|out: Option<(Seq<Option<C>>, WorkerView, u64)>|
                                        #[trigger] drain_rel::<C>(
                                            rt@.slots,
                                            rt@.worker,
                                            h_now,
                                            steps,
                                            out,
                                        ) implies drain_rel::<C>(
                                        d_slots,
                                        d_w,
                                        h_now,
                                        d_steps,
                                        out,
                                    ) by {
                                        assert(g_slots[id as int] == Some(c_pre));
                                        assert(drain_rel::<C>(g_slots, g_w, h_now, g_steps, out));
                                    }
                                }
                            },
                        }
                    } else {
                        proof {
                            assert forall|out: Option<(Seq<Option<C>>, WorkerView, u64)>|
                                #[trigger] drain_rel::<C>(
                                    rt@.slots,
                                    rt@.worker,
                                    h_now,
                                    steps,
                                    out,
                                ) implies drain_rel::<C>(d_slots, d_w, h_now, d_steps, out) by {
                                assert(drain_rel::<C>(g_slots, g_w, h_now, g_steps, out));
                            }
                        }
                    }
                },
            }
        }
        let ghost e_slots = rt@.slots;
        let ghost e_w = rt@.worker;
        let ghost e_steps = steps;
        proof {
            assert(drain_rel::<C>(e_slots, e_w, h_now, e_steps, Some((e_slots, e_w, e_steps))));
            assert(drain_rel::<C>(d_slots, d_w, h_now, d_steps, Some((e_slots, e_w, e_steps))));
        }
        // Service timers: fire everything due, learn the next deadline.
        let mut timeout = rt.worker.update_timers(now);
        let ghost w1v = rt@.worker;
        // Park until a wakeup is recorded, bounded by the next deadline.
        // With no other thread, a bounded wait always runs to its deadline,
        // and an unbounded wait would never end.
        while !rt.worker.is_ready()
            invariant
                rt.wf(),
                rt@.slots == e_slots,
                (now == h_now && rt@.worker == w1v && match timeout {
                    Some(t) => w1v.timers.len() > 0 && w1v.timers[0].deadline == h_now + t,
                    None => w1v.timers.len() == 0,
                }) || (rt@.worker.state is Ready && park_phase(e_w, h_now) == Some(
                    (with_state(rt@.worker, WorkerState::Running), now),
                )),
            decreases rt@.worker.timers.len(),
        {
            rt.worker.begin_park();
            match timeout {
                Some(t) => {
                    now = now + t;
                    let ghost parked = rt@.worker;
                    timeout = rt.worker.update_timers(now);
                    proof {
                        lemma_timer_service_exact(parked, now);
                        assert(due_count(parked.timers, now) >= 1);
                        assert(rt@.worker.state is Ready);
                        assert(park_phase(e_w, h_now) == Some(
                            (with_state(rt@.worker, WorkerState::Running), now),
                        ));
                    }
                },
                None => {
                    proof {
                        assert(park_phase(e_w, h_now) is None);
                        assert(drives::<C, R>(
                            h_root,
                            h_slots,
                            h_w,
                            h_now,
                            h_steps,
                            None::<R::Output>,
                        ));
                    }
                    return None;
                },
            }
        }
        proof {
            assert(park_phase(e_w, h_now) == Some(
                (with_state(rt@.worker, WorkerState::Running), now),
            ));
        }
        // Consume the wakeup: announce that the driver is polling again.
        rt.worker.set_running();
        proof {
            assert forall|res2: Option<R::Output>|
                #[trigger] drives::<C, R>(root, rt@.slots, rt@.worker, now, steps, res2)
                    implies driver_run::<C, R>(root0, start, steps_all, res2) by {
                assert(park_phase(e_w, h_now) == Some((rt@.worker, now)));
                assert(drives::<C, R>(h_root, h_slots, h_w, h_now, h_steps, res2));
            }
        }
    }
}

} // verus!
