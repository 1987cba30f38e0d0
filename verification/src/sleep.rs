//! The timed-suspend primitive: wait until a deadline without busy-waiting.
//!
//! A `Sleep` completes as soon as it is polled at or past its deadline,
//! returning the instant it observed.  Polled earlier, it registers exactly
//! one timed wakeup — a local `registered` flag guards against repeated
//! polls creating duplicate timer entries — and reports "not yet".

use vstd::prelude::*;

use crate::exec::{driver_run, drives};
use crate::task::{Computation, Effect, Effects, Poll};
use crate::wake::WakeRef;
use crate::worker::WorkerView;

verus! {

/// A pending timed wait: complete no earlier than `deadline`.
pub struct Sleep {
    /// Absolute instant on the monotonic clock to wait for.
    pub deadline: u64,
    /// Whether a timer entry for this wait has already been registered.
    pub registered: bool,
}

/// Suspend until `deadline` has elapsed; completing yields the instant at
/// which the wait actually resumed.
pub fn sleep_until(deadline: u64) -> (s: Sleep)
    ensures
        s == (Sleep { deadline, registered: false }),
{
    Sleep { deadline, registered: false }
}

/// The state of a sleep after one poll at `now`.
pub open spec fn sleep_next(s: Sleep, now: u64) -> Sleep {
    if now >= s.deadline {
        s
    } else {
        Sleep { registered: true, ..s }
    }
}

/// How many timer entries one poll at `now` registers: one on the first
/// poll before the deadline, none otherwise.
pub open spec fn sleep_registers(s: Sleep, now: u64) -> nat {
    if now < s.deadline && !s.registered {
        1
    } else {
        0
    }
}

impl Sleep {
    /// Drive the wait one step at instant `now`.  At or past the deadline it
    /// completes with `now`; earlier it reports "not yet", registering a
    /// timer entry only if none exists yet.
    pub fn poll_step<C>(&mut self, now: u64, fx: &mut Effects<C>) -> (r: Poll<u64>)
        ensures
            *final(self) == sleep_next(*old(self), now),
            now >= old(self).deadline ==> r == Poll::<u64>::Ready(now) && final(fx)@ == old(fx)@,
            now < old(self).deadline ==> r == Poll::<u64>::Pending,
            final(fx)@ == if sleep_registers(*old(self), now) == 1 {
                old(fx)@.push(Effect::Timer(old(self).deadline))
            } else {
                old(fx)@
            },
    {
        if self.deadline <= now {
            return Poll::Ready(now);
        }
        if !self.registered {
            fx.timer(self.deadline);
            self.registered = true;
        }
        Poll::Pending
    }
}

impl<C> Computation<C> for Sleep {
    type Output = u64;

    /// One poll of a timed wait: the state advances by `sleep_next`; at or
    /// past the deadline it completes with the observed instant and asks
    /// for nothing, and earlier it reports "not yet", registering its one
    /// timer entry if none exists.
    open spec fn step(
        pre: Sleep,
        now: u64,
        me: WakeRef,
        post: Sleep,
        r: Poll<u64>,
        fx: Seq<Effect<C>>,
    ) -> bool {
        &&& post == sleep_next(pre, now)
        &&& if now >= pre.deadline {
            r == Poll::<u64>::Ready(now) && fx == Seq::<Effect<C>>::empty()
        } else {
            r == Poll::<u64>::Pending && fx == if pre.registered {
                Seq::<Effect<C>>::empty()
            } else {
                seq![Effect::<C>::Timer(pre.deadline)]
            }
        }
    }

    fn poll(&mut self, now: u64, me: WakeRef, fx: &mut Effects<C>) -> Poll<u64> {
        let _ = me;
        let r = self.poll_step(now, fx);
        proof {
            if sleep_registers(*old(self), now) == 1 {
                assert(final(fx)@.skip(old(fx)@.len() as int) =~= seq![
                    Effect::<C>::Timer(old(self).deadline),
                ]);
            } else {
                assert(final(fx)@.skip(old(fx)@.len() as int) =~= Seq::<Effect<C>>::empty());
            }
            assert(final(fx)@.take(old(fx)@.len() as int) =~= old(fx)@);
        }
        r
    }
}

/// The timer entries registered by polling a sleep at the instants `times`,
/// in order.
pub open spec fn sleep_registers_total(s: Sleep, times: Seq<u64>) -> nat
    decreases times.len(),
{
    if times.len() == 0 {
        0
    } else {
        sleep_registers(s, times[0]) + sleep_registers_total(
            sleep_next(s, times[0]),
            times.drop_first(),
        )
    }
}

/// Every allowed run of the driver loop whose root is a timed wait
/// completes, if at all, with an instant no earlier than the wait's
/// deadline: the wait's own `step` specification admits `Ready` only at
/// or past it, whatever tasks run and however the budget falls.
pub proof fn lemma_timed_root_never_early<C: Computation<C, Output = ()>>(
    root: Sleep,
    slots: Seq<Option<C>>,
    w: WorkerView,
    now: u64,
    steps: u64,
    r: Option<u64>,
)
    requires
        drives::<C, Sleep>(root, slots, w, now, steps, r),
    ensures
        r matches Some(v) ==> v >= root.deadline,
    decreases steps,
{
    if steps > 0 && r is Some {
        let (post, res, fxs) = choose|post: Sleep, res: Poll<u64>, fxs: Seq<Effect<C>>|
            {
                &&& #[trigger] <Sleep as Computation<C>>::step(
                    root,
                    now,
                    WakeRef::Root,
                    post,
                    res,
                    fxs,
                )
                &&& {
                    let rv = crate::exec::apply_view(
                        crate::exec::RuntimeView { worker: w, slots },
                        WakeRef::Root,
                        fxs,
                    );
                    match res {
                        Poll::Ready(v) => r == Some(v),
                        Poll::Pending => exists|
                            dout: Option<(Seq<Option<C>>, WorkerView, u64)>,
                        |
                            {
                                &&& #[trigger] crate::exec::drain_rel::<C>(
                                    rv.slots,
                                    rv.worker,
                                    now,
                                    (steps - 1) as u64,
                                    dout,
                                )
                                &&& match dout {
                                    None => r is None,
                                    Some((slots2, w2, steps2)) => match crate::exec::park_phase(
                                        w2,
                                        now,
                                    ) {
                                        None => r is None,
                                        Some((w3, now2)) => if steps2 < steps {
                                            drives::<C, Sleep>(post, slots2, w3, now2, steps2, r)
                                        } else {
                                            false
                                        },
                                    },
                                }
                            },
                    }
                }
            };
        assert(post.deadline == root.deadline);
        match res {
            Poll::Ready(v) => {
                assert(v >= root.deadline);
            },
            Poll::Pending => {
                let rv = crate::exec::apply_view(
                    crate::exec::RuntimeView { worker: w, slots },
                    WakeRef::Root,
                    fxs,
                );
                let dout = choose|dout: Option<(Seq<Option<C>>, WorkerView, u64)>|
                    {
                        &&& #[trigger] crate::exec::drain_rel::<C>(
                            rv.slots,
                            rv.worker,
                            now,
                            (steps - 1) as u64,
                            dout,
                        )
                        &&& match dout {
                            None => r is None,
                            Some((slots2, w2, steps2)) => match crate::exec::park_phase(w2, now) {
                                None => r is None,
                                Some((w3, now2)) => if steps2 < steps {
                                    drives::<C, Sleep>(post, slots2, w3, now2, steps2, r)
                                } else {
                                    false
                                },
                            },
                        }
                    };
                match dout {
                    None => {},
                    Some((slots2, w2, steps2)) => {
                        match crate::exec::park_phase(w2, now) {
                            None => {},
                            Some((w3, now2)) => {
                                lemma_timed_root_never_early::<C>(
                                    post,
                                    slots2,
                                    w3,
                                    now2,
                                    steps2,
                                    r,
                                );
                            },
                        }
                    },
                }
            },
        }
    }
}

/// Law: end to end, a timed wait resolves no earlier than its deadline.
/// The statement rests only on the driver's own contract: whatever
/// `block_on` returns for a fresh timed wait is `None`, or an instant at
/// or past the deadline.
pub proof fn lemma_run_never_early<C: Computation<C, Output = ()>>(
    deadline: u64,
    start: u64,
    steps: u64,
    r: Option<u64>,
)
    requires
        driver_run::<C, Sleep>(Sleep { deadline, registered: false }, start, steps, r),
    ensures
        r matches Some(v) ==> v >= deadline,
{
    lemma_timed_root_never_early::<C>(
        Sleep { deadline, registered: false },
        Seq::<Option<C>>::empty(),
        WorkerView {
            root_task: false,
            tasks: Seq::<usize>::empty(),
            timers: Seq::<crate::timer::TimerEntry>::empty(),
            state: crate::worker::WorkerState::Running,
        },
        start,
        steps,
        r,
    );
}

/// Law: no duplicate timer firing.  Whatever the sequence of polls, one
/// timed wait registers at most one timer entry — and none at all once its
/// entry exists.  The worker module's `lemma_wait_fires_at_most_once`
/// adds the other half: firing removes the entry from the queue, so the
/// single entry a wait ever registers fires at most once, and after it
/// fires the wait never wakes again.
pub proof fn lemma_no_duplicate_timer(s: Sleep, times: Seq<u64>)
    ensures
        sleep_registers_total(s, times) <= if s.registered {
            0nat
        } else {
            1nat
        },
    decreases times.len(),
{
    if times.len() > 0 {
        lemma_no_duplicate_timer(sleep_next(s, times[0]), times.drop_first());
    }
}

} // verus!
