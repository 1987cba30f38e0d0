//! The suspend/resume contract a computation implements.
//!
//! A computation is a state machine driven by `poll`: each step either
//! completes with a value or reports "not yet".  Scheduling requests made
//! during a step — spawning a task, asking for a timed wakeup, invoking a
//! wake handle — are recorded in order in an `Effects` buffer, and the
//! driver applies them when the step returns; time is the explicit `now`
//! argument, an instant on the monotonic clock.

use vstd::prelude::*;

use crate::wake::WakeRef;

verus! {

/// The outcome of driving a computation one step: complete with a value, or
/// not yet, with a wakeup arranged through the recorded effects or through
/// a wake handle held elsewhere.
#[derive(PartialEq, Eq, Structural, Debug)]
pub enum Poll<T> {
    Ready(T),
    Pending,
}

/// One scheduling request issued during a poll.
pub enum Effect<C> {
    /// Schedule a new task owning this computation on the ready queue.
    Spawn(C),
    /// Wake the polled unit once this deadline has elapsed.
    Timer(u64),
    /// Invoke the wake handle of this unit.
    Wake(WakeRef),
}

/// The scheduling requests issued during one poll, in order.
pub struct Effects<C> {
    list: Vec<Effect<C>>,
}

impl<C> View for Effects<C> {
    type V = Seq<Effect<C>>;

    closed spec fn view(&self) -> Seq<Effect<C>> {
        self.list@
    }
}

impl<C> Effects<C> {
    /// An empty effect buffer, handed to each poll by the driver.
    pub fn new() -> (fx: Self)
        ensures
            fx@ == Seq::<Effect<C>>::empty(),
    {
        Effects { list: Vec::new() }
    }

    /// Request that `c` be scheduled as a new task.
    pub fn spawn(&mut self, c: C)
        ensures
            final(self)@ == old(self)@.push(Effect::Spawn(c)),
    {
        self.list.push(Effect::Spawn(c));
    }

    /// Request a wakeup of the polled unit once `deadline` has elapsed.
    pub fn timer(&mut self, deadline: u64)
        ensures
            final(self)@ == old(self)@.push(Effect::Timer(deadline)),
    {
        self.list.push(Effect::Timer(deadline));
    }

    /// Invoke the wake handle of `u`.
    pub fn wake(&mut self, u: WakeRef)
        ensures
            final(self)@ == old(self)@.push(Effect::Wake(u)),
    {
        self.list.push(Effect::Wake(u));
    }

    /// Hand the recorded requests, in order, to the driver.
    pub fn into_list(self) -> (v: Vec<Effect<C>>)
        ensures
            v@ == self@,
    {
        self.list
    }
}

/// A suspendable computation: driven by `poll`, it either completes with a
/// value or reports "not yet" after arranging — through the effect buffer
/// or through a wake handle it stored elsewhere — to be woken when it might
/// make progress.  `C` is the computation type of the tasks it may spawn;
/// `me` is the wake handle naming the polled unit itself.
///
/// An implementation describes itself through the specification `step`:
/// whether one poll is allowed to carry the computation from `pre` to
/// `post`, yielding `r` and appending the scheduling requests `fx`.  The
/// driver's own contract is stated over `step`, so what it promises of a
/// run is exactly what the polled computations' specifications give.
pub trait Computation<C>: Sized {
    type Output;

    /// Whether one poll at instant `now`, under the wake handle `me`, may
    /// take the computation from `pre` to `post`, returning `r` and
    /// appending the requests `fx` to the effect buffer.  The default
    /// allows every outcome, so an implementation that states nothing
    /// promises nothing; overriding it is how a computation gets a
    /// contract.
    open spec fn step(
        pre: Self,
        now: u64,
        me: WakeRef,
        post: Self,
        r: Poll<Self::Output>,
        fx: Seq<Effect<C>>,
    ) -> bool {
        true
    }

    fn poll(&mut self, now: u64, me: WakeRef, fx: &mut Effects<C>) -> (r: Poll<Self::Output>)
        ensures
            final(fx)@.len() >= old(fx)@.len(),
            final(fx)@.take(old(fx)@.len() as int) == old(fx)@,
            Self::step(
                *old(self),
                now,
                me,
                *final(self),
                r,
                final(fx)@.skip(old(fx)@.len() as int),
            ),
    ;
}

} // verus!
