//! An asynchronous mutex: a client of the executor's wake protocol.
//!
//! Contenders join a wait queue in the order they asked for the lock, each
//! under a fresh ticket drawn from a monotone counter; the queue is kept in
//! ascending ticket order, so its front is always the longest waiter.
//! Releasing the lock hands it to the front contender by *removing* its
//! queue entry and invoking its wake handle — a contender that finds its
//! ticket gone from the queue knows it is the next owner.  As in the
//! channel, each operation takes the shared state explicitly and returns
//! any wake handle for the caller to invoke outside the lock, and giving
//! something up is an explicit consuming operation: `release` for the
//! guard and `cancel` for an abandoned acquisition.

use vstd::prelude::*;

use crate::task::Poll;
use crate::wake::WakeRef;

verus! {

/// Whether the tickets of `q` are strictly ascending: the front waiter is
/// the oldest.
pub open spec fn keys_increasing(q: Seq<(u64, Option<WakeRef>)>) -> bool {
    forall|i: int, j: int| 0 <= i < j < q.len() ==> #[trigger] q[i].0 < #[trigger] q[j].0
}

/// Whether some entry of `q` carries the ticket `k`.
pub open spec fn has_key(q: Seq<(u64, Option<WakeRef>)>, k: u64) -> bool {
    exists|i: int| 0 <= i < q.len() && #[trigger] q[i].0 == k
}

/// The position of the entry carrying ticket `k`; meaningful when
/// `has_key(q, k)` holds and the tickets are strictly ascending, which
/// makes the position unique.
pub open spec fn key_at(q: Seq<(u64, Option<WakeRef>)>, k: u64) -> int {
    choose|i: int| 0 <= i < q.len() && #[trigger] q[i].0 == k
}

/// Removing an entry keeps the tickets strictly ascending.
proof fn lemma_remove_keeps_increasing(q: Seq<(u64, Option<WakeRef>)>, i: int)
    requires
        keys_increasing(q),
        0 <= i < q.len(),
    ensures
        keys_increasing(q.remove(i)),
{
    let r = q.remove(i);
    assert forall|p: int, s: int| 0 <= p < s < r.len() implies #[trigger] r[p].0 < #[trigger] r[s].0
        by {
        if p < i && s < i {
            assert(q[p].0 < q[s].0);
        } else if p < i {
            assert(q[p].0 < q[s + 1].0);
        } else {
            assert(q[p + 1].0 < q[s + 1].0);
        }
    }
}

/// The abstract state of an asynchronous mutex.
pub struct MutexView<T> {
    /// The next ticket to hand out.
    pub index: u64,
    /// Waiting contenders in ascending ticket order, each with the wake
    /// handle its last poll registered, if any.
    pub queue: Seq<(u64, Option<WakeRef>)>,
    /// Whether the lock is free with no one waiting.
    pub unlocked: bool,
    /// The protected value.
    pub data: T,
}

/// An asynchronous mutex protecting a value of type `T`.
pub struct AsyncMutex<T> {
    index: u64,
    queue: Vec<(u64, Option<WakeRef>)>,
    unlocked: bool,
    data: T,
}

impl<T> View for AsyncMutex<T> {
    type V = MutexView<T>;

    closed spec fn view(&self) -> MutexView<T> {
        MutexView {
            index: self.index,
            queue: self.queue@,
            unlocked: self.unlocked,
            data: self.data,
        }
    }
}

/// The evidence of holding the lock; handed out only by a completed
/// acquisition (the private field keeps clients from forging one) and
/// consumed by `release`.  At most one guard is live per mutex: one is
/// created only by claiming the free lock or by being the waiter whose
/// entry the releasing party removed, and the pairing of a guard with the
/// mutex that issued it is the caller's charge, as it was when a lifetime
/// tied the two.
pub struct AsyncMutexGuard {
    held: (),
}

/// A pending acquisition of the lock: the ticket drawn by `lock`, driven
/// by `poll` until the lock is held, or abandoned with `cancel`.
pub struct Acquire {
    /// The ticket this contender drew.
    pub index: u64,
    /// Whether the lock has been acquired through this ticket.
    pub acquired: bool,
}

impl<T> AsyncMutex<T> {
    /// A fresh, unlocked mutex protecting `val`.
    pub fn new(val: T) -> (m: Self)
        ensures
            m.wf(),
            m@ == (MutexView {
                index: 0,
                queue: Seq::<(u64, Option<WakeRef>)>::empty(),
                unlocked: true,
                data: val,
            }),
    {
        AsyncMutex { index: 0, queue: Vec::new(), unlocked: true, data: val }
    }

    /// The mutex's invariant: tickets ascend along the queue and stay below
    /// the counter, and a free lock has no one waiting.
    pub open spec fn wf(self) -> bool {
        &&& keys_increasing(self@.queue)
        &&& forall|i: int| 0 <= i < self@.queue.len() ==> #[trigger] self@.queue[i].0 < self@.index
        &&& (self@.unlocked ==> self@.queue.len() == 0)
    }

    /// Draw a ticket for the lock.  A free lock is claimed at once — the
    /// acquisition completes on its first poll — while a held one appends
    /// the ticket at the back of the wait queue.
    pub fn lock(&mut self) -> (a: Acquire)
        requires
            old(self).wf(),
            old(self)@.index < u64::MAX,
        ensures
            final(self).wf(),
            a == (Acquire { index: old(self)@.index, acquired: false }),
            final(self)@.index == old(self)@.index + 1,
            final(self)@.data == old(self)@.data,
            final(self)@.unlocked == false,
            old(self)@.unlocked ==> final(self)@.queue == old(self)@.queue,
            !old(self)@.unlocked ==> final(self)@.queue == old(self)@.queue.push(
                (old(self)@.index, None::<WakeRef>),
            ),
    {
        let index = self.index;
        self.index = self.index + 1;
        if self.unlocked {
            self.unlocked = false;
        } else {
            self.queue.push((index, None));
        }
        Acquire { index, acquired: false }
    }
}

impl Acquire {
    /// Drive the acquisition one step.  A contender whose ticket is gone
    /// from the queue was handed the lock by the releaser and completes
    /// with the guard; one still queued updates its entry to carry `me` and
    /// reports "not yet".
    pub fn poll<T>(&mut self, m: &mut AsyncMutex<T>, me: WakeRef) -> (r: Poll<AsyncMutexGuard>)
        requires
            old(m).wf(),
            !old(m)@.unlocked,
        ensures
            final(m).wf(),
            final(m)@.index == old(m)@.index,
            final(m)@.data == old(m)@.data,
            final(m)@.unlocked == false,
            final(self).index == old(self).index,
            has_key(old(m)@.queue, old(self).index) ==> {
                &&& r == Poll::<AsyncMutexGuard>::Pending
                &&& *final(self) == *old(self)
                &&& final(m)@.queue == old(m)@.queue.update(
                    key_at(old(m)@.queue, old(self).index),
                    (old(self).index, Some(me)),
                )
            },
            !has_key(old(m)@.queue, old(self).index) ==> {
                &&& r is Ready
                &&& final(self).acquired == true
                &&& final(m)@.queue == old(m)@.queue
            },
    {
        let mut i: usize = 0;
        while i < m.queue.len() && m.queue[i].0 != self.index
            invariant
                0 <= i <= m.queue@.len(),
                forall|k: int| 0 <= k < i ==> #[trigger] m.queue@[k].0 != self.index,
                *m == *old(m),
                *self == *old(self),
            decreases m.queue@.len() - i,
        {
            i = i + 1;
        }
        if i < m.queue.len() {
            proof {
                assert(has_key(old(m)@.queue, self.index));
                let j = key_at(old(m)@.queue, self.index);
                if i < j {
                    assert(old(m)@.queue[i as int].0 < old(m)@.queue[j].0);
                }
                if j < i {
                    assert(old(m)@.queue[j].0 < old(m)@.queue[i as int].0);
                }
                assert(i == j);
            }
            let idx = self.index;
            m.queue[i] = (idx, Some(me));
            proof {
                let nq = final(m)@.queue;
                let oq = old(m)@.queue;
                assert forall|p: int, s: int| 0 <= p < s < nq.len() implies #[trigger] nq[p].0
                    < #[trigger] nq[s].0 by {
                    assert(oq[p].0 < oq[s].0);
                }
                assert forall|p: int| 0 <= p < nq.len() implies #[trigger] nq[p].0
                    < final(m)@.index by {
                    assert(oq[p].0 < old(m)@.index);
                }
            }
            Poll::Pending
        } else {
            proof {
                if has_key(old(m)@.queue, self.index) {
                    let j = choose|j: int|
                        0 <= j < old(m)@.queue.len() && #[trigger] old(m)@.queue[j].0 == self.index;
                    assert(m.queue@[j].0 != self.index);
                }
            }
            self.acquired = true;
            Poll::Ready(AsyncMutexGuard { held: () })
        }
    }

    /// Abandon the acquisition.  A contender still queued simply leaves the
    /// queue; one already handed the lock passes it on exactly as a release
    /// would, returning the wake handle of the next owner, if any, for the
    /// caller to invoke.  After the guard was taken, abandoning the
    /// `Acquire` value changes nothing.
    pub fn cancel<T>(self, m: &mut AsyncMutex<T>) -> (w: Option<WakeRef>)
        requires
            old(m).wf(),
        ensures
            final(m).wf(),
            final(m)@.index == old(m)@.index,
            final(m)@.data == old(m)@.data,
            self.acquired ==> final(m)@ == old(m)@ && w == None::<WakeRef>,
            !self.acquired && has_key(old(m)@.queue, self.index) ==> w == None::<WakeRef>
                && final(m)@ == (MutexView {
                queue: old(m)@.queue.remove(key_at(old(m)@.queue, self.index)),
                ..old(m)@
            }),
            !self.acquired && !has_key(old(m)@.queue, self.index) && old(m)@.queue.len() > 0 ==> w
                == old(m)@.queue[0].1 && final(m)@ == (MutexView {
                queue: old(m)@.queue.drop_first(),
                ..old(m)@
            }),
            !self.acquired && !has_key(old(m)@.queue, self.index) && old(m)@.queue.len() == 0 ==> w
                == None::<WakeRef> && final(m)@ == (MutexView { unlocked: true, ..old(m)@ }),
    {
        if self.acquired {
            return None;
        }
        let mut i: usize = 0;
        while i < m.queue.len() && m.queue[i].0 != self.index
            invariant
                0 <= i <= m.queue@.len(),
                forall|k: int| 0 <= k < i ==> #[trigger] m.queue@[k].0 != self.index,
                *m == *old(m),
            decreases m.queue@.len() - i,
        {
            i = i + 1;
        }
        if i < m.queue.len() {
            proof {
                assert(has_key(old(m)@.queue, self.index));
                let j = key_at(old(m)@.queue, self.index);
                if i < j {
                    assert(old(m)@.queue[i as int].0 < old(m)@.queue[j].0);
                }
                if j < i {
                    assert(old(m)@.queue[j].0 < old(m)@.queue[i as int].0);
                }
                assert(i == j);
                lemma_remove_keeps_increasing(old(m)@.queue, i as int);
            }
            m.queue.remove(i);
            proof {
                let nq = final(m)@.queue;
                assert forall|p: int| 0 <= p < nq.len() implies #[trigger] nq[p].0
                    < final(m)@.index by {
                    if p < i {
                        assert(old(m)@.queue[p].0 < old(m)@.index);
                    } else {
                        assert(old(m)@.queue[p + 1].0 < old(m)@.index);
                    }
                }
            }
            None
        } else {
            proof {
                if has_key(old(m)@.queue, self.index) {
                    let j = choose|j: int|
                        0 <= j < old(m)@.queue.len() && #[trigger] old(m)@.queue[j].0 == self.index;
                    assert(m.queue@[j].0 != self.index);
                }
            }
            release_front(m)
        }
    }
}

impl AsyncMutexGuard {
    /// Read the protected value through the guard.
    pub fn get<'a, T>(&self, m: &'a AsyncMutex<T>) -> (r: &'a T)
        ensures
            *r == m@.data,
    {
        &m.data
    }

    /// Write the protected value through the guard.
    pub fn get_mut<'a, T>(&self, m: &'a mut AsyncMutex<T>) -> (r: &'a mut T)
        ensures
            *r == old(m)@.data,
            final(m)@ == (MutexView { data: *final(r), ..old(m)@ }),
            final(m).wf() == old(m).wf(),
    {
        &mut m.data
    }

    /// Release the lock.  The front contender, if any, is handed the lock —
    /// its queue entry is removed and its wake handle returned for the
    /// caller to invoke — and otherwise the lock is left free.
    pub fn release<T>(self, m: &mut AsyncMutex<T>) -> (w: Option<WakeRef>)
        requires
            old(m).wf(),
            !old(m)@.unlocked,
        ensures
            final(m).wf(),
            final(m)@.index == old(m)@.index,
            final(m)@.data == old(m)@.data,
            old(m)@.queue.len() > 0 ==> w == old(m)@.queue[0].1 && final(m)@ == (MutexView {
                queue: old(m)@.queue.drop_first(),
                ..old(m)@
            }),
            old(m)@.queue.len() == 0 ==> w == None::<WakeRef> && final(m)@ == (MutexView {
                unlocked: true,
                ..old(m)@
            }),
    {
        release_front(m)
    }
}

/// Hand the lock to the front contender: remove its entry and return its
/// wake handle; with no one waiting, leave the lock free.
fn release_front<T>(m: &mut AsyncMutex<T>) -> (w: Option<WakeRef>)
    requires
        old(m).wf(),
    ensures
        final(m).wf(),
        final(m)@.index == old(m)@.index,
        final(m)@.data == old(m)@.data,
        old(m)@.queue.len() > 0 ==> w == old(m)@.queue[0].1 && final(m)@ == (MutexView {
            queue: old(m)@.queue.drop_first(),
            ..old(m)@
        }),
        old(m)@.queue.len() == 0 ==> w == None::<WakeRef> && final(m)@ == (MutexView {
            unlocked: true,
            ..old(m)@
        }),
{
    if m.queue.len() > 0 {
        proof {
            lemma_remove_keeps_increasing(old(m)@.queue, 0);
        }
        let (_t, w) = m.queue.remove(0);
        proof {
            assert(final(m)@.queue =~= old(m)@.queue.drop_first());
            let nq = final(m)@.queue;
            assert forall|p: int| 0 <= p < nq.len() implies #[trigger] nq[p].0 < final(m)@.index by {
                assert(old(m)@.queue[p + 1].0 < old(m)@.index);
            }
        }
        w
    } else {
        m.unlocked = true;
        None
    }
}

} // verus!
