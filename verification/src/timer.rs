//! Pending timed wakeups, ordered by deadline.
//!
//! A `TimerEntry` pairs an absolute deadline on the monotonic clock with the
//! wake reference to fire when it elapses.  `TimerQueue` keeps the entries in
//! ascending deadline order, so the earliest deadline is always at the front;
//! entries with equal deadlines may sit in either relative order.

use vstd::prelude::*;

use crate::wake::WakeRef;

verus! {

/// A pending timed wakeup: fire `waker` once `deadline` has elapsed.
#[derive(Clone, Copy, PartialEq, Eq, Structural, Debug)]
pub struct TimerEntry {
    /// Absolute instant on the monotonic clock at which the entry is due.
    pub deadline: u64,
    /// The unit of work to mark ready when the deadline elapses.
    pub waker: WakeRef,
}

/// Whether `s` is sorted by deadline, earliest first.
pub open spec fn deadline_sorted(s: Seq<TimerEntry>) -> bool {
    forall|i: int, j: int|
        0 <= i <= j < s.len() ==> #[trigger] s[i].deadline <= #[trigger] s[j].deadline
}

/// How many leading entries of `s` are due at `now` (deadline elapsed,
/// `deadline <= now`).  On a deadline-sorted sequence these are all the due
/// entries, and the position where an entry with deadline `now` is inserted.
pub open spec fn due_count(s: Seq<TimerEntry>, now: u64) -> nat
    decreases s.len(),
{
    if s.len() > 0 && s[0].deadline <= now {
        1 + due_count(s.drop_first(), now)
    } else {
        0
    }
}

/// On a deadline-sorted sequence, the due entries are exactly the leading
/// `due_count` ones: everything before that index has elapsed, everything
/// from it on lies in the future.
pub proof fn lemma_due_count_bounds(s: Seq<TimerEntry>, now: u64)
    requires
        deadline_sorted(s),
    ensures
        ({
            let k = due_count(s, now) as int;
            &&& 0 <= k <= s.len()
            &&& forall|i: int| 0 <= i < k ==> #[trigger] s[i].deadline <= now
            &&& forall|i: int| k <= i < s.len() ==> #[trigger] s[i].deadline > now
        }),
    decreases s.len(),
{
    let k = due_count(s, now) as int;
    if s.len() > 0 && s[0].deadline <= now {
        let s1 = s.drop_first();
        assert(deadline_sorted(s1)) by {
            assert forall|p: int, q: int| 0 <= p <= q < s1.len() implies #[trigger] s1[p].deadline
                <= #[trigger] s1[q].deadline by {
                assert(s[p + 1].deadline <= s[q + 1].deadline);
            }
        }
        lemma_due_count_bounds(s1, now);
        assert forall|i: int| 0 <= i < k implies #[trigger] s[i].deadline <= now by {
            if i > 0 {
                assert(s1[i - 1].deadline <= now);
            }
        }
        assert forall|i: int| k <= i < s.len() implies #[trigger] s[i].deadline > now by {
            assert(s1[i - 1].deadline > now);
        }
    }
}

/// A min-queue of timer entries, kept sorted by ascending deadline.
pub struct TimerQueue {
    entries: Vec<TimerEntry>,
}

impl View for TimerQueue {
    type V = Seq<TimerEntry>;

    closed spec fn view(&self) -> Seq<TimerEntry> {
        self.entries@
    }
}

impl TimerQueue {
    /// The queue's invariant: entries stand in ascending deadline order.
    pub open spec fn wf(self) -> bool {
        deadline_sorted(self@)
    }

    /// An empty timer queue.
    pub fn new() -> (q: Self)
        ensures
            q.wf(),
            q@ == Seq::<TimerEntry>::empty(),
    {
        TimerQueue { entries: Vec::new() }
    }

    /// How many entries are pending.
    pub fn len(&self) -> (n: usize)
        ensures
            n == self@.len(),
    {
        self.entries.len()
    }

    /// The earliest pending deadline, if any entry is pending.
    pub fn peek_deadline(&self) -> (r: Option<u64>)
        ensures
            match r {
                Some(d) => self@.len() > 0 && d == self@[0].deadline,
                None => self@.len() == 0,
            },
    {
        if self.entries.len() > 0 {
            Some(self.entries[0].deadline)
        } else {
            None
        }
    }

    /// Insert a new entry, keeping the queue in ascending deadline order.
    /// The entry lands after every entry sharing its deadline, so among
    /// equal deadlines the earlier-registered entry fires first.
    pub fn push(&mut self, e: TimerEntry)
        requires
            old(self).wf(),
        ensures
            final(self).wf(),
            final(self)@.len() == old(self)@.len() + 1,
            final(self)@ == old(self)@.insert(due_count(old(self)@, e.deadline) as int, e),
    {
        let mut i: usize = 0;
        while i < self.entries.len() && self.entries[i].deadline <= e.deadline
            invariant
                0 <= i <= self.entries@.len(),
                forall|k: int| 0 <= k < i ==> #[trigger] self.entries@[k].deadline <= e.deadline,
                self == old(self),
            decreases self.entries@.len() - i,
        {
            i = i + 1;
        }
        proof {
            lemma_due_count_bounds(old(self)@, e.deadline);
            let k = due_count(old(self)@, e.deadline) as int;
            if i < k {
                assert(old(self)@[i as int].deadline <= e.deadline);
            }
            if k < i {
                assert(old(self)@[k].deadline <= e.deadline);
            }
            assert(i == k);
        }
        self.entries.insert(i, e);
        proof {
            let s = old(self)@.insert(i as int, e);
            assert(final(self)@ == s);
            assert forall|p: int, q: int| 0 <= p <= q < s.len() implies #[trigger] s[p].deadline
                <= #[trigger] s[q].deadline by {
                assert(deadline_sorted(old(self)@));
                if p < i && q >= i + 1 {
                    assert(old(self)@[p].deadline <= e.deadline);
                    assert(e.deadline <= old(self)@[i as int].deadline <= old(self)@[q
                        - 1].deadline || q - 1 == i);
                }
            }
        }
    }

    /// Remove and return the earliest entry if its deadline has elapsed
    /// (`deadline <= now`); otherwise leave the queue unchanged.
    pub fn pop_due(&mut self, now: u64) -> (r: Option<TimerEntry>)
        requires
            old(self).wf(),
        ensures
            final(self).wf(),
            match r {
                Some(e) => {
                    &&& old(self)@.len() > 0
                    &&& e == old(self)@[0]
                    &&& e.deadline <= now
                    &&& final(self)@ == old(self)@.subrange(1, old(self)@.len() as int)
                },
                None => {
                    &&& final(self)@ == old(self)@
                    &&& (old(self)@.len() == 0 || old(self)@[0].deadline > now)
                },
            },
    {
        if self.entries.len() > 0 && self.entries[0].deadline <= now {
            let e = self.entries.remove(0);
            Some(e)
        } else {
            None
        }
    }
}

} // verus!
