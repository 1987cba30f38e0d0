//! A minimal cooperative task executor, verified.
//!
//! The library models the scheduling core of a single-worker executor: the
//! wake protocol that records readiness without losing a wakeup, the FIFO
//! ready queue of spawned tasks, the deadline-ordered timer queue, and the
//! driver loop that polls a root computation, drains ready tasks, services
//! due timers, and parks until new work arrives.  Computations are expressed
//! against the library's own suspend/resume contract (`Computation`), and
//! time is an explicit monotonic instant handed to every poll, so the whole
//! scheduling logic is deterministic and verified end to end.
//!
//! Client-side suspend primitives layered on the same contract live beside
//! the core: a timed wait (`Sleep`), an unbounded mpsc channel, and an
//! asynchronous mutex with a FIFO wait queue.

pub mod channel;

pub mod exec;

pub mod mutex;

pub mod wake;

pub mod timer;

pub mod sleep;

pub mod task;

pub mod worker;
