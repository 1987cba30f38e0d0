//! Wake references: the identity a wake handle carries.
//!
//! A wake handle names the unit of work that should be reconsidered when the
//! handle fires: either the root computation driven by the executor, or a
//! spawned task identified by its slot index.

use vstd::prelude::*;

verus! {

/// The unit of work a wake handle refers to: the root computation, or a
/// spawned task named by its slot index in the executor's task table.
#[derive(Clone, Copy, PartialEq, Eq, Structural, Debug)]
pub enum WakeRef {
    Root,
    Task(usize),
}

} // verus!
