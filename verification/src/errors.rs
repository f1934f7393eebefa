//! The ways scheduling can fail. Registration failures are returned to the
//! caller before any state changes; an execution failure is contained at
//! the runner boundary and reported, never allowed to unwind into the
//! scheduling loop.

use vstd::prelude::*;

verus! {

/// Why a scheduling request was refused or a run was reported failed.
#[derive(Debug)]
pub enum SchedulingError {
    /// The registration named a zero interval; nothing was mutated.
    InvalidInterval,
    /// The name is already registered and has not been stopped since.
    DuplicateCheck,
    /// The named check's work failed while running; only that check is
    /// affected.
    CheckExecutionFailed(String),
}

} // verus!
