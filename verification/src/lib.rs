//! A periodic-task scheduling engine: callers register named checks, each
//! bound to a strictly positive interval; checks sharing an interval are
//! grouped in a job queue driven by one ticker; any check can be stopped at
//! any time without disturbing the others.
//!
//! The scheduler itself is a pure state machine over plain values: the host
//! process supplies the clock and the background threads, and drives each
//! ticker by calling [`scheduler::Scheduler::tick`] with the current time.

use vstd::prelude::*;

pub mod check_loader;
pub mod errors;
pub mod job_queue;
pub mod once_runner;
pub mod scheduler;
pub mod ticker;

verus! {

/// The collector component of a running agent. The scheduler, the loader
/// and the wiring that starts them belong to the host process, so the
/// collector itself holds no state.
pub struct Collector {}

impl Collector {
    /// Creates a collector with no state of its own.
    pub fn new() -> Collector {
        Collector {}
    }

    /// Starts the collector's execution; the host process drives the
    /// scheduler, so there is nothing to do here.
    pub fn run(&self) {
    }
}

} // verus!
