//! Ad hoc, single-shot execution requests, serialized so that at most one
//! runs at a time system-wide, independent of the periodic cadence.
//! Requests queue in arrival order; a failure of the work itself is caught
//! at this boundary and reported, never propagated into the runner.

use crate::errors::SchedulingError;
use vstd::prelude::*;

verus! {

/// Serializes one-shot runs: requests wait in arrival order, and a new run
/// starts only when no other one-shot run is in flight.
pub struct OnceRunner {
    pending: Vec<String>,
    running: Option<String>,
}

impl OnceRunner {
    /// The names waiting to run, in arrival order.
    pub closed spec fn pending_names(self) -> Seq<Seq<char>> {
        self.pending@.map_values(|s: String| s@)
    }

    /// The name currently running, if any.
    pub closed spec fn running_name(self) -> Option<Seq<char>> {
        match self.running {
            Some(s) => Some(s@),
            None => None,
        }
    }

    /// Whether a one-shot run is in flight right now.
    pub open spec fn is_busy(self) -> bool {
        self.running_name() is Some
    }

    /// Whether a one-shot run is in flight right now.
    pub fn is_running(&self) -> (r: bool)
        ensures
            r == self.is_busy(),
    {
        self.running.is_some()
    }

    /// Creates an idle runner with nothing queued.
    pub fn new() -> (r: OnceRunner)
        ensures
            r.pending_names() =~= Seq::<Seq<char>>::empty(),
            !r.is_busy(),
    {
        OnceRunner { pending: Vec::new(), running: None }
    }

    /// Queues a one-shot run of the named check behind those already
    /// waiting; nothing starts here.
    pub fn enqueue(&mut self, check_name: String)
        ensures
            final(self).pending_names() =~= old(self).pending_names().push(check_name@),
            final(self).running_name() == old(self).running_name(),
    {
        let ghost pre = self.pending@;
        self.pending.push(check_name);
        proof {
            assert(final(self).pending_names() =~= pre.map_values(|s: String| s@).push(
                check_name@,
            ));
        }
    }

    /// Starts the next waiting run and returns its name — but only when no
    /// run is in flight: a busy runner hands out nothing, which is what
    /// serializes one-shot execution. Requests leave in arrival order.
    pub fn start_next(&mut self) -> (r: Option<String>)
        ensures
            old(self).is_busy() ==> r is None && *final(self) == *old(self),
            !old(self).is_busy() && old(self).pending_names().len() == 0 ==> r is None
                && *final(self) == *old(self),
            !old(self).is_busy() && old(self).pending_names().len() > 0 ==> (r matches Some(name)
                && name@ == old(self).pending_names()[0]
                && final(self).pending_names() =~= old(self).pending_names().drop_first()
                && final(self).running_name() == Some(name@)),
    {
        if self.running.is_some() {
            return None;
        }
        if self.pending.len() == 0 {
            return None;
        }
        let name = self.pending.remove(0);
        self.running = Some(name.clone());
        proof {
            assert(final(self).pending_names() =~= old(self).pending_names().drop_first());
        }
        Some(name)
    }

    /// Ends the run in flight. A failure of the work is reported as a
    /// `CheckExecutionFailed` carrying the check's name; either way the
    /// runner is idle afterwards and the queue is untouched.
    pub fn finish(&mut self, succeeded: bool) -> (r: Option<SchedulingError>)
        requires
            old(self).is_busy(),
        ensures
            !final(self).is_busy(),
            final(self).pending_names() == old(self).pending_names(),
            succeeded ==> r is None,
            !succeeded ==> (r matches Some(e) && e matches SchedulingError::CheckExecutionFailed(n)
                && n@ == old(self).running_name().unwrap()),
    {
        let name = self.running.take();
        match name {
            Some(n) => {
                if succeeded {
                    None
                } else {
                    Some(SchedulingError::CheckExecutionFailed(n))
                }
            },
            None => {
                proof {
                    assert(false);
                }
                None
            },
        }
    }
}

} // verus!
