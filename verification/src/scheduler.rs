//! The public-facing registry: maps each interval in use to the job queue
//! and ticker bound to it, and orchestrates registration, teardown, the
//! periodic turns, queries and statistics.
//!
//! The scheduler is a pure state machine: the host process owns the clock,
//! the per-interval background threads and the locking, and drives each
//! interval's cadence by calling [`Scheduler::tick`] with the current time.
//! Cancellation is modelled by the registry entry itself: when a job queue
//! loses its last check, the whole entry — queue and ticker — is torn down,
//! and the next `tick` on that interval reports `Stopped`.

use crate::errors::SchedulingError;
use crate::job_queue::JobQueue;
use crate::job_queue::keeps_name;
use crate::once_runner::OnceRunner;
use crate::ticker::Ticker;
use crate::ticker::TickerTurn;
use vstd::prelude::*;

verus! {

/// What one call of [`Scheduler::tick`] decided for an interval.
pub enum TickOutcome {
    /// The interval has no registered checks left: its ticker is gone and
    /// the driving loop should exit.
    Stopped,
    /// The interval's checks were due: they are returned in insertion
    /// order for the caller to run, their executions are already counted,
    /// and the next turn should come after `sleep_ms`.
    Fired { executed: Vec<String>, sleep_ms: u64 },
    /// Nothing is due yet: take the next turn after `sleep_ms`.
    Waiting { sleep_ms: u64 },
}

/// The scheduling registry: one entry per interval currently in use, each
/// holding that interval's job queue and its ticker, plus the runner that
/// serializes one-shot executions.
pub struct Scheduler {
    job_queues: Vec<(u64, JobQueue, Ticker)>,
    once_runner: OnceRunner,
}

impl Scheduler {
    /// The one-shot requests waiting to run, in arrival order.
    pub closed spec fn once_pending(self) -> Seq<Seq<char>> {
        self.once_runner.pending_names()
    }

    /// The one-shot run in flight, if any.
    pub closed spec fn once_running(self) -> Option<Seq<char>> {
        self.once_runner.running_name()
    }

    /// Whether a one-shot run is in flight.
    pub open spec fn once_busy(self) -> bool {
        self.once_running() is Some
    }
    /// The number of live tickers, one per interval in use.
    pub closed spec fn ticker_count(self) -> nat {
        self.job_queues@.len()
    }

    /// Whether some check is currently registered at this interval.
    pub closed spec fn has_interval(self, interval_ms: u64) -> bool {
        exists|k: int|
            0 <= k < self.job_queues@.len() && (#[trigger] self.job_queues@[k]).0 == interval_ms
    }

    /// The registry position of the interval's entry.
    spec fn entry_index(self, interval_ms: u64) -> int {
        choose|k: int|
            0 <= k < self.job_queues@.len() && (#[trigger] self.job_queues@[k]).0 == interval_ms
    }

    /// The job queue bound to the interval.
    pub closed spec fn queue_at(self, interval_ms: u64) -> JobQueue {
        self.job_queues@[self.entry_index(interval_ms)].1
    }

    /// The ticker bound to the interval.
    pub closed spec fn ticker_at(self, interval_ms: u64) -> Ticker {
        self.job_queues@[self.entry_index(interval_ms)].2
    }

    /// The names registered at the interval, in insertion order; empty
    /// when the interval is not in use.
    pub open spec fn names_at(self, interval_ms: u64) -> Seq<Seq<char>> {
        if self.has_interval(interval_ms) {
            self.queue_at(interval_ms).names()
        } else {
            Seq::<Seq<char>>::empty()
        }
    }

    /// The executions counted so far at the interval; zero when the
    /// interval is not in use.
    pub open spec fn count_at(self, interval_ms: u64) -> nat {
        if self.has_interval(interval_ms) {
            self.queue_at(interval_ms).count()
        } else {
            0
        }
    }

    /// Whether a turn of the interval's ticker at time `now_ms` would fire.
    pub open spec fn due_at(self, interval_ms: u64, now_ms: u64) -> bool {
        self.has_interval(interval_ms) && self.ticker_at(interval_ms).due_at(now_ms)
    }

    /// The time from which the interval's next firing is due.
    pub open spec fn due_from_at(self, interval_ms: u64) -> u64 {
        self.ticker_at(interval_ms).due_from()
    }

    /// Whether a check of this name is currently registered.
    pub closed spec fn registered(self, name: Seq<char>) -> bool {
        exists|k: int|
            0 <= k < self.job_queues@.len() && (#[trigger] self.job_queues@[k]).1.contains_name(
                name,
            )
    }

    /// The registry's invariant: every interval in use is positive and
    /// appears in exactly one entry; every entry's queue is non-empty and
    /// duplicate-free; a name is registered in at most one queue; and each
    /// entry's ticker is live and armed for that entry's interval.
    pub closed spec fn wf(self) -> bool {
        let q = self.job_queues@;
        &&& (forall|k: int| 0 <= k < q.len() ==> (#[trigger] q[k]).0 > 0)
        &&& (forall|k: int| 0 <= k < q.len() ==> (#[trigger] q[k]).1.names().len() > 0)
        &&& (forall|k: int| 0 <= k < q.len() ==> (#[trigger] q[k]).1.wf())
        &&& (forall|k: int| 0 <= k < q.len() ==> (#[trigger] q[k]).2.interval() == q[k].0)
        &&& (forall|k: int| 0 <= k < q.len() ==> (#[trigger] q[k]).2.is_live())
        &&& (forall|k1: int, k2: int|
            #![trigger q[k1].0, q[k2].0]
            0 <= k1 < k2 < q.len() ==> q[k1].0 != q[k2].0)
        &&& (forall|k1: int, k2: int, n: Seq<char>|
            #![trigger q[k1].1.contains_name(n), q[k2].1.contains_name(n)]
            0 <= k1 < q.len() && 0 <= k2 < q.len() && k1 != k2 ==> !(q[k1].1.contains_name(n)
                && q[k2].1.contains_name(n)))
    }

    /// Creates a scheduler with no checks, no tickers and an idle runner.
    pub fn new() -> (s: Scheduler)
        ensures
            s.wf(),
            s.ticker_count() == 0,
            forall|name: Seq<char>| !s.registered(name),
            forall|interval_ms: u64| !s.has_interval(interval_ms),
            s.once_pending() =~= Seq::<Seq<char>>::empty(),
            !s.once_busy(),
    {
        Scheduler { job_queues: Vec::new(), once_runner: OnceRunner::new() }
    }

    /// The entry found at a position determines the spec-level lookup:
    /// interval uniqueness makes the chosen index that very position.
    proof fn lemma_entry_at(self, p: int)
        requires
            self.wf(),
            0 <= p < self.job_queues@.len(),
        ensures
            self.has_interval(self.job_queues@[p].0),
            self.entry_index(self.job_queues@[p].0) == p,
            self.queue_at(self.job_queues@[p].0) == self.job_queues@[p].1,
            self.ticker_at(self.job_queues@[p].0) == self.job_queues@[p].2,
    {
        let q = self.job_queues@;
        let d = q[p].0;
        assert(q[p].0 == d);
        let k = self.entry_index(d);
        if k != p {
            if k < p {
                assert(q[k].0 != q[p].0);
            } else {
                assert(q[p].0 != q[k].0);
            }
        }
    }

    /// Registering one more name in the queue an interval already has
    /// changes that queue alone: every spec-level observation of any other
    /// interval or name is untouched.
    proof fn lemma_add_existing_entry(self, pre: Scheduler, p: int, interval_ms: u64, name: Seq<
        char,
    >)
        requires
            pre.wf(),
            0 <= p < pre.job_queues@.len(),
            pre.job_queues@[p].0 == interval_ms,
            !pre.registered(name),
            interval_ms > 0,
            self.job_queues@.len() == pre.job_queues@.len(),
            forall|k: int|
                0 <= k < pre.job_queues@.len() && k != p ==> self.job_queues@[k]
                    == pre.job_queues@[k],
            self.job_queues@[p].0 == interval_ms,
            self.job_queues@[p].1.names() == pre.job_queues@[p].1.names().push(name),
            self.job_queues@[p].1.count() == pre.job_queues@[p].1.count(),
            self.job_queues@[p].1.wf(),
            self.job_queues@[p].2 == pre.job_queues@[p].2,
            self.once_runner == pre.once_runner,
        ensures
            self.wf(),
            self.registered(name),
            forall|m: Seq<char>| m != name ==> self.registered(m) == pre.registered(m),
            self.names_at(interval_ms) == pre.names_at(interval_ms).push(name),
            forall|d: u64| d != interval_ms ==> self.names_at(d) == pre.names_at(d),
            forall|d: u64| self.count_at(d) == pre.count_at(d),
            forall|d: u64| d != interval_ms ==> self.has_interval(d) == pre.has_interval(d),
            self.has_interval(interval_ms),
            self.ticker_count() == pre.ticker_count(),
            self.ticker_at(interval_ms) == pre.ticker_at(interval_ms),
            forall|d: u64|
                d != interval_ms && pre.has_interval(d) ==> self.ticker_at(d) == pre.ticker_at(d),
    {
        let q0 = pre.job_queues@;
        let q1 = self.job_queues@;
        assert forall|k1: int, k2: int, n: Seq<char>|
            #![trigger q1[k1].1.contains_name(n), q1[k2].1.contains_name(n)]
            0 <= k1 < q1.len() && 0 <= k2 < q1.len() && k1 != k2 implies !(q1[k1].1.contains_name(n)
            && q1[k2].1.contains_name(n)) by {
            if q1[k1].1.contains_name(n) && q1[k2].1.contains_name(n) {
                assert(k1 == p || q0[k1].1.contains_name(n));
                assert(k2 == p || q0[k2].1.contains_name(n));
                if k1 == p || k2 == p {
                    let kp = if k1 == p {
                        k1
                    } else {
                        k2
                    };
                    let ko = if k1 == p {
                        k2
                    } else {
                        k1
                    };
                    assert(q1[kp].1.names() == q0[p].1.names().push(name));
                    assert(q1[kp].1.contains_name(n));
                    if n == name {
                        assert(q0[ko].1.contains_name(name));
                        assert(pre.registered(name));
                    } else {
                        lemma_push_contains(q0[p].1.names(), name, n);
                        assert(q0[kp].1.contains_name(n));
                    }
                }
            }
        }
        assert(self.wf());
        assert(q1[p].1.names().last() == name);
        assert(q1[p].1.contains_name(name));
        assert(self.registered(name));
        assert forall|m: Seq<char>| m != name implies self.registered(m) == pre.registered(m) by {
            if pre.registered(m) {
                let k = choose|k: int| 0 <= k < q0.len() && q0[k].1.contains_name(m);
                if k == p {
                    lemma_push_contains(q0[p].1.names(), name, m);
                    assert(q1[p].1.contains_name(m));
                } else {
                    assert(q1[k].1.contains_name(m));
                }
            }
            if self.registered(m) {
                let k = choose|k: int| 0 <= k < q1.len() && q1[k].1.contains_name(m);
                if k == p {
                    lemma_push_contains(q0[p].1.names(), name, m);
                    assert(q0[p].1.contains_name(m));
                } else {
                    assert(q0[k].1.contains_name(m));
                }
            }
        }
        assert forall|d: u64| d != interval_ms implies self.has_interval(d) == pre.has_interval(
            d,
        ) by {
            if pre.has_interval(d) {
                let k = pre.entry_index(d);
                assert(q1[k].0 == d);
            }
            if self.has_interval(d) {
                let k = self.entry_index(d);
                assert(k != p);
                assert(q0[k].0 == d);
            }
        }
        pre.lemma_entry_at(p);
        self.lemma_entry_at(p);
        assert forall|d: u64| d != interval_ms && pre.has_interval(d) implies self.queue_at(d)
            == pre.queue_at(d) && self.ticker_at(d) == pre.ticker_at(d) by {
            let k = pre.entry_index(d);
            pre.lemma_entry_at(k);
            assert(k != p);
            assert(q1[k] == q0[k]);
            self.lemma_entry_at(k);
        }
        assert forall|d: u64| d != interval_ms implies self.names_at(d) == pre.names_at(d) by {}
        assert forall|d: u64| self.count_at(d) == pre.count_at(d) by {}
    }

    /// Opening a new interval appends one entry — a queue holding only the
    /// new name and a freshly armed ticker — and every spec-level
    /// observation of the old entries is untouched.
    proof fn lemma_add_new_entry(self, pre: Scheduler, interval_ms: u64, name: Seq<char>)
        requires
            pre.wf(),
            !pre.has_interval(interval_ms),
            !pre.registered(name),
            interval_ms > 0,
            self.job_queues@.len() == pre.job_queues@.len() + 1,
            forall|k: int|
                0 <= k < pre.job_queues@.len() ==> self.job_queues@[k] == pre.job_queues@[k],
            self.job_queues@.last().0 == interval_ms,
            self.job_queues@.last().1.names() == Seq::<Seq<char>>::empty().push(name),
            self.job_queues@.last().1.count() == 0,
            self.job_queues@.last().1.wf(),
            self.job_queues@.last().2.interval() == interval_ms,
            self.job_queues@.last().2.is_live(),
            forall|t_ms: u64| self.job_queues@.last().2.due_at(t_ms),
            self.once_runner == pre.once_runner,
        ensures
            self.wf(),
            self.registered(name),
            forall|m: Seq<char>| m != name ==> self.registered(m) == pre.registered(m),
            self.names_at(interval_ms) == pre.names_at(interval_ms).push(name),
            forall|d: u64| d != interval_ms ==> self.names_at(d) == pre.names_at(d),
            forall|d: u64| self.count_at(d) == pre.count_at(d),
            forall|d: u64| d != interval_ms ==> self.has_interval(d) == pre.has_interval(d),
            self.has_interval(interval_ms),
            self.ticker_count() == pre.ticker_count() + 1,
            forall|t_ms: u64| self.due_at(interval_ms, t_ms),
            forall|d: u64|
                d != interval_ms && pre.has_interval(d) ==> self.ticker_at(d) == pre.ticker_at(d),
    {
        let q0 = pre.job_queues@;
        let q1 = self.job_queues@;
        let p = q0.len() as int;
        assert(q1[p] == q1.last());
        assert(q1.last().1.names().last() == name);
        assert(q1.last().1.names().len() == 1);
        assert forall|k: int| 0 <= k < q1.len() implies (#[trigger] q1[k]).0 > 0 by {
            if k < p {
                assert(q1[k] == q0[k]);
            }
        }
        assert forall|k1: int, k2: int|
            #![trigger q1[k1].0, q1[k2].0]
            0 <= k1 < k2 < q1.len() implies q1[k1].0 != q1[k2].0 by {
            if k2 == p {
                assert(q0[k1].0 != interval_ms);
            }
        }
        assert forall|k1: int, k2: int, n: Seq<char>|
            #![trigger q1[k1].1.contains_name(n), q1[k2].1.contains_name(n)]
            0 <= k1 < q1.len() && 0 <= k2 < q1.len() && k1 != k2 implies !(q1[k1].1.contains_name(n)
            && q1[k2].1.contains_name(n)) by {
            if q1[k1].1.contains_name(n) && q1[k2].1.contains_name(n) {
                let kp = if k1 == p {
                    k1
                } else {
                    k2
                };
                let ko = if k1 == p {
                    k2
                } else {
                    k1
                };
                if kp == p {
                    assert(q1[p].1.names() =~= seq![name]);
                    assert(q1[p].1.contains_name(n));
                    assert(n == name);
                    assert(ko < p);
                    assert(q0[ko].1.contains_name(name));
                    assert(pre.registered(name));
                }
            }
        }
        assert(self.wf());
        assert(q1[p].1.contains_name(name));
        assert(self.registered(name));
        assert forall|m: Seq<char>| m != name implies self.registered(m) == pre.registered(m) by {
            if pre.registered(m) {
                let k = choose|k: int| 0 <= k < q0.len() && q0[k].1.contains_name(m);
                assert(q1[k].1.contains_name(m));
            }
            if self.registered(m) {
                let k = choose|k: int| 0 <= k < q1.len() && q1[k].1.contains_name(m);
                if k == p {
                    assert(q1[p].1.names() =~= seq![name]);
                    assert(m == name);
                } else {
                    assert(q0[k].1.contains_name(m));
                }
            }
        }
        assert forall|d: u64| d != interval_ms implies self.has_interval(d) == pre.has_interval(
            d,
        ) by {
            if pre.has_interval(d) {
                let k = pre.entry_index(d);
                assert(q1[k].0 == d);
            }
            if self.has_interval(d) {
                let k = self.entry_index(d);
                assert(k != p);
                assert(q0[k].0 == d);
            }
        }
        self.lemma_entry_at(p);
        assert(self.names_at(interval_ms) == q1[p].1.names());
        assert(pre.names_at(interval_ms) =~= Seq::<Seq<char>>::empty());
        assert forall|d: u64| d != interval_ms && pre.has_interval(d) implies self.queue_at(d)
            == pre.queue_at(d) && self.ticker_at(d) == pre.ticker_at(d) by {
            let k = pre.entry_index(d);
            pre.lemma_entry_at(k);
            assert(q1[k] == q0[k]);
            self.lemma_entry_at(k);
        }
        assert forall|d: u64| d != interval_ms implies self.names_at(d) == pre.names_at(d) by {}
        assert forall|d: u64| self.count_at(d) == pre.count_at(d) by {
            if d == interval_ms {
                assert(self.count_at(d) == 0);
            }
        }
    }

    /// Everything `add_check` promises, as one relation between the state
    /// before the call, the state after it, and the result: a zero interval
    /// or a duplicate name is rejected with the matching error and no state
    /// change at all; otherwise the check joins its interval's queue — a
    /// fresh queue with a freshly armed ticker if the interval is new — and
    /// nothing else moves: no other name, queue, counter or ticker.
    pub open spec fn add_check_post(
        pre: Scheduler,
        post: Scheduler,
        name: Seq<char>,
        interval_ms: u64,
        r: Result<(), SchedulingError>,
    ) -> bool {
        &&& post.wf()
        &&& (r is Ok <==> interval_ms > 0 && !pre.registered(name))
        &&& (interval_ms == 0 ==> r == Err::<(), SchedulingError>(SchedulingError::InvalidInterval)
            && post == pre)
        &&& (interval_ms > 0 && pre.registered(name) ==> r == Err::<(), SchedulingError>(
            SchedulingError::DuplicateCheck,
        ) && post == pre)
        &&& (interval_ms > 0 ==> post.registered(name))
        &&& (forall|m: Seq<char>| m != name ==> post.registered(m) == pre.registered(m))
        &&& (r is Ok ==> post.names_at(interval_ms) == pre.names_at(interval_ms).push(name))
        &&& (forall|d: u64| d != interval_ms ==> post.names_at(d) == pre.names_at(d))
        &&& (forall|d: u64| post.count_at(d) == pre.count_at(d))
        &&& (forall|d: u64| d != interval_ms ==> post.has_interval(d) == pre.has_interval(d))
        &&& (r is Ok ==> post.has_interval(interval_ms))
        &&& (r is Ok ==> post.ticker_count() == pre.ticker_count() + (if pre.has_interval(
            interval_ms,
        ) {
            0int
        } else {
            1int
        }))
        &&& (r is Ok && !pre.has_interval(interval_ms) ==> forall|t_ms: u64|
            post.due_at(interval_ms, t_ms))
        &&& (r is Ok && pre.has_interval(interval_ms) ==> post.ticker_at(interval_ms)
            == pre.ticker_at(interval_ms))
        &&& (forall|d: u64| d != interval_ms && pre.has_interval(d) ==> post.ticker_at(d)
            == pre.ticker_at(d))
        &&& post.once_pending() == pre.once_pending()
        &&& post.once_running() == pre.once_running()
    }

    /// Registers the named check at the given interval. A zero interval is
    /// refused as `InvalidInterval` and a name already registered as
    /// `DuplicateCheck`, in both cases before any state is touched; on
    /// success the check joins the interval's queue, arming a fresh ticker
    /// when the interval was not in use yet. Immediately afterwards the
    /// check is registered — so `has_ticker` answers true — whenever the
    /// interval is positive, duplicate or not.
    pub fn add_check(&mut self, check_name: String, interval_ms: u64) -> (r: Result<
        (),
        SchedulingError,
    >)
        requires
            old(self).wf(),
        ensures
            Self::add_check_post(*old(self), *final(self), check_name@, interval_ms, r),
    {
        let ghost gname = check_name@;
        if interval_ms == 0 {
            return Err(SchedulingError::InvalidInterval);
        }
        if self.has_ticker(check_name.as_str()) {
            return Err(SchedulingError::DuplicateCheck);
        }
        match self.find_interval(interval_ms) {
            Some(p) => {
                let ghost pre = *self;
                let mut entry = self.job_queues.remove(p);
                proof {
                    pre.lemma_entry_at(p as int);
                    assert(!entry.1.contains_name(gname));
                }
                entry.1.add_check(check_name);
                self.job_queues.insert(p, entry);
                proof {
                    assert(self.job_queues@ =~= pre.job_queues@.update(p as int, entry));
                    self.lemma_add_existing_entry(pre, p as int, interval_ms, gname);
                }
                Ok(())
            },
            None => {
                let ghost pre = *self;
                let mut queue = JobQueue::new();
                queue.add_check(check_name);
                let ticker = Ticker::new(interval_ms);
                self.job_queues.push((interval_ms, queue, ticker));
                proof {
                    self.lemma_add_new_entry(pre, interval_ms, gname);
                }
                Ok(())
            },
        }
    }

    /// Everything `stop_check` promises, as one relation between the state
    /// before the call and the state after it: the name is gone from every
    /// queue and the other names stay in theirs; a queue left empty is torn
    /// down together with its ticker, and any other queue keeps its counter
    /// and its ticker exactly as they were. Stopping an unregistered name
    /// leaves an observably identical registry, which makes the call
    /// idempotent.
    pub open spec fn stop_check_post(pre: Scheduler, post: Scheduler, name: Seq<char>) -> bool {
        &&& post.wf()
        &&& !post.registered(name)
        &&& (forall|m: Seq<char>| m != name ==> post.registered(m) == pre.registered(m))
        &&& (forall|d: u64| post.names_at(d) == pre.names_at(d).filter(keeps_name(name)))
        &&& (forall|d: u64|
            post.has_interval(d) == (pre.has_interval(d) && pre.names_at(d).filter(
                keeps_name(name),
            ).len() > 0))
        &&& (forall|d: u64| post.has_interval(d) ==> post.count_at(d) == pre.count_at(d))
        &&& (forall|d: u64| post.has_interval(d) ==> post.ticker_at(d) == pre.ticker_at(d))
        &&& post.ticker_count() == pre.ticker_count() - (if (exists|d: u64|
            #[trigger] pre.names_at(d) == seq![name]) {
            1nat
        } else {
            0nat
        })
        &&& post.once_pending() == pre.once_pending()
        &&& post.once_running() == pre.once_running()
    }

    /// Stops the named check: removes it from its queue, and when that
    /// queue is left empty tears the queue and its ticker down, so no turn
    /// on that interval fires again. Stopping a name that is not
    /// registered is a no-op, not an error. No other check, counter or
    /// ticker is disturbed.
    pub fn stop_check(&mut self, check_name: &str)
        requires
            old(self).wf(),
        ensures
            Self::stop_check_post(*old(self), *final(self), check_name@),
    {
        let ghost gname = check_name@;
        let owned: String = check_name.to_owned();
        match self.find_check(&owned) {
            None => {
                proof {
                    self.lemma_stop_absent(gname);
                }
            },
            Some(p) => {
                let ghost pre = *self;
                let mut entry = self.job_queues.remove(p);
                let now_empty = entry.1.remove_check(check_name);
                if now_empty {
                    proof {
                        assert(self.job_queues@ =~= pre.job_queues@.remove(p as int));
                        self.lemma_stop_removed_entry(pre, p as int, gname);
                    }
                } else {
                    self.job_queues.insert(p, entry);
                    proof {
                        assert(self.job_queues@ =~= pre.job_queues@.update(p as int, entry));
                        self.lemma_stop_updated_entry(pre, p as int, gname);
                    }
                }
            },
        }
    }

    /// Stopping a name that no queue holds changes nothing observable.
    proof fn lemma_stop_absent(self, name: Seq<char>)
        requires
            self.wf(),
            !self.registered(name),
        ensures
            Self::stop_check_post(self, self, name),
    {
        let q = self.job_queues@;
        assert forall|d: u64| self.names_at(d) == #[trigger] self.names_at(d).filter(
            keeps_name(name),
        ) by {
            if self.has_interval(d) {
                let k = self.entry_index(d);
                self.lemma_entry_at(k);
                assert(!q[k].1.contains_name(name));
                assert forall|i: int| 0 <= i < q[k].1.names().len() implies q[k].1.names()[i]
                    != name by {
                    if q[k].1.names()[i] == name {
                        assert(q[k].1.contains_name(name));
                    }
                }
                lemma_filter_keeps_all(q[k].1.names(), name);
            } else {
                lemma_filter_keeps_all(Seq::<Seq<char>>::empty(), name);
            }
        }
        assert forall|d: u64| #[trigger] self.has_interval(d) implies self.names_at(d).filter(
            keeps_name(name),
        ).len() > 0 by {
            let k = self.entry_index(d);
            self.lemma_entry_at(k);
        }
        assert forall|d: u64| #[trigger] self.names_at(d) != seq![name] by {
            if self.names_at(d) == seq![name] {
                assert(self.names_at(d)[0] == name);
                assert(self.names_at(d).contains(name));
                assert(self.has_interval(d));
                let k = self.entry_index(d);
                assert(self.job_queues@[k].1.contains_name(name));
                assert(self.registered(name));
            }
        }
    }

    /// Removing the name from the one queue that held it, where other
    /// names remain in that queue: the entry stays, with its names
    /// filtered, and nothing else is observably changed.
    proof fn lemma_stop_updated_entry(self, pre: Scheduler, p: int, name: Seq<char>)
        requires
            pre.wf(),
            0 <= p < pre.job_queues@.len(),
            pre.job_queues@[p].1.contains_name(name),
            self.job_queues@.len() == pre.job_queues@.len(),
            forall|k: int|
                0 <= k < pre.job_queues@.len() && k != p ==> self.job_queues@[k]
                    == pre.job_queues@[k],
            self.job_queues@[p].0 == pre.job_queues@[p].0,
            self.job_queues@[p].1.names() == pre.job_queues@[p].1.names().filter(
                keeps_name(name),
            ),
            self.job_queues@[p].1.names().len() > 0,
            self.job_queues@[p].1.count() == pre.job_queues@[p].1.count(),
            self.job_queues@[p].1.wf(),
            self.job_queues@[p].2 == pre.job_queues@[p].2,
            self.once_runner == pre.once_runner,
        ensures
            Self::stop_check_post(pre, self, name),
    {
        let q0 = pre.job_queues@;
        let q1 = self.job_queues@;
        let d0 = q0[p].0;
        // Any queue but the one at p never held the name.
        assert forall|k: int| 0 <= k < q0.len() && k != p implies !(#[trigger] q0[k]).1.contains_name(
            name,
        ) by {
            assert(q0[p].1.contains_name(name));
        }
        assert(!q1[p].1.contains_name(name)) by {
            lemma_filter_drops_name(q0[p].1.names(), name);
        }
        assert forall|k1: int, k2: int, n: Seq<char>|
            #![trigger q1[k1].1.contains_name(n), q1[k2].1.contains_name(n)]
            0 <= k1 < q1.len() && 0 <= k2 < q1.len() && k1 != k2 implies !(q1[k1].1.contains_name(n)
            && q1[k2].1.contains_name(n)) by {
            if q1[k1].1.contains_name(n) && q1[k2].1.contains_name(n) {
                if k1 == p || k2 == p {
                    let kp = if k1 == p {
                        k1
                    } else {
                        k2
                    };
                    let ko = if k1 == p {
                        k2
                    } else {
                        k1
                    };
                    assert(q1[kp].1.contains_name(n));
                    Seq::lemma_filter_contains_rev(q0[p].1.names(), keeps_name(name), n);
                    assert(q0[p].1.contains_name(n));
                    assert(q0[ko].1.contains_name(n));
                }
            }
        }
        assert(self.wf());
        assert(!self.registered(name)) by {
            if self.registered(name) {
                let k = choose|k: int| 0 <= k < q1.len() && q1[k].1.contains_name(name);
                assert(k == p);
            }
        }
        assert forall|m: Seq<char>| m != name implies self.registered(m) == pre.registered(m) by {
            if pre.registered(m) {
                let k = choose|k: int| 0 <= k < q0.len() && q0[k].1.contains_name(m);
                if k == p {
                    lemma_filter_contains_other(q0[p].1.names(), name, m);
                    assert(q1[p].1.contains_name(m));
                } else {
                    assert(q1[k].1.contains_name(m));
                }
            }
            if self.registered(m) {
                let k = choose|k: int| 0 <= k < q1.len() && q1[k].1.contains_name(m);
                if k == p {
                    lemma_filter_contains_other(q0[p].1.names(), name, m);
                    assert(q0[p].1.contains_name(m));
                } else {
                    assert(q0[k].1.contains_name(m));
                }
            }
        }
        assert forall|d: u64| d != d0 implies self.has_interval(d) == pre.has_interval(d) by {
            if pre.has_interval(d) {
                let k = pre.entry_index(d);
                assert(q1[k].0 == d);
            }
            if self.has_interval(d) {
                let k = self.entry_index(d);
                assert(k != p);
                assert(q0[k].0 == d);
            }
        }
        pre.lemma_entry_at(p);
        self.lemma_entry_at(p);
        assert forall|d: u64|
            d != d0 && pre.has_interval(d) implies self.queue_at(d) == pre.queue_at(d)
            && self.ticker_at(d) == pre.ticker_at(d) by {
            let k = pre.entry_index(d);
            pre.lemma_entry_at(k);
            assert(k != p);
            assert(q1[k] == q0[k]);
            self.lemma_entry_at(k);
        }
        // Queues other than the one at p are unchanged by the filter.
        assert forall|d: u64| d != d0 && pre.has_interval(d) implies pre.names_at(d).filter(
            keeps_name(name),
        ) == pre.names_at(d) by {
            let k = pre.entry_index(d);
            pre.lemma_entry_at(k);
            assert(!q0[k].1.contains_name(name));
            assert forall|i: int| 0 <= i < q0[k].1.names().len() implies q0[k].1.names()[i]
                != name by {
                if q0[k].1.names()[i] == name {
                    assert(q0[k].1.contains_name(name));
                }
            }
            lemma_filter_keeps_all(q0[k].1.names(), name);
        }
        assert forall|d: u64| self.names_at(d) == #[trigger] pre.names_at(d).filter(
            keeps_name(name),
        ) by {
            if d == d0 {
            } else if pre.has_interval(d) {
            } else {
                lemma_filter_keeps_all(Seq::<Seq<char>>::empty(), name);
            }
        }
        assert forall|d: u64|
            self.has_interval(d) == (pre.has_interval(d) && #[trigger] pre.names_at(d).filter(
                keeps_name(name),
            ).len() > 0) by {
            if d == d0 {
                assert(self.has_interval(d0));
                assert(pre.names_at(d0).filter(keeps_name(name)) == q1[p].1.names());
            } else if pre.has_interval(d) {
                let k = pre.entry_index(d);
                pre.lemma_entry_at(k);
            }
        }
        assert forall|d: u64| #[trigger] pre.names_at(d) != seq![name] by {
            if pre.names_at(d) == seq![name] {
                assert(pre.names_at(d)[0] == name);
                assert(pre.names_at(d).contains(name));
                assert(pre.has_interval(d));
                let k = pre.entry_index(d);
                pre.lemma_entry_at(k);
                assert(q0[k].1.contains_name(name));
                assert(k == p);
                assert(q0[p].1.names() == seq![name]);
                assert forall|i: int|
                    0 <= i < q0[p].1.names().len() implies !(keeps_name(name)(
                    q0[p].1.names()[i],
                )) by {}
                q0[p].1.names().lemma_all_neg_filter_empty(keeps_name(name));
            }
        }
    }

    /// Removing the name from the one queue that held it, where it was the
    /// only name there: the whole entry is torn down, and nothing else is
    /// observably changed.
    proof fn lemma_stop_removed_entry(self, pre: Scheduler, p: int, name: Seq<char>)
        requires
            pre.wf(),
            0 <= p < pre.job_queues@.len(),
            pre.job_queues@[p].1.contains_name(name),
            pre.job_queues@[p].1.names().filter(keeps_name(name)).len() == 0,
            self.job_queues@ == pre.job_queues@.remove(p),
            self.once_runner == pre.once_runner,
        ensures
            Self::stop_check_post(pre, self, name),
    {
        let q0 = pre.job_queues@;
        let q1 = self.job_queues@;
        let d0 = q0[p].0;
        // Positions in the shortened registry map back into the old one.
        assert forall|k: int| 0 <= k < q1.len() implies #[trigger] q1[k] == q0[
            if k < p {
                k
            } else {
                k + 1
            }
        ] by {}
        assert forall|k: int| 0 <= k < q0.len() && k != p implies #[trigger] q0[k] == q1[
            if k < p {
                k
            } else {
                k - 1
            }
        ] by {}
        assert forall|k: int| 0 <= k < q0.len() && k != p implies !(#[trigger] q0[k]).1.contains_name(
            name,
        ) by {
            assert(q0[p].1.contains_name(name));
        }
        assert(self.wf());
        assert(!self.registered(name)) by {
            if self.registered(name) {
                let k = choose|k: int| 0 <= k < q1.len() && q1[k].1.contains_name(name);
            }
        }
        // The dropped queue held nothing but the name.
        lemma_filter_empty_all_name(q0[p].1.names(), name);
        assert forall|m: Seq<char>| m != name implies self.registered(m) == pre.registered(m) by {
            if pre.registered(m) {
                let k = choose|k: int| 0 <= k < q0.len() && q0[k].1.contains_name(m);
                if k == p {
                    let i = choose|i: int|
                        0 <= i < q0[p].1.names().len() && q0[p].1.names()[i] == m;
                    assert(m == name);
                } else {
                    let k1 = if k < p {
                        k
                    } else {
                        k - 1
                    };
                    assert(q1[k1].1.contains_name(m));
                }
            }
            if self.registered(m) {
                let k = choose|k: int| 0 <= k < q1.len() && q1[k].1.contains_name(m);
                let k0 = if k < p {
                    k
                } else {
                    k + 1
                };
                assert(q0[k0].1.contains_name(m));
            }
        }
        assert forall|d: u64| d != d0 implies self.has_interval(d) == pre.has_interval(d) by {
            if pre.has_interval(d) {
                let k = pre.entry_index(d);
                assert(k != p);
                let k1 = if k < p {
                    k
                } else {
                    k - 1
                };
                assert(q1[k1].0 == d);
            }
            if self.has_interval(d) {
                let k = self.entry_index(d);
                let k0 = if k < p {
                    k
                } else {
                    k + 1
                };
                assert(q0[k0].0 == d);
            }
        }
        assert(!self.has_interval(d0)) by {
            if self.has_interval(d0) {
                let k = self.entry_index(d0);
                let k0 = if k < p {
                    k
                } else {
                    k + 1
                };
                assert(q0[k0].0 == d0);
                pre.lemma_entry_at(p);
                pre.lemma_entry_at(k0);
            }
        }
        assert forall|d: u64|
            d != d0 && pre.has_interval(d) implies self.queue_at(d) == pre.queue_at(d)
            && self.ticker_at(d) == pre.ticker_at(d) by {
            let k = pre.entry_index(d);
            pre.lemma_entry_at(k);
            assert(k != p);
            let k1 = if k < p {
                k
            } else {
                k - 1
            };
            assert(q1[k1] == q0[k]);
            self.lemma_entry_at(k1);
        }
        assert forall|d: u64| d != d0 && pre.has_interval(d) implies pre.names_at(d).filter(
            keeps_name(name),
        ) == pre.names_at(d) by {
            let k = pre.entry_index(d);
            pre.lemma_entry_at(k);
            assert(!q0[k].1.contains_name(name));
            assert forall|i: int| 0 <= i < q0[k].1.names().len() implies q0[k].1.names()[i]
                != name by {
                if q0[k].1.names()[i] == name {
                    assert(q0[k].1.contains_name(name));
                }
            }
            lemma_filter_keeps_all(q0[k].1.names(), name);
        }
        pre.lemma_entry_at(p);
        assert forall|d: u64| self.names_at(d) == #[trigger] pre.names_at(d).filter(
            keeps_name(name),
        ) by {
            if d == d0 {
                assert(self.names_at(d0) =~= Seq::<Seq<char>>::empty());
                assert(pre.names_at(d0).filter(keeps_name(name)).len() == 0);
                assert(pre.names_at(d0).filter(keeps_name(name)) =~= Seq::<Seq<char>>::empty());
            } else if pre.has_interval(d) {
            } else {
                lemma_filter_keeps_all(Seq::<Seq<char>>::empty(), name);
            }
        }
        assert forall|d: u64|
            self.has_interval(d) == (pre.has_interval(d) && #[trigger] pre.names_at(d).filter(
                keeps_name(name),
            ).len() > 0) by {
            if d == d0 {
            } else if pre.has_interval(d) {
                let k = pre.entry_index(d);
                pre.lemma_entry_at(k);
            }
        }
        // The dropped queue was exactly the singleton of the name, which
        // pins the ticker count's step.
        let nm = q0[p].1.names();
        assert(nm.len() > 0);
        if nm.len() > 1 {
            assert(nm[0] == name && nm[1] == name);
            assert(false);
        }
        assert(nm =~= seq![name]);
        assert(pre.names_at(d0) == seq![name]);
        assert(self.ticker_count() == pre.ticker_count() - 1);
    }

    /// Finds the registry position of the interval's entry, if it has one.
    fn find_interval(&self, interval_ms: u64) -> (r: Option<usize>)
        ensures
            match r {
                Some(p) => p < self.job_queues@.len() && self.job_queues@[p as int].0
                    == interval_ms,
                None => !self.has_interval(interval_ms),
            },
    {
        let mut k: usize = 0;
        while k < self.job_queues.len()
            invariant
                k <= self.job_queues.len(),
                forall|j: int| 0 <= j < k ==> (#[trigger] self.job_queues@[j]).0 != interval_ms,
            decreases self.job_queues.len() - k,
        {
            if self.job_queues[k].0 == interval_ms {
                return Some(k);
            }
            k += 1;
        }
        None
    }

    /// Finds the registry position of the queue holding the named check,
    /// if any queue does.
    fn find_check(&self, check_name: &String) -> (r: Option<usize>)
        ensures
            match r {
                Some(p) => p < self.job_queues@.len() && self.job_queues@[p as int].1.contains_name(
                    check_name@,
                ),
                None => !self.registered(check_name@),
            },
    {
        let mut k: usize = 0;
        while k < self.job_queues.len()
            invariant
                k <= self.job_queues.len(),
                forall|j: int|
                    0 <= j < k ==> !(#[trigger] self.job_queues@[j]).1.contains_name(check_name@),
            decreases self.job_queues.len() - k,
        {
            if self.job_queues[k].1.has_check(check_name) {
                return Some(k);
            }
            k += 1;
        }
        None
    }

    /// Everything `tick` promises: an interval with no entry reports
    /// `Stopped` and changes nothing — that is how a ticker thread
    /// observes its teardown. A due turn fires: it hands back exactly the
    /// interval's checks in insertion order, charges their executions to
    /// that interval's counter — counters never move otherwise, and never
    /// decrease — and pushes the next due time a full interval past
    /// `now_ms`, the self-correcting cadence. An early turn only reports
    /// how long to wait and moves nothing. No other interval, name, queue
    /// or ticker is touched in any case.
    pub open spec fn tick_post(
        pre: Scheduler,
        post: Scheduler,
        interval_ms: u64,
        now_ms: u64,
        outcome: TickOutcome,
    ) -> bool {
        &&& post.wf()
        &&& (!pre.has_interval(interval_ms) ==> outcome == TickOutcome::Stopped && post == pre)
        &&& (pre.has_interval(interval_ms) && pre.due_at(interval_ms, now_ms) ==> (outcome matches
        TickOutcome::Fired { executed, sleep_ms } && executed@.map_values(|s: String| s@)
            == pre.names_at(interval_ms) && sleep_ms == interval_ms && post.count_at(interval_ms)
            == pre.count_at(interval_ms) + pre.names_at(interval_ms).len() && post.due_from_at(
            interval_ms,
        ) == now_ms + interval_ms && (forall|t_ms: u64|
            post.due_at(interval_ms, t_ms) == (t_ms >= now_ms + interval_ms))))
        &&& (pre.has_interval(interval_ms) && !pre.due_at(interval_ms, now_ms) ==> (outcome matches
        TickOutcome::Waiting { sleep_ms } && sleep_ms > 0 && now_ms + sleep_ms == pre.due_from_at(
            interval_ms,
        ) && (forall|t_ms: u64|
            pre.due_at(interval_ms, t_ms) == (t_ms >= now_ms + sleep_ms)) && post.count_at(
            interval_ms,
        ) == pre.count_at(interval_ms) && post.ticker_at(interval_ms) == pre.ticker_at(
            interval_ms,
        )))
        &&& (forall|m: Seq<char>| post.registered(m) == pre.registered(m))
        &&& (forall|d: u64| post.has_interval(d) == pre.has_interval(d))
        &&& (forall|d: u64| post.names_at(d) == pre.names_at(d))
        &&& (forall|d: u64| d != interval_ms ==> post.count_at(d) == pre.count_at(d))
        &&& (forall|d: u64| post.count_at(d) >= pre.count_at(d))
        &&& (forall|d: u64|
            d != interval_ms && pre.has_interval(d) ==> post.ticker_at(d) == pre.ticker_at(d))
        &&& post.ticker_count() == pre.ticker_count()
        &&& post.once_pending() == pre.once_pending()
        &&& post.once_running() == pre.once_running()
    }

    /// One scheduling turn for the given interval, at time `now_ms`: the
    /// entry point a ticker thread drives. Reports `Stopped` when the
    /// interval has been torn down, fires the interval's checks when due —
    /// counting their executions and rescheduling a full interval after
    /// `now_ms` — and otherwise says how long to wait.
    pub fn tick(&mut self, interval_ms: u64, now_ms: u64) -> (outcome: TickOutcome)
        requires
            old(self).wf(),
            now_ms + interval_ms <= u64::MAX,
            old(self).count_at(interval_ms) + old(self).names_at(interval_ms).len() <= usize::MAX,
        ensures
            Self::tick_post(*old(self), *final(self), interval_ms, now_ms, outcome),
    {
        match self.find_interval(interval_ms) {
            None => TickOutcome::Stopped,
            Some(p) => {
                let ghost pre = *self;
                let mut entry = self.job_queues.remove(p);
                proof {
                    pre.lemma_entry_at(p as int);
                }
                let turn = entry.2.poll(now_ms, false);
                match turn {
                    TickerTurn::Fire { sleep_ms } => {
                        let executed = entry.1.execute_checks();
                        self.job_queues.insert(p, entry);
                        proof {
                            assert(self.job_queues@ =~= pre.job_queues@.update(p as int, entry));
                            self.lemma_tick_entry_frame(pre, p as int);
                        }
                        TickOutcome::Fired { executed, sleep_ms }
                    },
                    TickerTurn::Wait { sleep_ms } => {
                        self.job_queues.insert(p, entry);
                        proof {
                            assert(self.job_queues@ =~= pre.job_queues@.update(p as int, entry));
                            self.lemma_tick_entry_frame(pre, p as int);
                        }
                        TickOutcome::Waiting { sleep_ms }
                    },
                    TickerTurn::Stop => {
                        proof {
                            assert(false);
                        }
                        TickOutcome::Stopped
                    },
                }
            },
        }
    }

    /// Exchanging the queue's counter and the ticker of one entry — names,
    /// interval and everything else staying put — leaves every observation
    /// of other intervals and of all names as it was.
    proof fn lemma_tick_entry_frame(self, pre: Scheduler, p: int)
        requires
            pre.wf(),
            0 <= p < pre.job_queues@.len(),
            self.job_queues@.len() == pre.job_queues@.len(),
            forall|k: int|
                0 <= k < pre.job_queues@.len() && k != p ==> self.job_queues@[k]
                    == pre.job_queues@[k],
            self.job_queues@[p].0 == pre.job_queues@[p].0,
            self.job_queues@[p].1.names() == pre.job_queues@[p].1.names(),
            self.job_queues@[p].1.wf(),
            self.job_queues@[p].2.interval() == self.job_queues@[p].0,
            self.job_queues@[p].2.is_live(),
            self.once_runner == pre.once_runner,
        ensures
            self.wf(),
            forall|m: Seq<char>| self.registered(m) == pre.registered(m),
            forall|d: u64| self.has_interval(d) == pre.has_interval(d),
            forall|d: u64| self.names_at(d) == pre.names_at(d),
            forall|d: u64|
                d != pre.job_queues@[p].0 ==> self.count_at(d) == pre.count_at(d),
            self.count_at(pre.job_queues@[p].0) == self.job_queues@[p].1.count(),
            pre.count_at(pre.job_queues@[p].0) == pre.job_queues@[p].1.count(),
            self.ticker_at(pre.job_queues@[p].0) == self.job_queues@[p].2,
            forall|d: u64|
                d != pre.job_queues@[p].0 && pre.has_interval(d) ==> self.ticker_at(d)
                    == pre.ticker_at(d),
            self.ticker_count() == pre.ticker_count(),
    {
        let q0 = pre.job_queues@;
        let q1 = self.job_queues@;
        let d0 = q0[p].0;
        assert forall|k: int| 0 <= k < q1.len() implies (#[trigger] q1[k]).1.names() == q0[
            k
        ].1.names() by {}
        assert forall|k1: int, k2: int, n: Seq<char>|
            #![trigger q1[k1].1.contains_name(n), q1[k2].1.contains_name(n)]
            0 <= k1 < q1.len() && 0 <= k2 < q1.len() && k1 != k2 implies !(q1[k1].1.contains_name(n)
            && q1[k2].1.contains_name(n)) by {
            if q1[k1].1.contains_name(n) && q1[k2].1.contains_name(n) {
                assert(q0[k1].1.contains_name(n));
                assert(q0[k2].1.contains_name(n));
            }
        }
        assert(self.wf());
        assert forall|m: Seq<char>| self.registered(m) == pre.registered(m) by {
            if pre.registered(m) {
                let k = choose|k: int| 0 <= k < q0.len() && q0[k].1.contains_name(m);
                assert(q1[k].1.contains_name(m));
            }
            if self.registered(m) {
                let k = choose|k: int| 0 <= k < q1.len() && q1[k].1.contains_name(m);
                assert(q0[k].1.contains_name(m));
            }
        }
        assert forall|d: u64| self.has_interval(d) == pre.has_interval(d) by {
            if pre.has_interval(d) {
                let k = pre.entry_index(d);
                assert(q1[k].0 == d);
            }
            if self.has_interval(d) {
                let k = self.entry_index(d);
                assert(q0[k].0 == d);
            }
        }
        pre.lemma_entry_at(p);
        self.lemma_entry_at(p);
        assert forall|d: u64|
            d != d0 && pre.has_interval(d) implies self.queue_at(d) == pre.queue_at(d)
            && self.ticker_at(d) == pre.ticker_at(d) by {
            let k = pre.entry_index(d);
            pre.lemma_entry_at(k);
            assert(k != p);
            assert(q1[k] == q0[k]);
            self.lemma_entry_at(k);
        }
        assert(self.names_at(d0) == pre.names_at(d0));
        assert forall|d: u64| self.names_at(d) == pre.names_at(d) by {}
        assert forall|d: u64| d != d0 implies self.count_at(d) == pre.count_at(d) by {}
    }

    /// A read-only snapshot of the statistics: one pair per interval in
    /// use, carrying that interval's execution count. Every interval in
    /// use appears exactly once.
    pub fn get_scheduler_stats(&self) -> (stats: Vec<(u64, usize)>)
        requires
            self.wf(),
        ensures
            stats@.len() == self.ticker_count(),
            forall|k: int|
                0 <= k < stats@.len() ==> self.has_interval((#[trigger] stats@[k]).0)
                    && stats@[k].1 == self.count_at(stats@[k].0),
            forall|d: u64|
                #[trigger] self.has_interval(d) ==> exists|k: int|
                    0 <= k < stats@.len() && (#[trigger] stats@[k]).0 == d,
            forall|k1: int, k2: int|
                #![trigger stats@[k1].0, stats@[k2].0]
                0 <= k1 < k2 < stats@.len() ==> stats@[k1].0 != stats@[k2].0,
    {
        let mut stats: Vec<(u64, usize)> = Vec::new();
        let mut k: usize = 0;
        while k < self.job_queues.len()
            invariant
                k <= self.job_queues.len(),
                stats@.len() == k,
                forall|j: int|
                    0 <= j < k ==> (#[trigger] stats@[j]).0 == self.job_queues@[j].0 && stats@[j].1
                        == self.job_queues@[j].1.count(),
            decreases self.job_queues.len() - k,
        {
            let count = self.job_queues[k].1.get_stats();
            stats.push((self.job_queues[k].0, count));
            k += 1;
        }
        proof {
            assert forall|j: int| 0 <= j < stats@.len() implies self.has_interval(
                (#[trigger] stats@[j]).0,
            ) && stats@[j].1 == self.count_at(stats@[j].0) by {
                self.lemma_entry_at(j);
            }
            assert forall|d: u64| #[trigger] self.has_interval(d) implies exists|k: int|
                0 <= k < stats@.len() && (#[trigger] stats@[k]).0 == d by {
                let j = self.entry_index(d);
                self.lemma_entry_at(j);
                assert(stats@[j].0 == d);
            }
            assert forall|k1: int, k2: int|
                #![trigger stats@[k1].0, stats@[k2].0]
                0 <= k1 < k2 < stats@.len() implies stats@[k1].0 != stats@[k2].0 by {
                assert(self.job_queues@[k1].0 != self.job_queues@[k2].0);
            }
        }
        stats
    }

    /// The registry side of the scheduler — queues, counters, tickers,
    /// registrations — observably identical in two states; the one-shot
    /// runner is free to differ.
    pub open spec fn registry_unchanged(pre: Scheduler, post: Scheduler) -> bool {
        &&& post.wf() == pre.wf()
        &&& post.ticker_count() == pre.ticker_count()
        &&& (forall|m: Seq<char>| post.registered(m) == pre.registered(m))
        &&& (forall|d: u64| post.has_interval(d) == pre.has_interval(d))
        &&& (forall|d: u64| post.names_at(d) == pre.names_at(d))
        &&& (forall|d: u64| post.count_at(d) == pre.count_at(d))
        &&& (forall|d: u64| pre.has_interval(d) ==> post.ticker_at(d) == pre.ticker_at(d))
    }

    /// Two states with the very same registry entries observe alike on
    /// every interval and name, whatever their one-shot runners hold.
    proof fn lemma_same_registry(self, pre: Scheduler)
        requires
            pre.wf(),
            self.job_queues == pre.job_queues,
        ensures
            Self::registry_unchanged(pre, self),
    {
        let q = self.job_queues@;
        assert(q == pre.job_queues@);
        assert(self.wf());
        assert forall|m: Seq<char>| self.registered(m) == pre.registered(m) by {
            if pre.registered(m) {
                let k = choose|k: int|
                    0 <= k < pre.job_queues@.len() && pre.job_queues@[k].1.contains_name(m);
                assert(self.job_queues@[k].1.contains_name(m));
            }
            if self.registered(m) {
                let k = choose|k: int|
                    0 <= k < self.job_queues@.len() && self.job_queues@[k].1.contains_name(m);
                assert(pre.job_queues@[k].1.contains_name(m));
            }
        }
        assert forall|d: u64| self.has_interval(d) == pre.has_interval(d) by {
            if pre.has_interval(d) {
                let k = pre.entry_index(d);
                assert(self.job_queues@[k].0 == d);
            }
            if self.has_interval(d) {
                let k = self.entry_index(d);
                assert(pre.job_queues@[k].0 == d);
            }
        }
        assert forall|d: u64|
            pre.has_interval(d) implies self.queue_at(d) == pre.queue_at(d) && self.ticker_at(d)
            == pre.ticker_at(d) by {
            let k = pre.entry_index(d);
            pre.lemma_entry_at(k);
            self.lemma_entry_at(k);
        }
        assert forall|d: u64| self.names_at(d) == pre.names_at(d) by {}
        assert forall|d: u64| self.count_at(d) == pre.count_at(d) by {}
    }

    /// Queues a one-shot run of the named check, behind any already
    /// waiting; it runs outside the periodic cadence, and the registry is
    /// untouched.
    pub fn enqueue_once(&mut self, check_name: String)
        requires
            old(self).wf(),
        ensures
            final(self).once_pending() == old(self).once_pending().push(check_name@),
            final(self).once_running() == old(self).once_running(),
            Self::registry_unchanged(*old(self), *final(self)),
    {
        let ghost pre = *self;
        self.once_runner.enqueue(check_name);
        proof {
            self.lemma_same_registry(pre);
        }
    }

    /// Starts the next waiting one-shot run and returns its name — only
    /// when none is in flight, which serializes one-shot execution. The
    /// caller runs the returned check and then reports through
    /// `finish_once`. The registry is untouched.
    pub fn start_next_once(&mut self) -> (r: Option<String>)
        requires
            old(self).wf(),
        ensures
            old(self).once_busy() ==> r is None
                && final(self).once_pending() == old(self).once_pending()
                && final(self).once_running() == old(self).once_running(),
            !old(self).once_busy() && old(self).once_pending().len() == 0 ==> r is None
                && final(self).once_pending() == old(self).once_pending()
                && final(self).once_running() == old(self).once_running(),
            !old(self).once_busy() && old(self).once_pending().len() > 0 ==> (r matches Some(name)
                && name@ == old(self).once_pending()[0]
                && final(self).once_pending() == old(self).once_pending().drop_first()
                && final(self).once_running() == Some(name@)),
            Self::registry_unchanged(*old(self), *final(self)),
    {
        let ghost pre = *self;
        let r = self.once_runner.start_next();
        proof {
            self.lemma_same_registry(pre);
        }
        r
    }

    /// Ends the one-shot run in flight; a failure of the work is reported
    /// as `CheckExecutionFailed` with the check's name and affects nothing
    /// else. The registry is untouched.
    pub fn finish_once(&mut self, succeeded: bool) -> (r: Option<SchedulingError>)
        requires
            old(self).wf(),
            old(self).once_busy(),
        ensures
            !final(self).once_busy(),
            final(self).once_pending() == old(self).once_pending(),
            succeeded ==> r is None,
            !succeeded ==> (r matches Some(e) && e matches SchedulingError::CheckExecutionFailed(n)
                && n@ == old(self).once_running().unwrap()),
            Self::registry_unchanged(*old(self), *final(self)),
    {
        let ghost pre = *self;
        let r = self.once_runner.finish(succeeded);
        proof {
            self.lemma_same_registry(pre);
        }
        r
    }

    /// Registering at any positive interval leaves the name registered —
    /// so `has_ticker` answers true right after `add_check`, whether the
    /// call created the registration or found it already there.
    pub proof fn lemma_add_then_has_ticker(
        pre: Scheduler,
        post: Scheduler,
        name: Seq<char>,
        interval_ms: u64,
        r: Result<(), SchedulingError>,
    )
        requires
            interval_ms > 0,
            Self::add_check_post(pre, post, name, interval_ms, r),
        ensures
            post.registered(name),
    {
    }

    /// Registering at a zero interval always fails with `InvalidInterval`
    /// and creates nothing: no queue, no ticker, no state change at all.
    pub proof fn lemma_zero_interval_rejected(
        pre: Scheduler,
        post: Scheduler,
        name: Seq<char>,
        r: Result<(), SchedulingError>,
    )
        requires
            Self::add_check_post(pre, post, name, 0, r),
        ensures
            r == Err::<(), SchedulingError>(SchedulingError::InvalidInterval),
            post == pre,
            post.ticker_count() == pre.ticker_count(),
    {
    }

    /// Registering the same name twice without stopping it in between
    /// succeeds the first time and fails the second with `DuplicateCheck`,
    /// leaving the second call's state untouched — whatever the two
    /// intervals are.
    pub proof fn lemma_duplicate_add_rejected(
        s0: Scheduler,
        s1: Scheduler,
        s2: Scheduler,
        name: Seq<char>,
        d1: u64,
        d2: u64,
        r1: Result<(), SchedulingError>,
        r2: Result<(), SchedulingError>,
    )
        requires
            d1 > 0,
            d2 > 0,
            !s0.registered(name),
            Self::add_check_post(s0, s1, name, d1, r1),
            Self::add_check_post(s1, s2, name, d2, r2),
        ensures
            r1 is Ok,
            r2 == Err::<(), SchedulingError>(SchedulingError::DuplicateCheck),
            s2 == s1,
    {
    }

    /// After `stop_check`, the name is not registered, and no interval's
    /// queue holds it any more: since a fired `tick` hands back exactly its
    /// interval's queue, no execution of the stopped check ever starts
    /// again.
    pub proof fn lemma_stop_check_silences(pre: Scheduler, post: Scheduler, name: Seq<char>)
        requires
            Self::stop_check_post(pre, post, name),
        ensures
            !post.registered(name),
            forall|d: u64| !(#[trigger] post.names_at(d)).contains(name),
    {
        assert forall|d: u64| !(#[trigger] post.names_at(d)).contains(name) by {
            lemma_filter_drops_name(pre.names_at(d), name);
        }
    }

    /// The self-correcting cadence: once a turn has fired at `now_ms` —
    /// however late that turn ran — nothing on that interval is due again
    /// before a full interval has passed, so a briefly starved host never
    /// gets a burst of catch-up executions. With `tick` firing exactly
    /// when due, consecutive firings are thus at least one interval apart,
    /// while the execution counters never decrease.
    pub proof fn lemma_fired_interval_spacing(
        pre: Scheduler,
        post: Scheduler,
        interval_ms: u64,
        now_ms: u64,
        outcome: TickOutcome,
        t_ms: u64,
    )
        requires
            Self::tick_post(pre, post, interval_ms, now_ms, outcome),
            pre.due_at(interval_ms, now_ms),
            t_ms < now_ms + interval_ms,
        ensures
            !post.due_at(interval_ms, t_ms),
            post.count_at(interval_ms) >= pre.count_at(interval_ms),
    {
    }

    /// Registrations of two distinct unregistered names — in whatever
    /// order the scheduler's critical section serializes them — both
    /// succeed, and both names are registered afterwards.
    pub proof fn lemma_concurrent_adds_distinct_names(
        s0: Scheduler,
        s1: Scheduler,
        s2: Scheduler,
        n1: Seq<char>,
        n2: Seq<char>,
        d1: u64,
        d2: u64,
        r1: Result<(), SchedulingError>,
        r2: Result<(), SchedulingError>,
    )
        requires
            d1 > 0,
            d2 > 0,
            n1 != n2,
            !s0.registered(n1),
            !s0.registered(n2),
            Self::add_check_post(s0, s1, n1, d1, r1),
            Self::add_check_post(s1, s2, n2, d2, r2),
        ensures
            r1 is Ok,
            r2 is Ok,
            s2.registered(n1),
            s2.registered(n2),
    {
    }

    /// Whether the named check is currently registered, which — every
    /// entry's ticker being live — is exactly when a live ticker drives it.
    pub fn has_ticker(&self, check_name: &str) -> (r: bool)
        ensures
            r == self.registered(check_name@),
    {
        let owned: String = check_name.to_owned();
        match self.find_check(&owned) {
            Some(p) => {
                proof {
                    assert(self.job_queues@[p as int].1.contains_name(check_name@));
                }
                true
            },
            None => false,
        }
    }

    /// The number of live tickers: one per interval currently in use.
    pub fn get_ticker_count(&self) -> (r: usize)
        ensures
            r == self.ticker_count(),
    {
        self.job_queues.len()
    }

    /// Whether a one-shot run is in flight right now; `finish_once` asks
    /// for one, so its caller can test first.
    pub fn is_once_busy(&self) -> (r: bool)
        ensures
            r == self.once_busy(),
    {
        self.once_runner.is_running()
    }

    /// Whether no interval is in use at all.
    pub fn is_job_queues_empty(&self) -> (r: bool)
        ensures
            r == (self.ticker_count() == 0),
    {
        self.job_queues.len() == 0
    }
}

/// A stand-in check used by tests: a name bound to an interval.
pub struct MockCheck {
    pub name: String,
    pub interval: u64,
}

impl MockCheck {
    /// Creates a mock check with the given name and interval.
    pub fn new(name: String, interval: u64) -> (m: MockCheck)
        ensures
            m.name == name,
            m.interval == interval,
    {
        MockCheck { name, interval }
    }
}

/// A sequence of names none of which is the removed one is unchanged by
/// filtering that name out.
proof fn lemma_filter_keeps_all(s: Seq<Seq<char>>, name: Seq<char>)
    requires
        forall|i: int| 0 <= i < s.len() ==> s[i] != name,
    ensures
        s.filter(keeps_name(name)) == s,
    decreases s.len(),
{
    reveal(Seq::filter);
    let pred = keeps_name(name);
    if s.len() == 0 {
        assert(s.filter(pred) =~= s);
    } else {
        lemma_filter_keeps_all(s.drop_last(), name);
        assert(pred(s.last()));
        assert(s.drop_last().push(s.last()) =~= s);
        assert(s.filter(pred) =~= s);
    }
}

/// Filtering a name out of a sequence leaves no occurrence of it.
proof fn lemma_filter_drops_name(s: Seq<Seq<char>>, name: Seq<char>)
    ensures
        !s.filter(keeps_name(name)).contains(name),
{
    let pred = keeps_name(name);
    if s.filter(pred).contains(name) {
        let i = choose|i: int| 0 <= i < s.filter(pred).len() && s.filter(pred)[i] == name;
        s.lemma_filter_pred(pred, i);
    }
}

/// Filtering a name out keeps every other name's membership as it was.
proof fn lemma_filter_contains_other(s: Seq<Seq<char>>, name: Seq<char>, m: Seq<char>)
    requires
        m != name,
    ensures
        s.filter(keeps_name(name)).contains(m) == s.contains(m),
{
    let pred = keeps_name(name);
    if s.contains(m) {
        let i = choose|i: int| 0 <= i < s.len() && s[i] == m;
        s.lemma_filter_contains(pred, i);
    }
    if s.filter(pred).contains(m) {
        Seq::lemma_filter_contains_rev(s, pred, m);
    }
}

/// When filtering a name out empties the sequence, every member was that
/// name.
proof fn lemma_filter_empty_all_name(s: Seq<Seq<char>>, name: Seq<char>)
    requires
        s.filter(keeps_name(name)).len() == 0,
    ensures
        forall|i: int| 0 <= i < s.len() ==> s[i] == name,
{
    let pred = keeps_name(name);
    assert forall|i: int| 0 <= i < s.len() implies s[i] == name by {
        if s[i] != name {
            s.lemma_filter_contains(pred, i);
        }
    }
}

/// A pushed sequence contains exactly the old members and the new one.
proof fn lemma_push_contains(s: Seq<Seq<char>>, x: Seq<char>, y: Seq<char>)
    ensures
        s.push(x).contains(y) == (s.contains(y) || y == x),
{
    if s.push(x).contains(y) {
        let i = choose|i: int| 0 <= i < s.push(x).len() && s.push(x)[i] == y;
        if i < s.len() {
            assert(s[i] == y);
        }
    }
    if s.contains(y) {
        let i = choose|i: int| 0 <= i < s.len() && s[i] == y;
        assert(s.push(x)[i] == y);
    }
    if y == x {
        assert(s.push(x)[s.len() as int] == y);
    }
}

} // verus!
