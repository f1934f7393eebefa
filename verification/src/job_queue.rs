//! Bookkeeping for the checks sharing one interval: the set of check names
//! and the execution counter they share.

use vstd::prelude::*;
use vstd::seq_lib::*;

verus! {

/// The predicate by which a removal filters a queue: it keeps every name
/// other than the one being removed.
pub open spec fn keeps_name(name: Seq<char>) -> spec_fn(Seq<char>) -> bool {
    |n: Seq<char>| n != name
}

/// The checks bound to one interval, in insertion order, together with the
/// number of executions performed so far on that interval's cadence.
pub struct JobQueue {
    checks: Vec<String>,
    executed_checks_count: usize,
}

impl JobQueue {
    /// The check names held by the queue, in insertion order.
    pub closed spec fn names(self) -> Seq<Seq<char>> {
        self.checks@.map_values(|s: String| s@)
    }

    /// The number of check executions performed on this queue so far.
    pub closed spec fn count(self) -> nat {
        self.executed_checks_count as nat
    }

    /// Whether a check of the given name is in the queue.
    pub open spec fn contains_name(self, name: Seq<char>) -> bool {
        self.names().contains(name)
    }

    /// A well-formed queue holds each name at most once; the scheduler
    /// enforces this across queues, the queue keeps it within itself.
    pub open spec fn wf(self) -> bool {
        forall|i: int, j: int|
            0 <= i < j < self.names().len() ==> self.names()[i] != self.names()[j]
    }

    /// Creates an empty queue with a zero execution counter.
    pub fn new() -> (q: JobQueue)
        ensures
            q.names() =~= Seq::<Seq<char>>::empty(),
            q.count() == 0,
            q.wf(),
    {
        JobQueue { checks: Vec::new(), executed_checks_count: 0 }
    }

    /// Whether a check of the given name is in the queue.
    pub fn has_check(&self, check_name: &String) -> (r: bool)
        ensures
            r == self.contains_name(check_name@),
    {
        let mut i: usize = 0;
        while i < self.checks.len()
            invariant
                i <= self.checks.len(),
                forall|j: int| 0 <= j < i ==> self.names()[j] != check_name@,
            decreases self.checks.len() - i,
        {
            if self.checks[i] == *check_name {
                assert(self.names()[i as int] == check_name@);
                return true;
            }
            i += 1;
        }
        false
    }

    /// Appends the check if it is absent; adding a name already in the
    /// queue is a no-op, so the call is idempotent. The counter is
    /// untouched.
    pub fn add_check(&mut self, check_name: String)
        requires
            old(self).wf(),
        ensures
            final(self).wf(),
            final(self).count() == old(self).count(),
            old(self).contains_name(check_name@) ==> *final(self) == *old(self),
            !old(self).contains_name(check_name@) ==> final(self).names()
                =~= old(self).names().push(check_name@),
    {
        if !self.has_check(&check_name) {
            let ghost pre = *self;
            self.checks.push(check_name);
            proof {
                assert(self.names() =~= pre.names().push(check_name@));
            }
        }
    }

    /// Removes every occurrence of the check, keeping the others in their
    /// order; reports whether the queue is now empty, which the scheduler
    /// uses to decide ticker teardown. The counter is untouched.
    pub fn remove_check(&mut self, check_name: &str) -> (now_empty: bool)
        requires
            old(self).wf(),
        ensures
            final(self).wf(),
            final(self).count() == old(self).count(),
            final(self).names() =~= old(self).names().filter(keeps_name(check_name@)),
            now_empty == (final(self).names().len() == 0),
    {
        let ghost pred = keeps_name(check_name@);
        let target: String = check_name.to_owned();
        let mut kept: Vec<String> = Vec::new();
        let mut i: usize = 0;
        while i < self.checks.len()
            invariant
                i <= self.checks.len(),
                *self == *old(self),
                old(self).wf(),
                target@ == check_name@,
                pred == keeps_name(check_name@),
                kept@.map_values(|s: String| s@) =~= old(self).names().subrange(0, i as int).filter(
                    pred,
                ),
            decreases self.checks.len() - i,
        {
            let keep = !(self.checks[i] == target);
            proof {
                let names = old(self).names();
                assert(names[i as int] == self.checks@[i as int]@);
                lemma_filter_take_succ(names, pred, i as int);
                assert(names.subrange(0, i as int) =~= names.take(i as int));
                assert(names.subrange(0, i + 1 as int) =~= names.take(i + 1 as int));
            }
            if keep {
                let ghost kept_pre = kept@;
                let element = self.checks[i].clone();
                assert(element@ == self.names()[i as int]);
                kept.push(element);
                proof {
                    assert(kept@.map_values(|s: String| s@) =~= kept_pre.map_values(
                        |s: String| s@,
                    ).push(element@));
                }
            }
            proof {
                let names = old(self).names();
                assert(keep == pred(names[i as int]));
            }
            i += 1;
        }
        proof {
            assert(old(self).names().subrange(0, old(self).names().len() as int) =~= old(
                self,
            ).names());
        }
        self.checks = kept;
        proof {
            let names = old(self).names();
            let result = final(self).names();
            assert forall|i: int, j: int| 0 <= i < j < result.len() implies result[i]
                != result[j] by {
                broadcast use Seq::lemma_filter_contains_rev;

                if result[i] == result[j] {
                    lemma_filter_distinct(names, pred, i, j);
                }
            }
        }
        self.checks.len() == 0
    }

    /// Returns the checks due on this turn, in insertion order, and charges
    /// one execution per check to the queue's counter. The caller invokes
    /// each returned check's work; the queue itself keeps its members.
    pub fn execute_checks(&mut self) -> (executed: Vec<String>)
        requires
            old(self).count() + old(self).names().len() <= usize::MAX,
        ensures
            executed@.map_values(|s: String| s@) =~= old(self).names(),
            final(self).names() == old(self).names(),
            old(self).wf() ==> final(self).wf(),
            final(self).count() == old(self).count() + old(self).names().len(),
    {
        let mut executed: Vec<String> = Vec::new();
        let mut i: usize = 0;
        while i < self.checks.len()
            invariant
                i <= self.checks.len(),
                *self == *old(self),
                old(self).count() + old(self).names().len() <= usize::MAX,
                executed@.map_values(|s: String| s@) =~= old(self).names().subrange(0, i as int),
            decreases self.checks.len() - i,
        {
            let ghost executed_pre = executed@;
            let element = self.checks[i].clone();
            assert(element@ == self.names()[i as int]);
            executed.push(element);
            proof {
                assert(executed@.map_values(|s: String| s@) =~= executed_pre.map_values(
                    |s: String| s@,
                ).push(element@));
            }
            i += 1;
        }
        proof {
            assert(old(self).names().subrange(0, old(self).names().len() as int) =~= old(
                self,
            ).names());
        }
        self.executed_checks_count = self.executed_checks_count + executed.len();
        executed
    }

    /// The queue's execution counter: how many check executions have run on
    /// this interval so far.
    pub fn get_stats(&self) -> (r: usize)
        ensures
            r == self.count(),
    {
        self.executed_checks_count
    }
}

/// Filtering one more element appends it to the filtered prefix when the
/// predicate accepts it and changes nothing when it does not.
proof fn lemma_filter_take_succ(s: Seq<Seq<char>>, pred: spec_fn(Seq<char>) -> bool, i: int)
    requires
        0 <= i < s.len(),
    ensures
        s.take(i + 1).filter(pred) =~= s.take(i).filter(pred) + (if pred(s[i]) {
            seq![s[i]]
        } else {
            Seq::<Seq<char>>::empty()
        }),
{
    reveal(Seq::filter);
    let t = s.take(i + 1);
    assert(t.last() == s[i]);
    assert(t.drop_last() =~= s.take(i));
}

/// Two distinct positions of a filtered sequence come from two distinct
/// positions of the original, so a duplicate in the filtered sequence would
/// be a duplicate in the original.
proof fn lemma_filter_distinct(s: Seq<Seq<char>>, pred: spec_fn(Seq<char>) -> bool, i: int, j: int)
    requires
        0 <= i < j < s.filter(pred).len(),
        forall|p: int, q: int| 0 <= p < q < s.len() ==> s[p] != s[q],
    ensures
        s.filter(pred)[i] != s.filter(pred)[j],
    decreases s.len(),
{
    reveal(Seq::filter);
    if s.len() > 0 {
        let sub = s.drop_last();
        if pred(s.last()) {
            if j < s.filter(pred).len() - 1 {
                lemma_filter_distinct(sub, pred, i, j);
            } else {
                // s.filter(pred)[j] is s.last(); s.filter(pred)[i] comes
                // from the front of s, where no element equals s.last().
                broadcast use Seq::lemma_filter_contains_rev;

                if s.filter(pred)[i] == s.last() {
                    assert(sub.filter(pred).contains(s.last()));
                    let w = choose|w: int| 0 <= w < sub.len() && sub[w] == s.last();
                    assert(s[w] == s[s.len() - 1]);
                }
            }
        } else {
            lemma_filter_distinct(sub, pred, i, j);
        }
    }
}

} // verus!
