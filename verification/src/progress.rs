//! Progress aggregation for a fixed-size batch of independent operations.
//!
//! A batch of retrieval operations has a known size. As each operation
//! finishes — whether it succeeded or failed — its completion is recorded
//! exactly once. The tracker therefore reaches `total` exactly when every
//! operation has completed, and the failure tally never affects how far
//! the counter advances.
use vstd::prelude::*;

verus! {

/// How many entries of `s` are failures (`false`).
pub open spec fn count_failures(s: Seq<bool>) -> nat
    decreases s.len(),
{
    if s.len() == 0 {
        0
    } else {
        count_failures(s.drop_last()) + if s.last() {
            0nat
        } else {
            1nat
        }
    }
}

/// Tracks completions of a fixed-size batch of operations.
pub struct ProgressTracker {
    /// Number of operations in the batch.
    pub total: usize,
    /// Number of operations whose completion has been recorded.
    pub done: usize,
    /// Number of recorded completions that reported failure.
    pub failed: usize,
}

impl ProgressTracker {
    /// The counters a tracker can legally hold: no more completions than
    /// the batch size, and no more failures than completions.
    pub open spec fn wf(self) -> bool {
        self.done <= self.total && self.failed <= self.done
    }

    /// A fresh tracker for a batch of `total` operations: nothing done yet.
    pub fn new(total: usize) -> (p: ProgressTracker)
        ensures
            p.wf(),
            p.total == total,
            p.done == 0,
            p.failed == 0,
    {
        ProgressTracker { total, done: 0, failed: 0 }
    }

    /// Records that one more operation has completed. The counter advances
    /// by exactly one whether the operation succeeded or failed; only the
    /// failure tally depends on `success`.
    pub fn record_completion(&mut self, success: bool)
        requires
            old(self).wf(),
            old(self).done < old(self).total,
        ensures
            final(self).wf(),
            final(self).total == old(self).total,
            final(self).done == old(self).done + 1,
            final(self).failed == old(self).failed + if success {
                0int
            } else {
                1int
            },
    {
        self.done = self.done + 1;
        if !success {
            self.failed = self.failed + 1;
        }
    }

    /// Whether every operation of the batch has completed.
    pub fn is_complete(&self) -> (r: bool)
        ensures
            r == (self.done == self.total),
    {
        self.done == self.total
    }

    pub fn total(&self) -> (r: usize)
        ensures
            r == self.total,
    {
        self.total
    }

    pub fn done(&self) -> (r: usize)
        ensures
            r == self.done,
    {
        self.done
    }

    pub fn failed(&self) -> (r: usize)
        ensures
            r == self.failed,
    {
        self.failed
    }
}

/// Consumes the per-operation outcomes of a whole batch, in whatever order
/// they completed. The counter reaches exactly the batch size however many
/// individual operations failed, and the failures are tallied exactly.
pub fn summarize_batch(outcomes: &Vec<bool>) -> (p: ProgressTracker)
    ensures
        p.wf(),
        p.total == outcomes@.len(),
        p.done == outcomes@.len(),
        p.failed == count_failures(outcomes@),
{
    let n = outcomes.len();
    let mut p = ProgressTracker::new(n);
    let mut i: usize = 0;
    while i < n
        invariant
            n == outcomes@.len(),
            i <= n,
            p.wf(),
            p.total == n,
            p.done == i,
            p.failed == count_failures(outcomes@.subrange(0, i as int)),
        decreases n - i,
    {
        p.record_completion(outcomes[i]);
        proof {
            assert(outcomes@.subrange(0, i + 1 as int).drop_last() =~= outcomes@.subrange(
                0,
                i as int,
            ));
            assert(outcomes@.subrange(0, i + 1 as int).last() == outcomes@[i as int]);
        }
        i = i + 1;
    }
    proof {
        assert(outcomes@.subrange(0, n as int) =~= outcomes@);
    }
    p
}

} // verus!
