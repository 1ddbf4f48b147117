//! The shared progress counter of one batch.
//!
//! Every finishing fetcher records its completion exactly once, so the
//! counter is monotonically non-decreasing over the life of a batch: its
//! only mutator adds one.  It reaches the total exactly when every fetcher
//! has terminated, and the reporter only ever reads it.

use vstd::prelude::*;

verus! {

/// Counts the targets of one batch whose fetcher has terminated, out of
/// the batch's total.
pub struct ProgressCounter {
    completed: usize,
    total: usize,
}

impl ProgressCounter {
    pub closed spec fn spec_completed(&self) -> usize {
        self.completed
    }

    pub closed spec fn spec_total(&self) -> usize {
        self.total
    }

    /// No more fetchers have terminated than the batch has targets.
    pub open spec fn wf(&self) -> bool {
        self.spec_completed() <= self.spec_total()
    }

    /// A counter for a batch of `total` targets, with nothing completed.
    pub fn new(total: usize) -> (r: ProgressCounter)
        ensures
            r.wf(),
            r.spec_completed() == 0,
            r.spec_total() == total,
    {
        ProgressCounter { completed: 0, total }
    }

    /// Record that one more fetcher has terminated.  The counter only ever
    /// grows, and by exactly one per terminating fetcher.
    pub fn record_completion(&mut self)
        requires
            old(self).wf(),
            old(self).spec_completed() < old(self).spec_total(),
        ensures
            final(self).wf(),
            final(self).spec_completed() == old(self).spec_completed() + 1,
            final(self).spec_total() == old(self).spec_total(),
    {
        self.completed = self.completed + 1;
    }

    pub fn completed(&self) -> (r: usize)
        ensures
            r == self.spec_completed(),
    {
        self.completed
    }

    pub fn total(&self) -> (r: usize)
        ensures
            r == self.spec_total(),
    {
        self.total
    }

    /// The reporter's sole exit condition: every target is accounted for.
    pub fn all_done(&self) -> (r: bool)
        ensures
            r == (self.spec_completed() >= self.spec_total()),
            self.wf() ==> (r <==> self.spec_completed() == self.spec_total()),
    {
        self.completed >= self.total
    }
}

} // verus!
