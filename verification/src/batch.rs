//! Batch dispatch: one retried fetch per target, results in input order,
//! cancellation as a unit.
//!
//! Cancellation is all-or-nothing at the batch boundary: a signal that
//! fires before the batch completes replaces the whole outcome with
//! [`BatchOutcome::Cancelled`] and no per-target result is surfaced; a
//! signal that fires after the batch has completed has no observable
//! effect, because the finished result set has already been handed back.

use vstd::prelude::*;
use crate::outcome::{AttemptOutcome, FetchResult};
use crate::progress::ProgressCounter;
use crate::retry::{retry_target, script_sufficient, spec_retry_result};

verus! {

/// One batch's cooperative cancellation signal.  It is one-shot: firing it
/// again changes nothing, so at most one cancellation per batch run is
/// meaningful.
pub struct CancelFlag {
    fired: bool,
}

impl CancelFlag {
    pub closed spec fn spec_fired(&self) -> bool {
        self.fired
    }

    pub fn new() -> (r: CancelFlag)
        ensures
            !r.spec_fired(),
    {
        CancelFlag { fired: false }
    }

    /// Fire the signal.  Once fired it stays fired, whether or not it had
    /// fired before.
    pub fn fire(&mut self)
        ensures
            final(self).spec_fired(),
    {
        self.fired = true;
    }

    pub fn is_fired(&self) -> (r: bool)
        ensures
            r == self.spec_fired(),
    {
        self.fired
    }
}

/// The outcome of one whole batch: the per-target results, index-aligned
/// with the input targets, or a single batch-level cancellation.
#[derive(Debug, PartialEq, Eq)]
pub enum BatchOutcome {
    Completed(Vec<FetchResult>),
    Cancelled,
}

/// Every target's script settles its retry loop.
pub open spec fn all_scripts_sufficient(scripts: Seq<Seq<AttemptOutcome>>) -> bool {
    forall|i: int| 0 <= i < scripts.len() ==> script_sufficient(scripts[i])
}

/// Replay a whole batch against one script of attempt outcomes per target.
///
/// When the cancellation signal has not fired, the batch completes: the
/// result set has exactly one entry per target, and entry `i` is the retry
/// result of target `i`, whatever order the fetchers would finish in; the
/// progress counter then stands exactly at the total, having been grown by
/// one per terminated fetcher.  When the signal has fired before
/// completion, the whole outcome is `Cancelled`, no per-target result is
/// surfaced, and the abandoned fetchers record no further progress.
pub fn run_batch(
    scripts: &Vec<Vec<AttemptOutcome>>,
    cancel: &CancelFlag,
    progress: &mut ProgressCounter,
) -> (r: BatchOutcome)
    requires
        old(progress).wf(),
        old(progress).spec_completed() == 0,
        old(progress).spec_total() == scripts@.len(),
        all_scripts_sufficient(scripts@.map_values(|v: Vec<AttemptOutcome>| v@)),
    ensures
        final(progress).spec_total() == old(progress).spec_total(),
        final(progress).spec_completed() >= old(progress).spec_completed(),
        final(progress).wf(),
        cancel.spec_fired() ==> r == BatchOutcome::Cancelled && *final(progress) == *old(
            progress,
        ),
        !cancel.spec_fired() ==> {
            &&& (r matches BatchOutcome::Completed(results) && results@.len() == scripts@.len()
                && (forall|i: int|
                    0 <= i < scripts@.len() ==> results@[i] == spec_retry_result(scripts@[i]@)))
            &&& final(progress).spec_completed() == final(progress).spec_total()
        },
{
    if cancel.is_fired() {
        return BatchOutcome::Cancelled;
    }
    let ghost specs = scripts@.map_values(|v: Vec<AttemptOutcome>| v@);
    let mut results: Vec<FetchResult> = Vec::new();
    let mut k: usize = 0;
    while k < scripts.len()
        invariant
            k <= scripts@.len(),
            specs == scripts@.map_values(|v: Vec<AttemptOutcome>| v@),
            all_scripts_sufficient(specs),
            results@.len() == k,
            forall|i: int| 0 <= i < k ==> results@[i] == spec_retry_result(scripts@[i]@),
            progress.wf(),
            progress.spec_completed() == k,
            progress.spec_total() == scripts@.len(),
        decreases scripts@.len() - k,
    {
        proof {
            assert(specs[k as int] == scripts@[k as int]@);
        }
        let res = retry_target(&scripts[k]);
        results.push(res);
        progress.record_completion();
        k = k + 1;
    }
    BatchOutcome::Completed(results)
}

} // verus!
