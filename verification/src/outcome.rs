//! The result types shared by the retry and batch machinery.

use vstd::prelude::*;

verus! {

/// Why a single attempt failed.  Both kinds are retryable: the retry loop
/// treats extraction and transport failures identically.
#[derive(Clone, Copy, PartialEq, Eq, Debug, Structural)]
pub enum AttemptError {
    /// The page was fetched but the expected vote pattern was absent.
    Extraction,
    /// The page could not be fetched at all.
    Transport,
}

/// The outcome of one call to the external fetch-and-extract operation
/// for a single target.
#[derive(Clone, Copy, PartialEq, Eq, Debug, Structural)]
pub enum AttemptOutcome {
    Success(u32),
    Failure(AttemptError),
}

/// The final result for one target: its vote count, or — once the retry
/// budget is spent — the error of the last attempt.
#[derive(Clone, Copy, PartialEq, Eq, Debug, Structural)]
pub enum FetchResult {
    Success(u32),
    Exhausted(AttemptError),
}

} // verus!
