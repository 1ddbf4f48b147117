//! A concurrent retrying fetch orchestrator.
//!
//! The library takes a list of page targets, runs one independently retried
//! fetch per target, tracks aggregate progress, and assembles a per-target
//! result set that preserves input order, all while the whole batch can be
//! cancelled as a unit.  The pieces that decide — the retry state machine,
//! the backoff schedule, the vote-count grammar, the progress counter and
//! the batch assembly — live here and are verified; the surrounding I/O
//! (HTTP requests, timers, signal handling) is driven by a thin shell that
//! feeds events into these functions.

pub mod batch;
pub mod extract;
pub mod outcome;
pub mod progress;
pub mod retry;
