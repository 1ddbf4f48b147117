//! The per-target retry state machine and its backoff schedule.
//!
//! One target is fetched by calling the external attempt operation up to
//! [`MAX_ATTEMPTS`] times.  The first success ends the loop at once; every
//! failure costs one unit of the budget and, while budget remains, is
//! followed by a wait that doubles each time, starting from a base wait
//! drawn once per target from `[4000, 6000)` milliseconds.

use vstd::prelude::*;
use crate::outcome::{AttemptError, AttemptOutcome, FetchResult};

verus! {

/// The retry budget: at most this many calls to the external attempt
/// operation are made for one target.
pub const MAX_ATTEMPTS: u32 = 10;

/// 2 to the power `n`.
pub open spec fn pow2(n: nat) -> nat
    decreases n,
{
    if n == 0 {
        1
    } else {
        2 * pow2((n - 1) as nat)
    }
}

pub proof fn lemma_pow2_pos(n: nat)
    ensures
        pow2(n) >= 1,
    decreases n,
{
    if n > 0 {
        lemma_pow2_pos((n - 1) as nat);
    }
}

pub proof fn lemma_pow2_le(n: nat, m: nat)
    requires
        n <= m,
    ensures
        pow2(n) <= pow2(m),
    decreases m,
{
    if n < m {
        lemma_pow2_le(n, (m - 1) as nat);
        lemma_pow2_pos((m - 1) as nat);
    }
}

/// The base wait of one target lies in `[4000, 6000)` milliseconds.
pub open spec fn valid_base_wait(base_ms: u64) -> bool {
    4000 <= base_ms < 6000
}

/// The wait, in milliseconds, between the `failures`-th failed attempt and
/// the next call: pure exponential growth on the per-target base wait, with
/// no cap and no jitter beyond the random base itself.
pub open spec fn backoff_wait_ms(base_ms: int, failures: int) -> int
    recommends
        1 <= failures,
{
    base_ms * pow2((failures - 1) as nat)
}

/// The waits of one target grow strictly from one failure to the next.
pub proof fn lemma_backoff_strictly_increases(base_ms: u64, failures: int)
    requires
        valid_base_wait(base_ms),
        1 <= failures,
    ensures
        backoff_wait_ms(base_ms as int, failures) < backoff_wait_ms(base_ms as int, failures + 1),
{
    let p = pow2((failures - 1) as nat);
    lemma_pow2_pos((failures - 1) as nat);
    assert(pow2(failures as nat) == 2 * p);
    assert(base_ms as int * p < base_ms as int * (2 * p)) by (nonlinear_arith)
        requires
            base_ms >= 1,
            p >= 1,
    ;
}

/// A script records what the external attempt operation would return on
/// each successive call for one target: call `i` (counting from zero)
/// returns `s[i]`.  This is the index of the first successful call, or the
/// script's length if no call in it succeeds.
pub open spec fn first_success_index(s: Seq<AttemptOutcome>) -> int
    decreases s.len(),
{
    if s.len() == 0 {
        0
    } else if s[0] is Success {
        0
    } else {
        1 + first_success_index(s.subrange(1, s.len() as int))
    }
}

pub proof fn lemma_first_success_index(s: Seq<AttemptOutcome>)
    ensures
        0 <= first_success_index(s) <= s.len(),
        first_success_index(s) < s.len() ==> s[first_success_index(s)] is Success,
        forall|j: int| 0 <= j < first_success_index(s) ==> s[j] is Failure,
    decreases s.len(),
{
    if s.len() != 0 && !(s[0] is Success) {
        let t = s.subrange(1, s.len() as int);
        lemma_first_success_index(t);
        assert forall|j: int| 0 <= j < first_success_index(s) implies s[j] is Failure by {
            if j > 0 {
                assert(t[j - 1] is Failure);
                assert(s[j] == t[j - 1]);
            }
        }
        if first_success_index(s) < s.len() {
            assert(s[first_success_index(s)] == t[first_success_index(t)]);
        }
    }
}

/// A script settles the retry loop: either some call in it succeeds within
/// the budget, or it is long enough to exhaust the budget.
pub open spec fn script_sufficient(s: Seq<AttemptOutcome>) -> bool {
    (first_success_index(s) < s.len() && first_success_index(s) < MAX_ATTEMPTS as int)
        || s.len() >= MAX_ATTEMPTS as int
}

/// How many calls to the attempt operation the retry loop makes on this
/// script: one more than the number of failures before the first success,
/// or the whole budget if no call within the budget succeeds.
pub open spec fn spec_calls_used(s: Seq<AttemptOutcome>) -> int
    recommends
        script_sufficient(s),
{
    if first_success_index(s) < MAX_ATTEMPTS as int {
        first_success_index(s) + 1
    } else {
        MAX_ATTEMPTS as int
    }
}

/// The result the retry loop hands back for this script: the count of the
/// first successful call, or — once the budget is spent — the error of the
/// last call made.
pub open spec fn spec_retry_result(s: Seq<AttemptOutcome>) -> FetchResult
    recommends
        script_sufficient(s),
{
    if first_success_index(s) < s.len() && first_success_index(s) < MAX_ATTEMPTS as int {
        match s[first_success_index(s)] {
            AttemptOutcome::Success(c) => FetchResult::Success(c),
            AttemptOutcome::Failure(e) => FetchResult::Exhausted(e),
        }
    } else if MAX_ATTEMPTS as int <= s.len() {
        match s[MAX_ATTEMPTS as int - 1] {
            AttemptOutcome::Failure(e) => FetchResult::Exhausted(e),
            AttemptOutcome::Success(c) => FetchResult::Success(c),
        }
    } else {
        FetchResult::Exhausted(AttemptError::Transport)
    }
}

/// A target that first succeeds on its `k + 1`-th call, within the budget,
/// costs exactly `k + 1` calls and yields that call's count.
pub proof fn lemma_success_after_k_failures(s: Seq<AttemptOutcome>, k: int, c: u32)
    requires
        0 <= k < MAX_ATTEMPTS as int,
        k < s.len(),
        s[k] == AttemptOutcome::Success(c),
        forall|j: int| 0 <= j < k ==> s[j] is Failure,
    ensures
        script_sufficient(s),
        spec_calls_used(s) == k + 1,
        spec_retry_result(s) == FetchResult::Success(c),
{
    lemma_first_success_index(s);
    let f = first_success_index(s);
    if f < k {
        assert(s[f] is Failure);
    }
    if f > k {
        assert(s[k] is Failure);
    }
    assert(f == k);
}

/// A target that never succeeds costs exactly the whole budget of calls,
/// and its result is `Exhausted` with the error of the last call.
pub proof fn lemma_never_succeeds(s: Seq<AttemptOutcome>, e: AttemptError)
    requires
        s.len() >= MAX_ATTEMPTS as int,
        forall|j: int| 0 <= j < s.len() ==> s[j] is Failure,
        s[MAX_ATTEMPTS as int - 1] == AttemptOutcome::Failure(e),
    ensures
        script_sufficient(s),
        spec_calls_used(s) == MAX_ATTEMPTS as int,
        spec_retry_result(s) == FetchResult::Exhausted(e),
{
    lemma_first_success_index(s);
    let f = first_success_index(s);
    if f < s.len() {
        assert(s[f] is Failure);
    }
}

/// Relies on `rand::random_range`: a uniform draw from the half-open
/// integer range handed to it, here `4000..6000`.
#[verifier::external_body]
fn draw_base_wait_ms() -> (r: u64)
    ensures
        valid_base_wait(r),
{
    rand::random_range(4000u64..6000u64)
}

/// What the retry loop does next after one call of the attempt operation:
/// either the target is settled, or the loop must wait this many
/// milliseconds and call again.
#[derive(Clone, Copy, PartialEq, Eq, Debug, Structural)]
pub enum RetryStep {
    Done(FetchResult),
    Sleep(u64),
}

/// The retry state of one target: how many calls have failed so far, and
/// the base wait drawn for this target at its start.
pub struct RetryState {
    attempts: u32,
    base_wait_ms: u64,
}

impl RetryState {
    /// The number of failed calls so far.
    pub closed spec fn spec_attempts(&self) -> u32 {
        self.attempts
    }

    /// The base wait drawn for this target.
    pub closed spec fn spec_base_wait_ms(&self) -> u64 {
        self.base_wait_ms
    }

    /// A live retry state: budget remains and the base wait is in range.
    pub open spec fn wf(&self) -> bool {
        valid_base_wait(self.spec_base_wait_ms()) && self.spec_attempts() < MAX_ATTEMPTS
    }

    pub fn new(base_wait_ms: u64) -> (r: RetryState)
        requires
            valid_base_wait(base_wait_ms),
        ensures
            r.wf(),
            r.spec_attempts() == 0,
            r.spec_base_wait_ms() == base_wait_ms,
    {
        RetryState { attempts: 0, base_wait_ms }
    }

    /// A fresh retry state with a randomly drawn base wait, so that
    /// concurrent targets desynchronize their retry timing.
    pub fn fresh() -> (r: RetryState)
        ensures
            r.wf(),
            r.spec_attempts() == 0,
    {
        RetryState::new(draw_base_wait_ms())
    }

    pub fn base_wait_ms(&self) -> (r: u64)
        ensures
            r == self.spec_base_wait_ms(),
    {
        self.base_wait_ms
    }

    /// Feed the outcome of one call of the attempt operation into the
    /// state machine.  A success settles the target at once with its
    /// count; a failure spends one unit of the budget and either settles
    /// the target as `Exhausted` (budget gone) or asks for the backoff
    /// wait before the next call.
    pub fn on_outcome(&mut self, outcome: AttemptOutcome) -> (r: RetryStep)
        requires
            old(self).wf(),
        ensures
            final(self).spec_base_wait_ms() == old(self).spec_base_wait_ms(),
            outcome matches AttemptOutcome::Success(c) ==> r == RetryStep::Done(
                FetchResult::Success(c),
            ) && *final(self) == *old(self),
            outcome matches AttemptOutcome::Failure(e) ==> {
                &&& final(self).spec_attempts() == old(self).spec_attempts() + 1
                &&& (old(self).spec_attempts() + 1 == MAX_ATTEMPTS ==> r == RetryStep::Done(
                    FetchResult::Exhausted(e),
                ))
                &&& (old(self).spec_attempts() + 1 < MAX_ATTEMPTS ==> {
                    &&& final(self).wf()
                    &&& (r matches RetryStep::Sleep(w) && w == backoff_wait_ms(
                        old(self).spec_base_wait_ms() as int,
                        old(self).spec_attempts() + 1,
                    ))
                })
            },
    {
        match outcome {
            AttemptOutcome::Success(c) => RetryStep::Done(FetchResult::Success(c)),
            AttemptOutcome::Failure(e) => {
                self.attempts = self.attempts + 1;
                if self.attempts == MAX_ATTEMPTS {
                    RetryStep::Done(FetchResult::Exhausted(e))
                } else {
                    RetryStep::Sleep(self.next_wait_ms())
                }
            }
        }
    }

    /// The backoff wait after the most recent failure.
    fn next_wait_ms(&self) -> (r: u64)
        requires
            valid_base_wait(self.spec_base_wait_ms()),
            1 <= self.spec_attempts() < MAX_ATTEMPTS,
        ensures
            r == backoff_wait_ms(self.spec_base_wait_ms() as int, self.spec_attempts() as int),
    {
        let p = pow2_u64(self.attempts - 1);
        proof {
            lemma_pow2_le((self.attempts - 1) as nat, 8);
            reveal_with_fuel(pow2, 10);
            assert(pow2(8) == 256);
            assert(self.base_wait_ms as int * p as int <= 6000 * 256) by (nonlinear_arith)
                requires
                    self.base_wait_ms <= 6000,
                    0 <= p <= 256,
            ;
        }
        self.base_wait_ms * p
    }
}

/// 2 to the power `k`, executably, for the small exponents the backoff
/// schedule needs.
fn pow2_u64(k: u32) -> (r: u64)
    requires
        k <= 16,
    ensures
        r == pow2(k as nat),
{
    let mut r: u64 = 1;
    let mut i: u32 = 0;
    while i < k
        invariant
            i <= k <= 16,
            r == pow2(i as nat),
        decreases k - i,
    {
        proof {
            lemma_pow2_le(i as nat, 16);
            reveal_with_fuel(pow2, 18);
            assert(pow2(16) == 65536);
        }
        r = r * 2;
        i = i + 1;
    }
    r
}

/// Replay the whole retry loop of one target against a script of attempt
/// outcomes.  Returns the target's result, the number of calls made, and
/// the waits slept between consecutive calls, in order.
pub fn run_retry(base_wait_ms: u64, script: &Vec<AttemptOutcome>) -> (r: (
    FetchResult,
    usize,
    Vec<u64>,
))
    requires
        valid_base_wait(base_wait_ms),
        script_sufficient(script@),
    ensures
        r.0 == spec_retry_result(script@),
        r.1 == spec_calls_used(script@),
        r.2@.len() == spec_calls_used(script@) - 1,
        forall|j: int| 0 <= j < r.2@.len() ==> r.2@[j] == backoff_wait_ms(
            base_wait_ms as int,
            j + 1,
        ),
{
    let mut state = RetryState::new(base_wait_ms);
    let mut waits: Vec<u64> = Vec::new();
    let mut calls: usize = 0;
    loop
        invariant
            valid_base_wait(base_wait_ms),
            script_sufficient(script@),
            state.wf(),
            state.spec_base_wait_ms() == base_wait_ms,
            state.spec_attempts() == calls,
            calls == waits@.len(),
            calls < MAX_ATTEMPTS,
            forall|j: int| 0 <= j < calls ==> script@[j] is Failure,
            forall|j: int| 0 <= j < waits@.len() ==> waits@[j] == backoff_wait_ms(
                base_wait_ms as int,
                j + 1,
            ),
        decreases MAX_ATTEMPTS - calls,
    {
        proof {
            lemma_first_success_index(script@);
            let f = first_success_index(script@);
            if f < calls {
                assert(script@[f] is Failure);
            }
        }
        let outcome = script[calls];
        calls = calls + 1;
        match state.on_outcome(outcome) {
            RetryStep::Done(res) => {
                proof {
                    lemma_first_success_index(script@);
                    let f = first_success_index(script@);
                    match outcome {
                        AttemptOutcome::Success(_) => {
                            if f < calls - 1 {
                                assert(script@[f] is Failure);
                            }
                            if f > calls - 1 {
                                assert(script@[calls - 1] is Failure);
                            }
                            assert(f == calls - 1);
                        }
                        AttemptOutcome::Failure(_) => {
                            if f < MAX_ATTEMPTS as int {
                                if f < script@.len() {
                                    assert(script@[f] is Failure);
                                }
                            }
                        }
                    }
                }
                return (res, calls, waits);
            }
            RetryStep::Sleep(w) => {
                waits.push(w);
            }
        }
    }
}

/// Replay the retry loop of one target with a freshly drawn base wait.
/// The result does not depend on the draw; only the wait schedule does.
pub fn retry_target(script: &Vec<AttemptOutcome>) -> (r: FetchResult)
    requires
        script_sufficient(script@),
    ensures
        r == spec_retry_result(script@),
{
    let state = RetryState::fresh();
    let outcome = run_retry(state.base_wait_ms(), script);
    outcome.0
}

} // verus!
