use rusty_scrapper::outcome::{AttemptError, AttemptOutcome, FetchResult};
use rusty_scrapper::retry::{run_retry, RetryState, RetryStep};

#[test]
fn immediate_success_costs_one_call() {
    let script = vec![AttemptOutcome::Success(42)];
    let (result, calls, waits) = run_retry(5000, &script);
    assert_eq!(result, FetchResult::Success(42));
    assert_eq!(calls, 1);
    assert_eq!(waits, Vec::<u64>::new());
}

#[test]
fn success_after_three_failures_costs_four_calls() {
    let script = vec![
        AttemptOutcome::Failure(AttemptError::Transport),
        AttemptOutcome::Failure(AttemptError::Extraction),
        AttemptOutcome::Failure(AttemptError::Transport),
        AttemptOutcome::Success(7),
    ];
    let (result, calls, waits) = run_retry(5000, &script);
    assert_eq!(result, FetchResult::Success(7));
    assert_eq!(calls, 4);
    assert_eq!(waits, vec![5000, 10000, 20000]);
}

#[test]
fn never_succeeding_target_exhausts_ten_calls() {
    let mut script = vec![AttemptOutcome::Failure(AttemptError::Extraction); 9];
    script.push(AttemptOutcome::Failure(AttemptError::Transport));
    let (result, calls, waits) = run_retry(4000, &script);
    assert_eq!(result, FetchResult::Exhausted(AttemptError::Transport));
    assert_eq!(calls, 10);
    assert_eq!(
        waits,
        vec![4000, 8000, 16000, 32000, 64000, 128000, 256000, 512000, 1024000]
    );
    for pair in waits.windows(2) {
        assert!(pair[0] < pair[1], "waits must strictly increase");
    }
}

#[test]
fn success_on_tenth_call_still_succeeds() {
    let mut script = vec![AttemptOutcome::Failure(AttemptError::Transport); 9];
    script.push(AttemptOutcome::Success(3));
    let (result, calls, _) = run_retry(4500, &script);
    assert_eq!(result, FetchResult::Success(3));
    assert_eq!(calls, 10);
}

#[test]
fn calls_stop_at_first_success() {
    let script = vec![AttemptOutcome::Success(1), AttemptOutcome::Success(2)];
    let (result, calls, _) = run_retry(4000, &script);
    assert_eq!(result, FetchResult::Success(1));
    assert_eq!(calls, 1);
}

#[test]
fn fresh_base_wait_is_drawn_in_range() {
    for _ in 0..50 {
        let base = RetryState::fresh().base_wait_ms();
        assert!((4000..6000).contains(&base), "base wait {} out of range", base);
    }
}

#[test]
fn success_outcome_settles_at_once() {
    let mut state = RetryState::new(4200);
    let step = state.on_outcome(AttemptOutcome::Success(3));
    assert_eq!(step, RetryStep::Done(FetchResult::Success(3)));
}

#[test]
fn failure_outcomes_double_the_wait() {
    let mut state = RetryState::new(4500);
    let first = state.on_outcome(AttemptOutcome::Failure(AttemptError::Transport));
    assert_eq!(first, RetryStep::Sleep(4500));
    let second = state.on_outcome(AttemptOutcome::Failure(AttemptError::Transport));
    assert_eq!(second, RetryStep::Sleep(9000));
}

#[test]
fn tenth_failure_exhausts_the_target() {
    let mut state = RetryState::new(4000);
    for _ in 0..9 {
        let step = state.on_outcome(AttemptOutcome::Failure(AttemptError::Extraction));
        assert!(matches!(step, RetryStep::Sleep(_)));
    }
    let last = state.on_outcome(AttemptOutcome::Failure(AttemptError::Transport));
    assert_eq!(last, RetryStep::Done(FetchResult::Exhausted(AttemptError::Transport)));
}
