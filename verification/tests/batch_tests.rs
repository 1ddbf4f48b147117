use rusty_scrapper::batch::{run_batch, BatchOutcome, CancelFlag};
use rusty_scrapper::outcome::{AttemptError, AttemptOutcome, FetchResult};
use rusty_scrapper::progress::ProgressCounter;

fn failing_script(n: usize) -> Vec<AttemptOutcome> {
    vec![AttemptOutcome::Failure(AttemptError::Extraction); n]
}

#[test]
fn three_target_scenario_preserves_order() {
    let scripts = vec![
        vec![AttemptOutcome::Success(42)],
        vec![
            AttemptOutcome::Failure(AttemptError::Transport),
            AttemptOutcome::Success(7),
        ],
        failing_script(10),
    ];
    let cancel = CancelFlag::new();
    let mut progress = ProgressCounter::new(3);
    let outcome = run_batch(&scripts, &cancel, &mut progress);
    assert_eq!(
        outcome,
        BatchOutcome::Completed(vec![
            FetchResult::Success(42),
            FetchResult::Success(7),
            FetchResult::Exhausted(AttemptError::Extraction),
        ])
    );
    assert_eq!(progress.completed(), 3);
    assert!(progress.all_done());
}

#[test]
fn cancellation_yields_no_partial_results() {
    let scripts = vec![
        vec![AttemptOutcome::Success(1)],
        vec![AttemptOutcome::Success(2)],
        vec![AttemptOutcome::Success(3)],
        vec![AttemptOutcome::Success(4)],
        vec![AttemptOutcome::Success(5)],
    ];
    let mut cancel = CancelFlag::new();
    cancel.fire();
    let mut progress = ProgressCounter::new(5);
    let outcome = run_batch(&scripts, &cancel, &mut progress);
    assert_eq!(outcome, BatchOutcome::Cancelled);
    assert_eq!(progress.completed(), 0);
    assert!(!progress.all_done());
}

#[test]
fn cancellation_after_completion_has_no_effect() {
    let scripts = vec![vec![AttemptOutcome::Success(9)]];
    let mut cancel = CancelFlag::new();
    let mut progress = ProgressCounter::new(1);
    let outcome = run_batch(&scripts, &cancel, &mut progress);
    cancel.fire();
    assert_eq!(
        outcome,
        BatchOutcome::Completed(vec![FetchResult::Success(9)])
    );
    assert_eq!(progress.completed(), 1);
    assert!(cancel.is_fired());
}

#[test]
fn empty_batch_completes_empty() {
    let scripts: Vec<Vec<AttemptOutcome>> = Vec::new();
    let cancel = CancelFlag::new();
    let mut progress = ProgressCounter::new(0);
    let outcome = run_batch(&scripts, &cancel, &mut progress);
    assert_eq!(outcome, BatchOutcome::Completed(Vec::new()));
    assert!(progress.all_done());
}

#[test]
fn progress_counter_counts_up_to_total() {
    let mut counter = ProgressCounter::new(2);
    assert_eq!(counter.completed(), 0);
    assert_eq!(counter.total(), 2);
    assert!(!counter.all_done());
    counter.record_completion();
    assert_eq!(counter.completed(), 1);
    assert!(!counter.all_done());
    counter.record_completion();
    assert_eq!(counter.completed(), 2);
    assert!(counter.all_done());
}

#[test]
fn cancel_flag_is_one_shot() {
    let mut cancel = CancelFlag::new();
    assert!(!cancel.is_fired());
    cancel.fire();
    assert!(cancel.is_fired());
    cancel.fire();
    assert!(cancel.is_fired());
}
