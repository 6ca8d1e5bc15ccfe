use kvtable::error::TransactionError;
use kvtable::retry::{
    classify_commit_error, run_transact_script, translate_driver_outcome, AttemptOutcome,
};

fn busy() -> AttemptOutcome {
    AttemptOutcome::CommitBusy(TransactionError::Conflict("busy".to_string()))
}

#[test]
fn always_busy_fails_after_exactly_retry_attempts() {
    let script = vec![busy(), busy(), busy(), busy(), busy()];
    let (r, attempts) = run_transact_script(4, &script);
    assert_eq!(attempts, 4);
    assert!(matches!(r, Err(TransactionError::Conflict(_))));
}

#[test]
fn single_attempt_budget_fails_on_first_conflict() {
    let script = vec![busy()];
    let (r, attempts) = run_transact_script(1, &script);
    assert_eq!(attempts, 1);
    assert!(matches!(r, Err(TransactionError::Conflict(_))));
}

#[test]
fn success_stops_retrying() {
    let script = vec![busy(), AttemptOutcome::Committed, busy()];
    let (r, attempts) = run_transact_script(3, &script);
    assert_eq!(attempts, 2);
    assert!(r.is_ok());
}

#[test]
fn body_error_is_never_retried() {
    let script = vec![
        AttemptOutcome::BodyFailed(TransactionError::IndexAlreadyExists),
        AttemptOutcome::Committed,
    ];
    let (r, attempts) = run_transact_script(2, &script);
    assert_eq!(attempts, 1);
    assert!(matches!(r, Err(TransactionError::IndexAlreadyExists)));
}

#[test]
fn fatal_commit_error_is_never_retried() {
    let script = vec![
        AttemptOutcome::CommitFatal(TransactionError::StoreFail("disk".to_string())),
        AttemptOutcome::Committed,
    ];
    let (r, attempts) = run_transact_script(2, &script);
    assert_eq!(attempts, 1);
    assert!(matches!(r, Err(TransactionError::StoreFail(_))));
}

#[test]
fn classification_retries_only_conflicts() {
    let busy = classify_commit_error(TransactionError::Conflict("again".to_string()));
    assert!(matches!(busy, AttemptOutcome::CommitBusy(_)));
    let fatal = classify_commit_error(TransactionError::StoreFail("io".to_string()));
    assert!(matches!(fatal, AttemptOutcome::CommitFatal(_)));
    let data = classify_commit_error(TransactionError::IndexMismatchError);
    assert!(matches!(data, AttemptOutcome::CommitFatal(TransactionError::IndexMismatchError)));
}

#[test]
fn retryable_is_only_conflict() {
    assert!(TransactionError::Conflict("x".to_string()).is_retryable());
    assert!(!TransactionError::IndexAlreadyExists.is_retryable());
    assert!(!TransactionError::StoreFail("x".to_string()).is_retryable());
    assert!(!TransactionError::SerializationError("x".to_string()).is_retryable());
}

#[test]
fn driver_outcome_translation() {
    let ok = translate_driver_outcome(Ok(()), None);
    assert!(ok.is_ok());
    let body = translate_driver_outcome(Err(TransactionError::IndexAlreadyExists), None);
    assert!(matches!(body, Err(TransactionError::IndexAlreadyExists)));
    let driver = translate_driver_outcome(Ok(()), Some("timed out".to_string()));
    assert!(matches!(driver, Err(TransactionError::StoreFail(_))));
}
