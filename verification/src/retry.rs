//! The bounded optimistic-concurrency retry protocol.
//!
//! Two backend shapes stand behind one rule: re-run a transaction body
//! only on a store-reported write conflict, never on the body's own
//! error, and only a configured, finite number of times. A store with
//! built-in retry needs only its outcome translated; a store without
//! one is driven by the bounded loop here, fed one classified outcome
//! per attempt.

use vstd::prelude::*;

use crate::error::TransactionError;

verus! {

/// The classified outcome of one transaction attempt.
pub enum AttemptOutcome {
    /// The body succeeded and the commit applied durably.
    Committed,
    /// The body itself failed; rolled back and never retried.
    BodyFailed(TransactionError),
    /// The commit reported an optimistic write conflict; retryable.
    CommitBusy(TransactionError),
    /// The commit failed for any other reason; fatal.
    CommitFatal(TransactionError),
}

/// Classifies a commit failure: a store-reported conflict is retryable,
/// anything else is fatal.
pub fn classify_commit_error(e: TransactionError) -> (o: AttemptOutcome)
    ensures
        e matches TransactionError::Conflict(_) ==> (o matches AttemptOutcome::CommitBusy(e2)
            && e2 == e),
        !(e matches TransactionError::Conflict(_)) ==> (o matches AttemptOutcome::CommitFatal(e2)
            && e2 == e),
{
    if e.is_retryable() {
        AttemptOutcome::CommitBusy(e)
    } else {
        AttemptOutcome::CommitFatal(e)
    }
}

/// Translates the outcome of a store's own built-in retry loop: the
/// body's error surfaces untouched, a driver-level failure becomes a
/// fatal store error, success passes through.
pub fn translate_driver_outcome(o: Result<(), TransactionError>, driver_failure: Option<String>)
    -> (r: Result<(), TransactionError>)
    ensures
        match driver_failure {
            Some(msg) => r == Err::<(), TransactionError>(TransactionError::StoreFail(msg)),
            None => r == o,
        },
{
    match driver_failure {
        Some(msg) => Err(TransactionError::StoreFail(msg)),
        None => o,
    }
}

/// Whether two transaction errors are the same error, text compared by
/// content.
pub open spec fn same_error(a: TransactionError, b: TransactionError) -> bool {
    match (a, b) {
        (TransactionError::SerializationError(x), TransactionError::SerializationError(y)) => x@
            == y@,
        (TransactionError::Conflict(x), TransactionError::Conflict(y)) => x@ == y@,
        (TransactionError::StoreFail(x), TransactionError::StoreFail(y)) => x@ == y@,
        (TransactionError::IndexAlreadyExists, TransactionError::IndexAlreadyExists) => true,
        (TransactionError::IndexMismatchError, TransactionError::IndexMismatchError) => true,
        (TransactionError::IndexNotFound, TransactionError::IndexNotFound) => true,
        (TransactionError::OpProhibited, TransactionError::OpProhibited) => true,
        _ => false,
    }
}

/// Runs the bounded retry protocol over a script of one classified
/// outcome per attempt: stop at the first decisive outcome, retry only
/// on conflicts, and after `retry_attempts` conflicts surface the last
/// conflict as a fatal error, never a silent success. Returns the
/// protocol's verdict and how many attempts were made.
///
/// LAW — retry termination: when every attempt reports a conflict, the
/// run fails after exactly `retry_attempts` attempts (the last ensures
/// clause below).
pub fn run_transact_script(retry_attempts: usize, script: &Vec<AttemptOutcome>) -> (r: (
    Result<(), TransactionError>,
    usize,
))
    requires
        retry_attempts >= 1,
        script@.len() >= retry_attempts,
    ensures
        1 <= r.1 <= retry_attempts,
        forall|j: int| 0 <= j < r.1 - 1 ==> #[trigger] script@[j] matches AttemptOutcome::CommitBusy(_),
        match script@[r.1 - 1] {
            AttemptOutcome::Committed => r.0 == Ok::<(), TransactionError>(()),
            AttemptOutcome::BodyFailed(e) => (r.0 matches Err(e2) && same_error(e2, e)),
            AttemptOutcome::CommitFatal(e) => (r.0 matches Err(e2) && same_error(e2, e)),
            AttemptOutcome::CommitBusy(e) => r.1 == retry_attempts && (r.0 matches Err(e2)
                && same_error(e2, e)),
        },
        (forall|j: int|
            0 <= j < retry_attempts ==> #[trigger] script@[j] matches AttemptOutcome::CommitBusy(
                _,
            )) ==> (r.1 == retry_attempts && r.0 is Err),
{
    let mut i: usize = 0;
    while i < retry_attempts
        invariant
            0 <= i <= retry_attempts,
            retry_attempts <= script@.len(),
            forall|j: int| 0 <= j < i ==> #[trigger] script@[j] matches AttemptOutcome::CommitBusy(_),
        decreases retry_attempts - i,
    {
        match &script[i] {
            AttemptOutcome::Committed => {
                return (Ok(()), i + 1);
            },
            AttemptOutcome::BodyFailed(e) => {
                return (Err(clone_error(e)), i + 1);
            },
            AttemptOutcome::CommitFatal(e) => {
                return (Err(clone_error(e)), i + 1);
            },
            AttemptOutcome::CommitBusy(e) => {
                if i + 1 == retry_attempts {
                    return (Err(clone_error(e)), i + 1);
                }
            },
        }
        i = i + 1;
    }
    // Exhausted: every attempt reported a conflict, and the loop already
    // surfaced the last one; the non-busy arms cannot be reached.
    match &script[retry_attempts - 1] {
        AttemptOutcome::Committed => (Ok(()), retry_attempts),
        AttemptOutcome::BodyFailed(e) => (Err(clone_error(e)), retry_attempts),
        AttemptOutcome::CommitFatal(e) => (Err(clone_error(e)), retry_attempts),
        AttemptOutcome::CommitBusy(e) => (Err(clone_error(e)), retry_attempts),
    }
}

/// An identical transaction error value.
pub fn clone_error(e: &TransactionError) -> (r: TransactionError)
    ensures
        same_error(r, *e),
{
    match e {
        TransactionError::SerializationError(s) => TransactionError::SerializationError(
            clone_string(s),
        ),
        TransactionError::Conflict(s) => TransactionError::Conflict(clone_string(s)),
        TransactionError::StoreFail(s) => TransactionError::StoreFail(clone_string(s)),
        TransactionError::IndexAlreadyExists => TransactionError::IndexAlreadyExists,
        TransactionError::IndexMismatchError => TransactionError::IndexMismatchError,
        TransactionError::IndexNotFound => TransactionError::IndexNotFound,
        TransactionError::OpProhibited => TransactionError::OpProhibited,
    }
}

/// An identical string value.
pub fn clone_string(s: &String) -> (r: String)
    ensures
        r@ == s@,
{
    let mut out = String::new();
    out.append(s.as_str());
    out
}

} // verus!
