//! The `verify-*` / `enroll-*` status strings clients switch on, and whether each one ends the
//! operation. A retry-class status never ends it.

use vstd::prelude::*;

use crate::error::CoreError;

verus! {

/// Why a capture must be retried.
#[derive(Clone, Copy, Debug, PartialEq, Eq, Structural)]
pub enum RetryReason {
    /// The swipe was too short.
    TooShort,
    /// The finger was not centred.
    NotCentered,
    /// The finger must be lifted and placed again.
    RemoveAndRetry,
    /// The swipe was too fast.
    TooFast,
    /// Any other retry.
    General,
}

/// Progress of an enrolment after one capture.
#[derive(Clone, Copy, Debug, PartialEq, Eq, Structural)]
pub struct EnrollProgress {
    /// Stages completed so far.
    pub completed_stages: u32,
    /// Stages needed in all.
    pub total_stages: u32,
    /// Set when the capture must be retried.
    pub retry: Option<RetryReason>,
}

/// The terminal verify result of a completed match attempt.
pub fn verify_match(matched: bool) -> (r: (&'static str, bool))
    ensures
        r.0@ == if matched {
            "verify-match"@
        } else {
            "verify-no-match"@
        },
        r.1,
{
    if matched {
        ("verify-match", true)
    } else {
        ("verify-no-match", true)
    }
}

/// The verify status of a retry.
pub open spec fn verify_retry_name(reason: RetryReason) -> Seq<char> {
    match reason {
        RetryReason::TooShort => "verify-swipe-too-short"@,
        RetryReason::NotCentered => "verify-finger-not-centered"@,
        RetryReason::RemoveAndRetry => "verify-remove-and-retry"@,
        RetryReason::TooFast => "verify-too-fast"@,
        RetryReason::General => "verify-retry-scan"@,
    }
}

/// The verify status of a retry: the attempt is restarted, so it is never done.
pub fn verify_retry(reason: RetryReason) -> (r: (&'static str, bool))
    ensures
        r.0@ == verify_retry_name(reason),
        !r.1,
{
    let s = match reason {
        RetryReason::TooShort => "verify-swipe-too-short",
        RetryReason::NotCentered => "verify-finger-not-centered",
        RetryReason::RemoveAndRetry => "verify-remove-and-retry",
        RetryReason::TooFast => "verify-too-fast",
        RetryReason::General => "verify-retry-scan",
    };
    (s, false)
}

/// The terminal verify status of a failure.
pub open spec fn verify_error_name(error: CoreError) -> Seq<char> {
    match error {
        CoreError::Transport | CoreError::Protocol | CoreError::NotFound => "verify-disconnected"@,
        CoreError::Cancelled | CoreError::DataNotFound => "verify-no-match"@,
        _ => "verify-unknown-error"@,
    }
}

/// The terminal verify status of a failure: a lost device reads as disconnected, a cancellation
/// or a missing print as no match, anything else as unknown.
pub fn verify_error(error: &CoreError) -> (r: (&'static str, bool))
    ensures
        r.0@ == verify_error_name(*error),
        r.1,
        (*error is Transport || *error is Protocol || *error is NotFound) ==> r.0@
            == "verify-disconnected"@,
        (*error is Cancelled || *error is DataNotFound) ==> r.0@ == "verify-no-match"@,
        (*error is Busy || *error is ProtoState || *error is DataFull || *error is DataDuplicate
            || *error is Other) ==> r.0@ == "verify-unknown-error"@,
{
    let s = match error {
        CoreError::Transport | CoreError::Protocol | CoreError::NotFound => "verify-disconnected",
        CoreError::Cancelled | CoreError::DataNotFound => "verify-no-match",
        _ => "verify-unknown-error",
    };
    (s, true)
}

/// The enroll status of a retry.
pub open spec fn enroll_retry_name(reason: RetryReason) -> Seq<char> {
    match reason {
        RetryReason::TooShort => "enroll-swipe-too-short"@,
        RetryReason::NotCentered => "enroll-finger-not-centered"@,
        RetryReason::RemoveAndRetry => "enroll-remove-and-retry"@,
        RetryReason::TooFast => "enroll-too-fast"@,
        RetryReason::General => "enroll-retry-scan"@,
    }
}

/// The enroll status of a retry.
pub fn enroll_retry(reason: RetryReason) -> (s: &'static str)
    ensures
        s@ == enroll_retry_name(reason),
{
    match reason {
        RetryReason::TooShort => "enroll-swipe-too-short",
        RetryReason::NotCentered => "enroll-finger-not-centered",
        RetryReason::RemoveAndRetry => "enroll-remove-and-retry",
        RetryReason::TooFast => "enroll-too-fast",
        RetryReason::General => "enroll-retry-scan",
    }
}

/// The status of an intermediate enrolment capture: the retry's status, or `enroll-stage-passed`
/// while stages remain; `None` for the completing capture, whose completion the enrolment result
/// reports instead.
pub fn enroll_progress(progress: &EnrollProgress) -> (r: Option<&'static str>)
    ensures
        match progress.retry {
            Some(reason) => r matches Some(s) && s@ == enroll_retry_name(reason),
            None => if progress.completed_stages < progress.total_stages {
                r matches Some(s) && s@ == "enroll-stage-passed"@
            } else {
                r is None
            },
        },
{
    if let Some(reason) = progress.retry {
        Some(enroll_retry(reason))
    } else if progress.completed_stages < progress.total_stages {
        Some("enroll-stage-passed")
    } else {
        None
    }
}

/// The terminal enroll status of a failure.
pub open spec fn enroll_error_name(error: CoreError) -> Seq<char> {
    match error {
        CoreError::DataFull => "enroll-data-full"@,
        CoreError::DataDuplicate => "enroll-duplicate"@,
        CoreError::Transport | CoreError::Protocol | CoreError::NotFound => "enroll-disconnected"@,
        CoreError::Cancelled => "enroll-failed"@,
        _ => "enroll-unknown-error"@,
    }
}

/// The terminal enroll status of a failure.
pub fn enroll_error(error: &CoreError) -> (s: &'static str)
    ensures
        s@ == enroll_error_name(*error),
        (*error is Transport || *error is Protocol || *error is NotFound) ==> s@
            == "enroll-disconnected"@,
        *error is DataFull ==> s@ == "enroll-data-full"@,
        *error is DataDuplicate ==> s@ == "enroll-duplicate"@,
        *error is Cancelled ==> s@ == "enroll-failed"@,
        (*error is Busy || *error is ProtoState || *error is DataNotFound || *error is Other) ==> s@
            == "enroll-unknown-error"@,
{
    match error {
        CoreError::DataFull => "enroll-data-full",
        CoreError::DataDuplicate => "enroll-duplicate",
        CoreError::Transport | CoreError::Protocol | CoreError::NotFound => "enroll-disconnected",
        CoreError::Cancelled => "enroll-failed",
        _ => "enroll-unknown-error",
    }
}

/// A lost reader reads the same way to both operations: a failure is reported as a
/// disconnection to a verification exactly when it is to an enrolment, and those failures are a
/// failed transport, a protocol failure or a reader no longer found.
pub proof fn lemma_lost_reader_is_disconnected_for_both(error: CoreError)
    ensures
        (verify_error_name(error) == "verify-disconnected"@) == (enroll_error_name(error)
            == "enroll-disconnected"@),
        (enroll_error_name(error) == "enroll-disconnected"@) == (error is Transport || error is Protocol
            || error is NotFound),
{
    reveal_strlit("verify-disconnected");
    reveal_strlit("verify-no-match");
    reveal_strlit("verify-unknown-error");
    reveal_strlit("enroll-disconnected");
    reveal_strlit("enroll-data-full");
    reveal_strlit("enroll-duplicate");
    reveal_strlit("enroll-failed");
    reveal_strlit("enroll-unknown-error");
    let a = "enroll-disconnected"@;
    assert(a[7] == 'd');
    assert("enroll-data-full"@[8] != a[8]);
    assert("enroll-duplicate"@[8] != a[8]);
    assert("enroll-failed"@[7] != a[7]);
    assert("enroll-unknown-error"@[7] != a[7]);
    let v = "verify-disconnected"@;
    assert("verify-no-match"@[7] != v[7]);
    assert("verify-unknown-error"@[7] != v[7]);
}

/// A retry reads the same to both operations: the verify and enroll statuses of a retry share
/// everything after their `verify-` / `enroll-` prefix, and different reasons give different
/// statuses.
pub proof fn lemma_retry_statuses_agree(a: RetryReason, b: RetryReason)
    ensures
        verify_retry_name(a).take(7) == "verify-"@,
        enroll_retry_name(a).take(7) == "enroll-"@,
        verify_retry_name(a).skip(7) == enroll_retry_name(a).skip(7),
        a != b ==> verify_retry_name(a) != verify_retry_name(b),
{
    reveal_strlit("verify-");
    reveal_strlit("enroll-");
    reveal_strlit("verify-swipe-too-short");
    reveal_strlit("verify-finger-not-centered");
    reveal_strlit("verify-remove-and-retry");
    reveal_strlit("verify-too-fast");
    reveal_strlit("verify-retry-scan");
    reveal_strlit("enroll-swipe-too-short");
    reveal_strlit("enroll-finger-not-centered");
    reveal_strlit("enroll-remove-and-retry");
    reveal_strlit("enroll-too-fast");
    reveal_strlit("enroll-retry-scan");
    assert(verify_retry_name(a).take(7) =~= "verify-"@);
    assert(enroll_retry_name(a).take(7) =~= "enroll-"@);
    assert(verify_retry_name(a).skip(7) =~= enroll_retry_name(a).skip(7));
    if a != b && verify_retry_name(a) == verify_retry_name(b) {
        assert(verify_retry_name(a).len() == verify_retry_name(b).len());
        assert(verify_retry_name(a)[7] == verify_retry_name(b)[7]);
    }
}

} // verus!
