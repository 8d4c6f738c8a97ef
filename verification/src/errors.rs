//! The stable error surface shared by every service of the runtime.
use vstd::prelude::*;

use crate::spans::SessionSpan;

verus! {

/// Stable machine-readable failure classes.
#[derive(Clone, Copy, Debug, PartialEq, Eq, Structural)]
pub enum ErrorCode {
    InvalidInput,
    NotFound,
    Cancelled,
    ResourceLimitExceeded,
    ArtifactGenerationFailed,
    EvidenceInvalidated,
    Internal,
    PersistenceFailed,
    BrowserNotFound,
    InvalidLifecycleTransition,
    StaleReference,
}

/// The stable name of a failure class, as reports print it.
pub open spec fn code_name(code: ErrorCode) -> Seq<char> {
    match code {
        ErrorCode::InvalidInput => "invalid_input"@,
        ErrorCode::NotFound => "not_found"@,
        ErrorCode::Cancelled => "cancelled"@,
        ErrorCode::ResourceLimitExceeded => "resource_limit_exceeded"@,
        ErrorCode::ArtifactGenerationFailed => "artifact_generation_failed"@,
        ErrorCode::EvidenceInvalidated => "evidence_invalidated"@,
        ErrorCode::Internal => "internal"@,
        ErrorCode::PersistenceFailed => "persistence_failed"@,
        ErrorCode::BrowserNotFound => "browser_not_found"@,
        ErrorCode::InvalidLifecycleTransition => "invalid_lifecycle_transition"@,
        ErrorCode::StaleReference => "stale_reference"@,
    }
}

impl ErrorCode {
    pub fn as_str(self) -> (r: &'static str)
        ensures
            r@ == code_name(self),
    {
        match self {
            ErrorCode::InvalidInput => "invalid_input",
            ErrorCode::NotFound => "not_found",
            ErrorCode::Cancelled => "cancelled",
            ErrorCode::ResourceLimitExceeded => "resource_limit_exceeded",
            ErrorCode::ArtifactGenerationFailed => "artifact_generation_failed",
            ErrorCode::EvidenceInvalidated => "evidence_invalidated",
            ErrorCode::Internal => "internal",
            ErrorCode::PersistenceFailed => "persistence_failed",
            ErrorCode::BrowserNotFound => "browser_not_found",
            ErrorCode::InvalidLifecycleTransition => "invalid_lifecycle_transition",
            ErrorCode::StaleReference => "stale_reference",
        }
    }
}

/// Whether and when a caller may retry a failed request.
#[derive(Clone, Copy, Debug, PartialEq, Eq, Structural)]
pub enum RetryAdvice {
    Never,
    Safe,
    AfterRecovery,
}

/// The investigation scope attached to a failure: identities and session time only.
#[derive(Clone, Copy, Debug, PartialEq, Eq, Structural)]
pub struct ErrorContext {
    pub session_id: Option<u128>,
    pub target_id: Option<u128>,
    pub range: Option<SessionSpan>,
}

/// A failure with a stable code, a human-readable message, optional retry advice
/// (absent: never retry) and optional recovery guidance.
#[derive(Debug)]
pub struct Failure {
    pub code: ErrorCode,
    pub message: String,
    pub retry: Option<RetryAdvice>,
    pub recovery: Option<String>,
    pub context: ErrorContext,
}

/// The empty investigation scope.
pub open spec fn no_context() -> ErrorContext {
    ErrorContext { session_id: None, target_id: None, range: None }
}

impl Failure {
    /// A failure with the given code and message and nothing else attached.
    pub fn new(code: ErrorCode, message: &str) -> (f: Failure)
        ensures
            f.code == code,
            f.message@ == message@,
            f.retry.is_none(),
            f.recovery.is_none(),
            f.context == no_context(),
    {
        Failure {
            code,
            message: String::from_str(message),
            retry: None,
            recovery: None,
            context: ErrorContext { session_id: None, target_id: None, range: None },
        }
    }

    /// The same failure with retry advice attached.
    pub fn with_retry(self, retry: RetryAdvice) -> (f: Failure)
        ensures
            f.code == self.code,
            f.message@ == self.message@,
            f.retry == Some(retry),
            f.recovery == self.recovery,
            f.context == self.context,
    {
        Failure { retry: Some(retry), ..self }
    }

    /// The same failure with recovery guidance attached.
    pub fn with_recovery(self, recovery: &str) -> (f: Failure)
        ensures
            f.code == self.code,
            f.message@ == self.message@,
            f.retry == self.retry,
            f.recovery matches Some(r) && r@ == recovery@,
            f.context == self.context,
    {
        Failure { recovery: Some(String::from_str(recovery)), ..self }
    }

    /// The same failure with an investigation scope attached.
    pub fn with_context(self, context: ErrorContext) -> (f: Failure)
        ensures
            f.code == self.code,
            f.message@ == self.message@,
            f.retry == self.retry,
            f.recovery == self.recovery,
            f.context == context,
    {
        Failure { context, ..self }
    }
}

/// The name of retry advice, as reports print it.
pub open spec fn retry_name(advice: RetryAdvice) -> Seq<char> {
    match advice {
        RetryAdvice::Never => "never"@,
        RetryAdvice::Safe => "safe"@,
        RetryAdvice::AfterRecovery => "after_recovery"@,
    }
}

pub fn retry_advice_name(advice: RetryAdvice) -> (r: &'static str)
    ensures
        r@ == retry_name(advice),
{
    match advice {
        RetryAdvice::Never => "never",
        RetryAdvice::Safe => "safe",
        RetryAdvice::AfterRecovery => "after_recovery",
    }
}

/// The advice a failure carries: never retry when none was attached.
pub open spec fn effective_retry(f: &Failure) -> RetryAdvice {
    match f.retry {
        Some(a) => a,
        None => RetryAdvice::Never,
    }
}

/// The line a command prints for a failure: its code, its retry advice and its
/// message.
pub open spec fn report_text(f: &Failure) -> Seq<char> {
    "error["@ + code_name(f.code) + "] (retry="@ + retry_name(effective_retry(f)) + "): "@ + f.message@
}

pub fn report_line(f: &Failure) -> (line: String)
    ensures
        line@ == report_text(f),
{
    let mut line = String::from_str("error[");
    line.append(f.code.as_str());
    line.append("] (retry=");
    let advice = match f.retry {
        Some(a) => a,
        None => RetryAdvice::Never,
    };
    line.append(retry_advice_name(advice));
    line.append("): ");
    line.append(f.message.as_str());
    line
}

} // verus!
