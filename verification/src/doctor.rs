//! The `doctor` command: can this machine supply a compatible browser?
//!
//! Doctor only asks the discovery authority for installations; it never
//! launches a browser or touches recording state.
use vstd::prelude::*;

use crate::errors::{ErrorCode, Failure, RetryAdvice, no_context};
use crate::text::{decimal, push_decimal};

verus! {

/// What doctor found: how many browser installations.
#[derive(Debug)]
pub struct DoctorOutcome {
    pub installation_count: usize,
}

pub open spec fn success_text(count: nat) -> Seq<char> {
    "browser available: "@ + decimal(count) + " installation(s)"@
}

impl DoctorOutcome {
    /// The one line doctor prints on success.
    pub fn success_line(&self) -> (line: String)
        ensures
            line@ == success_text(self.installation_count as nat),
    {
        let mut line = String::from_str("browser available: ");
        push_decimal(&mut line, self.installation_count as u64);
        line.append(" installation(s)");
        line
    }
}

/// The message of a discovery failure with the given stable code.
pub open spec fn launcher_message(code: ErrorCode) -> Seq<char> {
    if code == ErrorCode::BrowserNotFound {
        "no supported browser installation was found"@
    } else {
        "browser discovery failed"@
    }
}

/// A discovery failure on the stable error surface: its stable code, a message
/// that names no executable or profile path, and the advice to install a browser.
pub fn doctor_launcher_error(code: ErrorCode) -> (f: Failure)
    ensures
        f.code == code,
        f.message@ == launcher_message(code),
        f.retry == Some(RetryAdvice::AfterRecovery),
        f.recovery matches Some(r) && r@ == "install Chrome or Chromium, then run doctor again"@,
        f.context == no_context(),
{
    let message = match code {
        ErrorCode::BrowserNotFound => "no supported browser installation was found",
        _ => "browser discovery failed",
    };
    Failure::new(code, message)
        .with_retry(RetryAdvice::AfterRecovery)
        .with_recovery("install Chrome or Chromium, then run doctor again")
}

/// The failure doctor reports when no installation exists.
pub fn browser_not_found() -> (f: Failure)
    ensures
        f.code == ErrorCode::BrowserNotFound,
        f.message@ == "no supported browser installation was found"@,
        f.retry == Some(RetryAdvice::AfterRecovery),
        f.recovery matches Some(r) && r@ == "install Chrome or Chromium, then run doctor again"@,
        f.context == no_context(),
{
    Failure::new(ErrorCode::BrowserNotFound, "no supported browser installation was found")
        .with_retry(RetryAdvice::AfterRecovery)
        .with_recovery("install Chrome or Chromium, then run doctor again")
}

/// Doctor's answer from what discovery returned: the number of installations
/// found, or the stable code of the discovery failure.
pub fn run(discovered: Result<usize, ErrorCode>) -> (r: Result<DoctorOutcome, Failure>)
    ensures
        match discovered {
            Ok(n) => match r {
                Ok(o) => n > 0 && o.installation_count == n,
                Err(f) => n == 0 && f.code == ErrorCode::BrowserNotFound
                    && f.message@ == "no supported browser installation was found"@
                    && f.retry == Some(RetryAdvice::AfterRecovery)
                    && (f.recovery matches Some(t) && t@ == "install Chrome or Chromium, then run doctor again"@)
                    && f.context == no_context(),
            },
            Err(code) => match r {
                Ok(_) => false,
                Err(f) => f.code == code && f.message@ == launcher_message(code)
                    && f.retry == Some(RetryAdvice::AfterRecovery)
                    && (f.recovery matches Some(t) && t@ == "install Chrome or Chromium, then run doctor again"@)
                    && f.context == no_context(),
            },
        },
{
    match discovered {
        Ok(n) => {
            if n == 0 {
                Err(browser_not_found())
            } else {
                Ok(DoctorOutcome { installation_count: n })
            }
        },
        Err(code) => Err(doctor_launcher_error(code)),
    }
}

} // verus!
