//! The decisions of a fingerprint check through fprintd.
//!
//! The IPC itself (claiming the reader, starting and stopping verification, waiting for
//! signals) happens outside this library; here are the settings of a check, the status
//! vocabulary of the reader, and what to do after each wait.
use vstd::prelude::*;

use super::Error;
use crate::text::{copy_str, str_eq};

verus! {

/// Settings of a fingerprint check.
pub struct FprintdPresenceVerifier {
    use_system_bus: bool,
    timeout_ms: u64,
}

impl FprintdPresenceVerifier {
    pub closed spec fn system_bus(&self) -> bool {
        self.use_system_bus
    }

    pub closed spec fn timeout(&self) -> u64 {
        self.timeout_ms
    }

    /// A check on the system bus that gives up after `timeout_secs` seconds.
    pub fn new(timeout_secs: u8) -> (r: Self)
        ensures
            r.system_bus(),
            r.timeout() == timeout_secs as u64 * 1000,
    {
        FprintdPresenceVerifier { use_system_bus: true, timeout_ms: timeout_secs as u64 * 1000 }
    }

    /// A check on the session bus, for running against a stand-in reader.
    pub fn on_session_bus(timeout_ms: u64) -> (r: Self)
        ensures
            !r.system_bus(),
            r.timeout() == timeout_ms,
    {
        FprintdPresenceVerifier { use_system_bus: false, timeout_ms }
    }

    pub fn use_system_bus(&self) -> (r: bool)
        ensures
            r == self.system_bus(),
    {
        self.use_system_bus
    }

    /// Milliseconds that a check may wait for a match.
    pub fn timeout_ms(&self) -> (r: u64)
        ensures
            r == self.timeout(),
    {
        self.timeout_ms
    }
}

/// The statuses that a reader reports for a verification attempt.
#[derive(Clone, Copy, Debug, PartialEq, Eq)]
pub enum Status {
    Match,
    NoMatch,
    RetryScan,
    SwipeTooShort,
    FingerNotCentered,
    RemoveAndRetry,
    Disconnected,
    UnknownError,
}

/// The name of a status on the bus.
pub open spec fn status_name(s: Status) -> Seq<char> {
    match s {
        Status::Match => "verify-match"@,
        Status::NoMatch => "verify-no-match"@,
        Status::RetryScan => "verify-retry-scan"@,
        Status::SwipeTooShort => "verify-swipe-too-short"@,
        Status::FingerNotCentered => "verify-finger-not-entered"@,
        Status::RemoveAndRetry => "verify-remove-and-retry"@,
        Status::Disconnected => "verify-disconnected"@,
        Status::UnknownError => "verify-unknown-error"@,
    }
}

impl Status {
    /// The bus name of this status.
    pub fn name(&self) -> (r: &'static str)
        ensures
            r@ == status_name(*self),
    {
        match self {
            Status::Match => "verify-match",
            Status::NoMatch => "verify-no-match",
            Status::RetryScan => "verify-retry-scan",
            Status::SwipeTooShort => "verify-swipe-too-short",
            Status::FingerNotCentered => "verify-finger-not-entered",
            Status::RemoveAndRetry => "verify-remove-and-retry",
            Status::Disconnected => "verify-disconnected",
            Status::UnknownError => "verify-unknown-error",
        }
    }

    /// The status with the given bus name, if there is one.
    pub fn from_name(s: &str) -> (r: Option<Status>)
        ensures
            match r {
                Some(st) => status_name(st) == s@,
                None => forall|st: Status| status_name(st) != s@,
            },
    {
        let all = [
            Status::Match,
            Status::NoMatch,
            Status::RetryScan,
            Status::SwipeTooShort,
            Status::FingerNotCentered,
            Status::RemoveAndRetry,
            Status::Disconnected,
            Status::UnknownError,
        ];
        let mut i: usize = 0;
        while i < 8
            invariant
                i <= 8,
                all@ == seq![
                    Status::Match,
                    Status::NoMatch,
                    Status::RetryScan,
                    Status::SwipeTooShort,
                    Status::FingerNotCentered,
                    Status::RemoveAndRetry,
                    Status::Disconnected,
                    Status::UnknownError,
                ],
                forall|k: int| 0 <= k < i ==> status_name(#[trigger] all@[k]) != s@,
            decreases 8 - i,
        {
            let st = all[i];
            if str_eq(st.name(), s) {
                return Some(st);
            }
            i = i + 1;
        }
        proof {
            assert forall|st: Status| status_name(st) != s@ by {
                match st {
                    Status::Match => assert(all@[0] == st),
                    Status::NoMatch => assert(all@[1] == st),
                    Status::RetryScan => assert(all@[2] == st),
                    Status::SwipeTooShort => assert(all@[3] == st),
                    Status::FingerNotCentered => assert(all@[4] == st),
                    Status::RemoveAndRetry => assert(all@[5] == st),
                    Status::Disconnected => assert(all@[6] == st),
                    Status::UnknownError => assert(all@[7] == st),
                }
            }
        }
        None
    }
}

/// Why a fingerprint check ended in an error.
#[derive(Clone, Copy, Debug, PartialEq, Eq)]
pub enum FailReason {
    Disconnected,
    UnknownError,
}

/// What the check does after a wait on the bus.
#[derive(Clone, Copy, Debug, PartialEq, Eq)]
pub enum VerifyAction {
    /// Stop the attempt; the owner is present.
    StopAndSucceed,
    /// Stop the attempt and start a new one, then keep waiting.
    StopAndRestart,
    /// Keep waiting for a status.
    KeepWaiting,
    /// Stop the attempt and fail with the reason.
    StopAndFail(FailReason),
    /// The time is up: stop the attempt; the owner was not shown to be present.
    StopAndTimeOut,
}

/// A status that only asks the user to scan again, with the attempt still running.
pub open spec fn is_transient(s: Status) -> bool {
    s == Status::RetryScan || s == Status::SwipeTooShort || s == Status::FingerNotCentered || s
        == Status::RemoveAndRetry
}

/// The action after a wait that left `time_left_ms` of the budget and delivered `status`
/// (the latest one since the previous wait, if any).
pub open spec fn next_action_spec(time_left_ms: u64, status: Option<Status>) -> VerifyAction {
    match status {
        Some(Status::Match) => VerifyAction::StopAndSucceed,
        Some(Status::NoMatch) => VerifyAction::StopAndRestart,
        Some(Status::Disconnected) => VerifyAction::StopAndFail(FailReason::Disconnected),
        Some(Status::UnknownError) => VerifyAction::StopAndFail(FailReason::UnknownError),
        _ => if time_left_ms > 0 {
            VerifyAction::KeepWaiting
        } else {
            VerifyAction::StopAndTimeOut
        },
    }
}

/// Decides what the check does after a wait.
pub fn next_action(time_left_ms: u64, status: Option<Status>) -> (r: VerifyAction)
    ensures
        r == next_action_spec(time_left_ms, status),
{
    match status {
        Some(Status::Match) => VerifyAction::StopAndSucceed,
        Some(Status::NoMatch) => VerifyAction::StopAndRestart,
        Some(Status::Disconnected) => VerifyAction::StopAndFail(FailReason::Disconnected),
        Some(Status::UnknownError) => VerifyAction::StopAndFail(FailReason::UnknownError),
        _ => if time_left_ms > 0 {
            VerifyAction::KeepWaiting
        } else {
            VerifyAction::StopAndTimeOut
        },
    }
}

/// The budget left after a wait that took `elapsed_ms`; never below zero.
pub fn time_left_after(time_left_ms: u64, elapsed_ms: u64) -> (r: u64)
    ensures
        r == if elapsed_ms >= time_left_ms { 0 } else { time_left_ms - elapsed_ms },
{
    if elapsed_ms >= time_left_ms {
        0
    } else {
        time_left_ms - elapsed_ms
    }
}

/// An error with the given message.
pub fn fail<T>(reason: &str) -> (r: core::result::Result<T, Error>)
    ensures
        r matches Err(Error::ImplementationSpecificError(m)) && m@ == reason@,
{
    Err(Error::ImplementationSpecificError(copy_str(reason)))
}

/// The error that ends a check for the given reason.
pub fn fail_reason_error(reason: FailReason) -> (r: Error)
    ensures
        r matches Error::ImplementationSpecificError(m) && m@ == match reason {
            FailReason::Disconnected => "fprintd: fingerprint reader disconnected"@,
            FailReason::UnknownError => "fprintd: fingerprint scan failed with unknown error"@,
        },
{
    match reason {
        FailReason::Disconnected => Error::ImplementationSpecificError(
            copy_str("fprintd: fingerprint reader disconnected"),
        ),
        FailReason::UnknownError => Error::ImplementationSpecificError(
            copy_str("fprintd: fingerprint scan failed with unknown error"),
        ),
    }
}

} // verus!
