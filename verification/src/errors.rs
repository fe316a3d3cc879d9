//! The closed set of error statuses that protect/unprotect report.

use vstd::prelude::*;

verus! {

/// Everything fallible in the engine reports one of these statuses; callers
/// branch on the exact kind. Local per-packet conditions (`AuthFail`,
/// `ReplayFail`, `ReplayOld`) never corrupt stream state; structural misuse
/// (`BadParam`, `NoCtx`) is a contract violation by the caller.
#[derive(Clone, Copy, Debug, PartialEq, Eq, Structural)]
pub enum ErrorStatus {
    /// Unspecified failure.
    Fail,
    /// Unsupported parameter or malformed input (bad header, bad key length).
    BadParam,
    /// Authentication tag did not verify.
    AuthFail,
    /// Cipher operation failed.
    CipherFail,
    /// Replay check failed: the index was already received.
    ReplayFail,
    /// Replay check failed: the index is older than anything in the window.
    ReplayOld,
    /// Algorithm failed a self-check.
    AlgoFail,
    /// No stream context applies to the packet.
    NoCtx,
    /// Unable to perform the desired validation.
    CantCheck,
    /// The index space of the stream's key is exhausted.
    KeyExpired,
}

impl ErrorStatus {
    /// A short stable name for the status, for diagnostics.
    pub fn name(&self) -> (r: &'static str)
    {
        match self {
            ErrorStatus::Fail => "fail",
            ErrorStatus::BadParam => "bad_param",
            ErrorStatus::AuthFail => "auth_fail",
            ErrorStatus::CipherFail => "cipher_fail",
            ErrorStatus::ReplayFail => "replay_fail",
            ErrorStatus::ReplayOld => "replay_old",
            ErrorStatus::AlgoFail => "algo_fail",
            ErrorStatus::NoCtx => "no_ctx",
            ErrorStatus::CantCheck => "cant_check",
            ErrorStatus::KeyExpired => "key_expired",
        }
    }
}

} // verus!
