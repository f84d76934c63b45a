//! Error type of the Installations module.
use vstd::prelude::*;

use crate::text::owned;

verus! {

/// The failure categories of the installations service.
#[derive(Clone, Copy, Debug, PartialEq, Eq, Structural)]
pub enum InstallationsErrorCode {
    InvalidArgument,
    Internal,
    RequestFailed,
}

/// The code string of each error code.
pub open spec fn installations_code_text(code: InstallationsErrorCode) -> Seq<char> {
    match code {
        InstallationsErrorCode::InvalidArgument => "installations/invalid-argument"@,
        InstallationsErrorCode::Internal => "installations/internal"@,
        InstallationsErrorCode::RequestFailed => "installations/request-failed"@,
    }
}

impl InstallationsErrorCode {
    /// The `installations/...` code string.
    pub fn as_str(&self) -> (r: &'static str)
        ensures
            r@ == installations_code_text(*self),
    {
        match self {
            InstallationsErrorCode::InvalidArgument => "installations/invalid-argument",
            InstallationsErrorCode::Internal => "installations/internal",
            InstallationsErrorCode::RequestFailed => "installations/request-failed",
        }
    }
}

/// A installations failure: a code and a message.
#[derive(Clone, Debug)]
pub struct InstallationsError {
    pub code: InstallationsErrorCode,
    pub message: String,
}

impl InstallationsError {
    pub fn new(code: InstallationsErrorCode, message: &str) -> (e: Self)
        ensures
            e.code == code,
            e.message@ == message@,
    {
        InstallationsError { code, message: owned(message) }
    }

    /// The `installations/...` code string of this error.
    pub fn code_str(&self) -> (r: &'static str)
        ensures
            r@ == installations_code_text(self.code),
    {
        self.code.as_str()
    }

    /// `"{message} ({code})"`: how the error is displayed.
    pub fn to_string(&self) -> (r: String)
        ensures
            r@ == self.message@ + " ("@ + installations_code_text(self.code) + ")"@,
    {
        let mut r = owned(self.message.as_str());
        r.append(" (");
        r.append(self.code_str());
        r.append(")");
        r
    }
}

/// The result of a installations operation.
pub type InstallationsResult<T> = Result<T, InstallationsError>;

/// An error with code `InvalidArgument`.
pub fn invalid_argument(message: &str) -> (e: InstallationsError)
    ensures
        e.code == InstallationsErrorCode::InvalidArgument,
        e.message@ == message@,
{
    InstallationsError::new(InstallationsErrorCode::InvalidArgument, message)
}

/// An error with code `Internal`.
pub fn internal_error(message: &str) -> (e: InstallationsError)
    ensures
        e.code == InstallationsErrorCode::Internal,
        e.message@ == message@,
{
    InstallationsError::new(InstallationsErrorCode::Internal, message)
}

/// An error with code `RequestFailed`.
pub fn request_failed(message: &str) -> (e: InstallationsError)
    ensures
        e.code == InstallationsErrorCode::RequestFailed,
        e.message@ == message@,
{
    InstallationsError::new(InstallationsErrorCode::RequestFailed, message)
}

} // verus!
