//! Error type of the Functions module.
use vstd::prelude::*;

use crate::text::owned;

verus! {

/// The failure categories of the functions service.
#[derive(Clone, Copy, Debug, PartialEq, Eq, Structural)]
pub enum FunctionsErrorCode {
    Internal,
    InvalidArgument,
}

/// The code string of each error code.
pub open spec fn functions_code_text(code: FunctionsErrorCode) -> Seq<char> {
    match code {
        FunctionsErrorCode::Internal => "functions/internal"@,
        FunctionsErrorCode::InvalidArgument => "functions/invalid-argument"@,
    }
}

impl FunctionsErrorCode {
    /// The `functions/...` code string.
    pub fn as_str(&self) -> (r: &'static str)
        ensures
            r@ == functions_code_text(*self),
    {
        match self {
            FunctionsErrorCode::Internal => "functions/internal",
            FunctionsErrorCode::InvalidArgument => "functions/invalid-argument",
        }
    }
}

/// A functions failure: a code and a message.
#[derive(Clone, Debug)]
pub struct FunctionsError {
    pub code: FunctionsErrorCode,
    pub message: String,
}

impl FunctionsError {
    pub fn new(code: FunctionsErrorCode, message: &str) -> (e: Self)
        ensures
            e.code == code,
            e.message@ == message@,
    {
        FunctionsError { code, message: owned(message) }
    }

    /// The `functions/...` code string of this error.
    pub fn code_str(&self) -> (r: &'static str)
        ensures
            r@ == functions_code_text(self.code),
    {
        self.code.as_str()
    }

    /// `"{message} ({code})"`: how the error is displayed.
    pub fn to_string(&self) -> (r: String)
        ensures
            r@ == self.message@ + " ("@ + functions_code_text(self.code) + ")"@,
    {
        let mut r = owned(self.message.as_str());
        r.append(" (");
        r.append(self.code_str());
        r.append(")");
        r
    }
}

/// The result of a functions operation.
pub type FunctionsResult<T> = Result<T, FunctionsError>;

/// An error with code `InvalidArgument`.
pub fn invalid_argument(message: &str) -> (e: FunctionsError)
    ensures
        e.code == FunctionsErrorCode::InvalidArgument,
        e.message@ == message@,
{
    FunctionsError::new(FunctionsErrorCode::InvalidArgument, message)
}

/// An error with code `Internal`.
pub fn internal_error(message: &str) -> (e: FunctionsError)
    ensures
        e.code == FunctionsErrorCode::Internal,
        e.message@ == message@,
{
    FunctionsError::new(FunctionsErrorCode::Internal, message)
}

} // verus!
