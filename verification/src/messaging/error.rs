//! Error type of the Messaging module.
use vstd::prelude::*;

use crate::text::owned;

verus! {

/// The failure categories of the messaging service.
#[derive(Clone, Copy, Debug, PartialEq, Eq, Structural)]
pub enum MessagingErrorCode {
    TokenDeletionFailed,
    InvalidArgument,
    Internal,
    UnsupportedBrowser,
}

/// The code string of each error code.
pub open spec fn messaging_code_text(code: MessagingErrorCode) -> Seq<char> {
    match code {
        MessagingErrorCode::TokenDeletionFailed => "messaging/token-deletion-failed"@,
        MessagingErrorCode::InvalidArgument => "messaging/invalid-argument"@,
        MessagingErrorCode::Internal => "messaging/internal"@,
        MessagingErrorCode::UnsupportedBrowser => "messaging/unsupported-browser"@,
    }
}

impl MessagingErrorCode {
    /// The `messaging/...` code string.
    pub fn as_str(&self) -> (r: &'static str)
        ensures
            r@ == messaging_code_text(*self),
    {
        match self {
            MessagingErrorCode::TokenDeletionFailed => "messaging/token-deletion-failed",
            MessagingErrorCode::InvalidArgument => "messaging/invalid-argument",
            MessagingErrorCode::Internal => "messaging/internal",
            MessagingErrorCode::UnsupportedBrowser => "messaging/unsupported-browser",
        }
    }
}

/// A messaging failure: a code and a message.
#[derive(Clone, Debug)]
pub struct MessagingError {
    pub code: MessagingErrorCode,
    pub message: String,
}

impl MessagingError {
    pub fn new(code: MessagingErrorCode, message: &str) -> (e: Self)
        ensures
            e.code == code,
            e.message@ == message@,
    {
        MessagingError { code, message: owned(message) }
    }

    /// The `messaging/...` code string of this error.
    pub fn code_str(&self) -> (r: &'static str)
        ensures
            r@ == messaging_code_text(self.code),
    {
        self.code.as_str()
    }

    /// `"{message} ({code})"`: how the error is displayed.
    pub fn to_string(&self) -> (r: String)
        ensures
            r@ == self.message@ + " ("@ + messaging_code_text(self.code) + ")"@,
    {
        let mut r = owned(self.message.as_str());
        r.append(" (");
        r.append(self.code_str());
        r.append(")");
        r
    }
}

/// The result of a messaging operation.
pub type MessagingResult<T> = Result<T, MessagingError>;

/// An error with code `InvalidArgument`.
pub fn invalid_argument(message: &str) -> (e: MessagingError)
    ensures
        e.code == MessagingErrorCode::InvalidArgument,
        e.message@ == message@,
{
    MessagingError::new(MessagingErrorCode::InvalidArgument, message)
}

/// An error with code `Internal`.
pub fn internal_error(message: &str) -> (e: MessagingError)
    ensures
        e.code == MessagingErrorCode::Internal,
        e.message@ == message@,
{
    MessagingError::new(MessagingErrorCode::Internal, message)
}

/// An error with code `TokenDeletionFailed`.
pub fn token_deletion_failed(message: &str) -> (e: MessagingError)
    ensures
        e.code == MessagingErrorCode::TokenDeletionFailed,
        e.message@ == message@,
{
    MessagingError::new(MessagingErrorCode::TokenDeletionFailed, message)
}

/// An error with code `UnsupportedBrowser`.
pub fn unsupported_browser(message: &str) -> (e: MessagingError)
    ensures
        e.code == MessagingErrorCode::UnsupportedBrowser,
        e.message@ == message@,
{
    MessagingError::new(MessagingErrorCode::UnsupportedBrowser, message)
}

} // verus!
