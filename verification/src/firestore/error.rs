//! Error type of the Firestore module: a code, rendered as
//! `firestore/<code>`, and a human readable message.
use vstd::prelude::*;

use crate::text::owned;

verus! {

/// The failure categories reported by Firestore operations.
#[derive(Clone, Copy, Debug, PartialEq, Eq, Structural)]
pub enum FirestoreErrorCode {
    InvalidArgument,
    MissingProjectId,
    Internal,
    NotFound,
    PermissionDenied,
    Unauthenticated,
    Unavailable,
    DeadlineExceeded,
    ResourceExhausted,
}

/// The code string of each error code.
pub open spec fn firestore_code_text(code: FirestoreErrorCode) -> Seq<char> {
    match code {
        FirestoreErrorCode::InvalidArgument => "firestore/invalid-argument"@,
        FirestoreErrorCode::MissingProjectId => "firestore/missing-project-id"@,
        FirestoreErrorCode::Internal => "firestore/internal"@,
        FirestoreErrorCode::NotFound => "firestore/not-found"@,
        FirestoreErrorCode::PermissionDenied => "firestore/permission-denied"@,
        FirestoreErrorCode::Unauthenticated => "firestore/unauthenticated"@,
        FirestoreErrorCode::Unavailable => "firestore/unavailable"@,
        FirestoreErrorCode::DeadlineExceeded => "firestore/deadline-exceeded"@,
        FirestoreErrorCode::ResourceExhausted => "firestore/resource-exhausted"@,
    }
}

impl FirestoreErrorCode {
    /// The `firestore/...` code string.
    pub fn as_str(&self) -> (r: &'static str)
        ensures
            r@ == firestore_code_text(*self),
    {
        match self {
            FirestoreErrorCode::InvalidArgument => "firestore/invalid-argument",
            FirestoreErrorCode::MissingProjectId => "firestore/missing-project-id",
            FirestoreErrorCode::Internal => "firestore/internal",
            FirestoreErrorCode::NotFound => "firestore/not-found",
            FirestoreErrorCode::PermissionDenied => "firestore/permission-denied",
            FirestoreErrorCode::Unauthenticated => "firestore/unauthenticated",
            FirestoreErrorCode::Unavailable => "firestore/unavailable",
            FirestoreErrorCode::DeadlineExceeded => "firestore/deadline-exceeded",
            FirestoreErrorCode::ResourceExhausted => "firestore/resource-exhausted",
        }
    }
}

/// A Firestore failure.
#[derive(Clone, Debug)]
pub struct FirestoreError {
    pub code: FirestoreErrorCode,
    pub message: String,
}

pub type FirestoreResult<T> = Result<T, FirestoreError>;

impl FirestoreError {
    pub fn new(code: FirestoreErrorCode, message: &str) -> (e: Self)
        ensures
            e.code == code,
            e.message@ == message@,
    {
        FirestoreError { code, message: owned(message) }
    }

    /// The `firestore/...` code string of this error.
    pub fn code_str(&self) -> (r: &'static str)
        ensures
            r@ == firestore_code_text(self.code),
    {
        self.code.as_str()
    }

    /// The message given when the error was built.
    pub fn message(&self) -> (r: &str)
        ensures
            r@ == self.message@,
    {
        self.message.as_str()
    }
}

pub fn invalid_argument(message: &str) -> (e: FirestoreError)
    ensures
        e.code == FirestoreErrorCode::InvalidArgument,
        e.message@ == message@,
{
    FirestoreError::new(FirestoreErrorCode::InvalidArgument, message)
}

pub fn missing_project_id() -> (e: FirestoreError)
    ensures
        e.code == FirestoreErrorCode::MissingProjectId,
{
    FirestoreError::new(
        FirestoreErrorCode::MissingProjectId,
        "Firebase options are missing `project_id` for Firestore",
    )
}

pub fn internal_error(message: &str) -> (e: FirestoreError)
    ensures
        e.code == FirestoreErrorCode::Internal,
        e.message@ == message@,
{
    FirestoreError::new(FirestoreErrorCode::Internal, message)
}

pub fn not_found(message: &str) -> (e: FirestoreError)
    ensures
        e.code == FirestoreErrorCode::NotFound,
        e.message@ == message@,
{
    FirestoreError::new(FirestoreErrorCode::NotFound, message)
}

pub fn permission_denied(message: &str) -> (e: FirestoreError)
    ensures
        e.code == FirestoreErrorCode::PermissionDenied,
        e.message@ == message@,
{
    FirestoreError::new(FirestoreErrorCode::PermissionDenied, message)
}

pub fn unauthenticated(message: &str) -> (e: FirestoreError)
    ensures
        e.code == FirestoreErrorCode::Unauthenticated,
        e.message@ == message@,
{
    FirestoreError::new(FirestoreErrorCode::Unauthenticated, message)
}

pub fn unavailable(message: &str) -> (e: FirestoreError)
    ensures
        e.code == FirestoreErrorCode::Unavailable,
        e.message@ == message@,
{
    FirestoreError::new(FirestoreErrorCode::Unavailable, message)
}

pub fn deadline_exceeded(message: &str) -> (e: FirestoreError)
    ensures
        e.code == FirestoreErrorCode::DeadlineExceeded,
        e.message@ == message@,
{
    FirestoreError::new(FirestoreErrorCode::DeadlineExceeded, message)
}

pub fn resource_exhausted(message: &str) -> (e: FirestoreError)
    ensures
        e.code == FirestoreErrorCode::ResourceExhausted,
        e.message@ == message@,
{
    FirestoreError::new(FirestoreErrorCode::ResourceExhausted, message)
}

} // verus!
