//! Writes sent to the datastore, and the token provider that supplies no
//! token.
use vstd::prelude::*;

use crate::firestore::api::operations::FieldTransform;
use crate::firestore::error::{FirestoreError, FirestoreErrorCode, FirestoreResult};
use crate::firestore::model::{DocumentKey, FieldPath};
use crate::firestore::value::MapValue;

verus! {

/// One write of a commit.
#[derive(Debug)]
pub enum WriteOperation {
    /// Replaces the document, or only the masked fields when a mask is given.
    SetData { key: DocumentKey, data: MapValue, mask: Option<Vec<FieldPath>>, transforms: Vec<FieldTransform> },
    /// Updates the listed fields of an existing document.
    Update {
        key: DocumentKey,
        data: MapValue,
        field_paths: Vec<FieldPath>,
        transforms: Vec<FieldTransform>,
    },
    /// Deletes the document.
    Delete { key: DocumentKey },
}

/// The document a write targets.
pub open spec fn write_key(w: WriteOperation) -> DocumentKey {
    match w {
        WriteOperation::SetData { key, .. } => key,
        WriteOperation::Update { key, .. } => key,
        WriteOperation::Delete { key } => key,
    }
}

impl WriteOperation {
    /// The document targeted by this write.
    pub fn key(&self) -> (r: &DocumentKey)
        ensures
            *r == write_key(*self),
    {
        match self {
            WriteOperation::SetData { key, .. } => key,
            WriteOperation::Update { key, .. } => key,
            WriteOperation::Delete { key } => key,
        }
    }
}

/// Whether an error code is worth another attempt: internal, unavailable,
/// deadline-exceeded, resource-exhausted and unauthenticated errors are.
pub open spec fn retryable(code: FirestoreErrorCode) -> bool {
    code == FirestoreErrorCode::Internal || code == FirestoreErrorCode::Unavailable || code
        == FirestoreErrorCode::DeadlineExceeded || code == FirestoreErrorCode::ResourceExhausted
        || code == FirestoreErrorCode::Unauthenticated
}

/// Whether a request that failed on attempt `attempt` (counted from zero)
/// is tried again when at most `max_attempts` attempts are allowed.
pub fn should_retry(max_attempts: usize, attempt: usize, error: &FirestoreError) -> (r: bool)
    ensures
        r == (attempt + 1 < max_attempts && retryable(error.code)),
{
    if max_attempts == 0 || attempt >= max_attempts - 1 {
        return false;
    }
    match error.code {
        FirestoreErrorCode::Internal | FirestoreErrorCode::Unavailable | FirestoreErrorCode::DeadlineExceeded
        | FirestoreErrorCode::ResourceExhausted | FirestoreErrorCode::Unauthenticated => true,
        _ => false,
    }
}

/// A source of tokens for requests: auth tokens, app-check tokens and the
/// heartbeat header.
pub trait TokenProvider {
    /// The current token, if any.
    fn get_token(&self) -> FirestoreResult<Option<String>>;

    /// Forgets the cached token, so that the next request fetches a new one.
    fn invalidate_token(&self);

    /// The heartbeat header to send, if any; none by default.
    fn heartbeat_header(&self) -> (r: FirestoreResult<Option<String>>)
        default_ensures
            r matches Ok(None),
    {
        Ok(None)
    }
}

/// A token provider that never has a token.
#[derive(Clone, Copy, Debug, Default)]
pub struct NoopTokenProvider;

impl TokenProvider for NoopTokenProvider {
    /// No token, ever.
    fn get_token(&self) -> (r: FirestoreResult<Option<String>>)
        ensures
            r matches Ok(None),
    {
        Ok(None)
    }

    /// Nothing to invalidate.
    fn invalidate_token(&self) {
    }
}

} // verus!
