//! Error type of the Performance module.
use vstd::prelude::*;

use crate::text::owned;

verus! {

/// The failure categories of performance monitoring.
#[derive(Clone, Copy, Debug, PartialEq, Eq, Structural)]
pub enum PerformanceErrorCode {
    InvalidArgument,
    Internal,
}

/// A performance failure: a code and a message.
#[derive(Clone, Debug)]
pub struct PerformanceError {
    pub code: PerformanceErrorCode,
    pub message: String,
}

pub type PerformanceResult<T> = Result<T, PerformanceError>;

impl PerformanceError {
    pub fn new(code: PerformanceErrorCode, message: &str) -> (e: Self)
        ensures
            e.code == code,
            e.message@ == message@,
    {
        PerformanceError { code, message: owned(message) }
    }
}

pub fn invalid_argument(message: &str) -> (e: PerformanceError)
    ensures
        e.code == PerformanceErrorCode::InvalidArgument,
        e.message@ == message@,
{
    PerformanceError::new(PerformanceErrorCode::InvalidArgument, message)
}

pub fn internal_error(message: &str) -> (e: PerformanceError)
    ensures
        e.code == PerformanceErrorCode::Internal,
        e.message@ == message@,
{
    PerformanceError::new(PerformanceErrorCode::Internal, message)
}

} // verus!
