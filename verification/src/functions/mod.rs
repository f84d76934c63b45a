//! Cloud Functions: errors, call contexts and callable endpoints.
pub mod api;
pub mod context;
pub mod error;
