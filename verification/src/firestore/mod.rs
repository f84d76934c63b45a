//! Firestore: document paths and keys, field values, query evaluation, write
//! encoding and the pure parts of the local and remote stores.
pub mod error;
pub mod local;
pub mod api;
pub mod model;
pub mod query_evaluator;
pub mod remote;
pub mod value;
pub mod test_support;
