//! The user-facing Firestore surface: write encoding, queries and snapshots.
pub mod operations;
pub mod document;
pub mod aggregate;
pub mod snapshot;
pub mod database;
pub mod query;
pub mod converter;
