//! Firebase Installations: errors, tokens, persistence and ids.
pub mod api;
pub mod error;
pub mod persistence;
pub mod rest;
pub mod types;
