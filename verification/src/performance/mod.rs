//! Performance monitoring: manual traces with their metrics.
pub mod api;
pub mod error;
