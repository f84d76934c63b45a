//! Clock, randomness and token errors shared by the services.
pub mod runtime;
pub mod token;
