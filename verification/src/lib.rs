//! Verified core of a Firebase client SDK: Firestore paths, keys, values,
//! query evaluation and write encoding, together with the error, token and
//! transport types of the Functions, Installations, Messaging and Performance
//! services.
pub mod app;
pub mod json;
pub mod text;
pub mod firestore;
pub mod functions;
pub mod installations;
pub mod messaging;
pub mod performance;
pub mod platform;
