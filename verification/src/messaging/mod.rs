//! Cloud Messaging: errors, the token store, token issuing, and the browser
//! facilities (service worker, push subscription) it relies on.
pub mod api;
pub mod error;
pub mod subscription;
pub mod sw_manager;
pub mod token_store;
