//! Push subscriptions, which need a browser: outside one there is no cached
//! subscription and subscribing fails.
use vstd::prelude::*;

use crate::messaging::error::{unsupported_browser, MessagingErrorCode, MessagingResult};
use crate::messaging::sw_manager::ServiceWorkerRegistrationHandle;

verus! {

/// An active push subscription.
#[derive(Clone, Copy, Debug)]
pub struct PushSubscriptionHandle;

/// The details of a push subscription, which only a browser provides.
#[derive(Clone, Copy, Debug, PartialEq, Eq, Structural)]
pub struct PushSubscriptionDetails;

/// Keeps the push subscription of the messaging service.
#[derive(Clone, Copy, Debug, Default)]
pub struct PushSubscriptionManager;

impl PushSubscriptionManager {
    pub fn new() -> (m: Self) {
        PushSubscriptionManager
    }

    /// The cached subscription: none outside a browser.
    pub fn cached_subscription(&self) -> (r: Option<PushSubscriptionHandle>)
        ensures
            r is None,
    {
        None
    }

    /// Subscribes to push messages: unsupported outside a browser.
    pub fn subscribe(&mut self, registration: &ServiceWorkerRegistrationHandle, vapid_key: &str) -> (r: MessagingResult<PushSubscriptionHandle>)
        ensures
            r matches Err(e) && e.code == MessagingErrorCode::UnsupportedBrowser,
    {
        Err(unsupported_browser("Push subscriptions are only available when the `wasm-web` feature is enabled."))
    }

    /// Forgets the cached subscription.
    pub fn clear_cache(&mut self) {
    }
}

} // verus!
