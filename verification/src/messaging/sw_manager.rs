//! Service worker registration, which needs a browser: outside one there is
//! no registration and registering fails.
use vstd::prelude::*;

use crate::messaging::error::{unsupported_browser, MessagingErrorCode, MessagingResult};

verus! {

/// A registered service worker.
#[derive(Clone, Copy, Debug)]
pub struct ServiceWorkerRegistrationHandle;

/// Keeps the service worker registration used for push messages.
#[derive(Clone, Copy, Debug, Default)]
pub struct ServiceWorkerManager;

impl ServiceWorkerManager {
    pub fn new() -> (m: Self) {
        ServiceWorkerManager
    }

    /// The current registration: none outside a browser.
    pub fn registration(&self) -> (r: Option<ServiceWorkerRegistrationHandle>)
        ensures
            r is None,
    {
        None
    }

    /// Registers the default service worker: unsupported outside a browser.
    pub fn register_default(&mut self) -> (r: MessagingResult<ServiceWorkerRegistrationHandle>)
        ensures
            r matches Err(e) && e.code == MessagingErrorCode::UnsupportedBrowser,
    {
        Err(unsupported_browser("Service worker registration is only available when the `wasm-web` feature is enabled."))
    }
}

} // verus!
