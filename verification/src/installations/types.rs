//! Installation auth tokens.
use vstd::prelude::*;

use crate::platform::runtime::now_millis;

verus! {

/// Whether a token expiring at `expires_at_ms` has expired at `now_ms`.
pub open spec fn expired_by(expires_at_ms: u64, now_ms: u64) -> bool {
    now_ms >= expires_at_ms
}

/// An auth token issued by the Installations service, with its expiry in
/// milliseconds since the Unix epoch.
#[derive(Clone, Debug, PartialEq, Eq)]
pub struct InstallationToken {
    pub token: String,
    pub expires_at_ms: u64,
}

impl InstallationToken {
    /// Whether the token has expired at `now_ms`.
    pub fn is_expired_at(&self, now_ms: u64) -> (r: bool)
        ensures
            r == (now_ms >= self.expires_at_ms),
    {
        now_ms >= self.expires_at_ms
    }

    /// Whether the token has expired by the system clock: it has at some
    /// reading of the clock (always, for a token that expires at the epoch).
    pub fn is_expired(&self) -> (r: bool)
        ensures
            exists|now_ms: u64| r == #[trigger] expired_by(self.expires_at_ms, now_ms),
            self.expires_at_ms == 0 ==> r,
    {
        let now = now_millis();
        let r = self.is_expired_at(now);
        assert(r == expired_by(self.expires_at_ms, now));
        r
    }
}

} // verus!
