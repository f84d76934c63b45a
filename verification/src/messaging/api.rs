//! Issuing and deleting messaging tokens.
use vstd::prelude::*;

use crate::app::FirebaseApp;
use crate::messaging::error::{
    invalid_argument, token_deletion_failed, MessagingErrorCode, MessagingResult,
};
use crate::messaging::token_store::{age, TokenModel, TokenRecord, TokenStore};
use crate::platform::runtime::{now_millis, random_alphanumeric};
use crate::text::{is_blank, is_blank_str, owned};

verus! {

/// How long a token stays valid: seven days, in milliseconds.
pub const TOKEN_EXPIRATION_MS: u64 = 604_800_000;

/// How many characters an issued token has.
pub const TOKEN_LENGTH: usize = 32;

/// Notification permission states.
#[derive(Clone, Copy, Debug, PartialEq, Eq, Structural)]
pub enum PermissionState {
    /// The user has not decided.
    Default,
    /// The user granted notifications.
    Granted,
    /// The user denied notifications.
    Denied,
}

/// The messaging service of one app.
pub struct Messaging {
    pub app: FirebaseApp,
}

/// What asking for a token gives and leaves in the store: a blank VAPID key
/// is refused; a stored token younger than the expiration is given back; any
/// other case stores and gives `fresh`, created at `now_ms`.
pub open spec fn token_outcome(
    store: Map<Seq<char>, TokenModel>,
    key: Seq<char>,
    vapid_key: Option<Seq<char>>,
    now_ms: u64,
    fresh: Seq<char>,
) -> (Option<Seq<char>>, Map<Seq<char>, TokenModel>) {
    if vapid_key matches Some(k) && is_blank(k) {
        (None, store)
    } else if store.dom().contains(key) && age(now_ms, store[key].create_time_ms) < TOKEN_EXPIRATION_MS {
        (Some(store[key].token), store)
    } else {
        (
            Some(fresh),
            store.insert(key, TokenModel { token: fresh, create_time_ms: now_ms, subscription: None }),
        )
    }
}

/// The view of an optional text.
pub open spec fn opt_view(v: Option<&str>) -> Option<Seq<char>> {
    match v {
        Some(s) => Some(s@),
        None => None,
    }
}

impl Messaging {
    pub fn new(app: FirebaseApp) -> (m: Self)
        ensures
            m.app == app,
    {
        Messaging { app }
    }

    pub fn app(&self) -> (r: &FirebaseApp)
        ensures
            *r == self.app,
    {
        &self.app
    }

    /// Notification permission outside a browser: always granted.
    pub fn request_permission(&self) -> (r: MessagingResult<PermissionState>)
        ensures
            r matches Ok(p) && p == PermissionState::Granted,
    {
        Ok(PermissionState::Granted)
    }

    /// The token of this app at time `now_ms`, with `fresh` as the token to
    /// issue when none is valid.
    pub fn get_token_at(&self, store: &mut TokenStore, vapid_key: Option<&str>, now_ms: u64, fresh: String) -> (r: MessagingResult<String>)
        ensures
            ({
                let (t, s) = token_outcome(old(store)@, self.app.name@, opt_view(vapid_key), now_ms, fresh@);
                &&& final(store)@ == s
                &&& match r {
                    Ok(x) => t == Some(x@),
                    Err(e) => t is None && e.code == MessagingErrorCode::InvalidArgument,
                }
            }),
    {
        if let Some(key) = vapid_key {
            if is_blank_str(key) {
                return Err(invalid_argument("VAPID key must not be empty"));
            }
        }
        let store_key = self.app.name();
        if let Some(record) = store.read(store_key) {
            if !record.is_expired(now_ms, TOKEN_EXPIRATION_MS) {
                return Ok(record.token);
            }
        }
        let record = TokenRecord { token: owned(fresh.as_str()), create_time_ms: now_ms, subscription: None };
        store.write(store_key, &record);
        Ok(fresh)
    }

    /// The token of this app: the stored one while it is valid, else a new
    /// random token of `TOKEN_LENGTH` letters and digits, which is stored. A
    /// blank VAPID key is refused.
    pub fn get_token(&self, store: &mut TokenStore, vapid_key: Option<&str>) -> (r: MessagingResult<String>)
        ensures
            match r {
                Ok(x) => final(store)@.dom().contains(self.app.name@) && final(store)@[self.app.name@].token
                    == x@,
                Err(e) => (vapid_key matches Some(k) && is_blank(k@)) && final(store)@ == old(store)@
                    && e.code == MessagingErrorCode::InvalidArgument,
            },
    {
        let now = now_millis();
        let fresh = random_alphanumeric(TOKEN_LENGTH);
        self.get_token_at(store, vapid_key, now, fresh)
    }

    /// Deletes this app's token; fails when there is none.
    pub fn delete_token(&self, store: &mut TokenStore) -> (r: MessagingResult<bool>)
        ensures
            final(store)@ == old(store)@.remove(self.app.name@),
            match r {
                Ok(b) => b && old(store)@.dom().contains(self.app.name@),
                Err(e) => !old(store)@.dom().contains(self.app.name@) && e.code
                    == MessagingErrorCode::TokenDeletionFailed,
            },
    {
        if store.remove(self.app.name()) {
            Ok(true)
        } else {
            Err(token_deletion_failed("No token stored for this app"))
        }
    }
}

/// A token stays the same until it expires: asking again while the stored
/// token is younger than the expiration gives it back and leaves the store
/// as it was.
pub proof fn lemma_token_stable(
    store: Map<Seq<char>, TokenModel>,
    key: Seq<char>,
    vapid_key: Option<Seq<char>>,
    now1: u64,
    fresh1: Seq<char>,
    now2: u64,
    fresh2: Seq<char>,
)
    requires
        token_outcome(store, key, vapid_key, now1, fresh1).0 is Some,
        age(now2, token_outcome(store, key, vapid_key, now1, fresh1).1[key].create_time_ms)
            < TOKEN_EXPIRATION_MS,
    ensures
        ({
            let (t1, s1) = token_outcome(store, key, vapid_key, now1, fresh1);
            let (t2, s2) = token_outcome(s1, key, vapid_key, now2, fresh2);
            t2 == t1 && s2 == s1
        }),
{
}

/// After deleting the token, asking for one issues the fresh token.
pub proof fn lemma_token_after_delete(
    store: Map<Seq<char>, TokenModel>,
    key: Seq<char>,
    now: u64,
    fresh: Seq<char>,
)
    ensures
        token_outcome(store.remove(key), key, None, now, fresh).0 == Some(fresh),
{
}

} // verus!
