//! The installation id and auth token of an app.
use vstd::prelude::*;

use crate::app::FirebaseApp;
use crate::installations::error::InstallationsResult;
use crate::installations::types::InstallationToken;
use crate::platform::runtime::{is_alphanumeric_char, now_millis, random_alphanumeric};
use crate::text::owned;

verus! {

/// How long a generated auth token lives: one hour, in milliseconds.
pub const TOKEN_LIFETIME_MS: u64 = 3_600_000;

/// The id and token kept for the app.
pub struct InstallationEntry {
    pub fid: String,
    pub token: InstallationToken,
}

/// The content of an installation entry: id, token text and expiry.
pub struct EntryModel {
    pub fid: Seq<char>,
    pub token: Seq<char>,
    pub expires_at_ms: u64,
}

/// The content of an entry.
pub open spec fn entry_model(e: InstallationEntry) -> EntryModel {
    EntryModel { fid: e.fid@, token: e.token.token@, expires_at_ms: e.token.expires_at_ms }
}

/// The Installations service of one app.
pub struct Installations {
    app: FirebaseApp,
    entry: Option<InstallationEntry>,
}

/// The entry an app has after asking for its token at `now_ms`: the kept
/// entry, or `fresh` when there is none; its token replaced by
/// `fresh_token` when a refresh is forced or the token has expired.
pub open spec fn entry_after_token_request(kept: Option<EntryModel>, fresh: EntryModel, force_refresh: bool, now_ms: u64, fresh_token: (Seq<char>, u64)) -> EntryModel {
    let e = match kept {
        Some(k) => k,
        None => fresh,
    };
    if force_refresh || now_ms >= e.expires_at_ms {
        EntryModel { fid: e.fid, token: fresh_token.0, expires_at_ms: fresh_token.1 }
    } else {
        e
    }
}

/// What a token request keeps and replaces: a forced request, or one made
/// when the kept token has expired, gets the fresh token; otherwise the kept
/// entry stays as it is; the installation id never changes once kept. So a
/// request whose fresh token outlives the request never hands out a token
/// that has already expired.
pub proof fn lemma_token_request(
    kept: Option<EntryModel>,
    fresh: EntryModel,
    force_refresh: bool,
    now_ms: u64,
    fresh_token: (Seq<char>, u64),
)
    ensures
        ({
            let e = entry_after_token_request(kept, fresh, force_refresh, now_ms, fresh_token);
            let before = match kept {
                Some(k) => k,
                None => fresh,
            };
            &&& e.fid == before.fid
            &&& (force_refresh || now_ms >= before.expires_at_ms) ==> e.token == fresh_token.0
                && e.expires_at_ms == fresh_token.1
            &&& (!force_refresh && now_ms < before.expires_at_ms) ==> e == before
            &&& fresh_token.1 > now_ms ==> e.expires_at_ms > now_ms
        }),
{
}

/// Every character is an ASCII letter or digit.
pub open spec fn alphanumeric_text(s: Seq<char>) -> bool {
    forall|i: int| 0 <= i < s.len() ==> is_alphanumeric_char(#[trigger] s[i])
}

/// The shape of a generated installation id: 22 ASCII letters and digits.
pub open spec fn is_generated_id(s: Seq<char>) -> bool {
    s.len() == 22 && alphanumeric_text(s)
}

/// The shape of a generated auth token: 40 ASCII letters and digits.
pub open spec fn is_generated_token(s: Seq<char>) -> bool {
    s.len() == 40 && alphanumeric_text(s)
}

/// When a token made at `now_ms` expires: an hour later (the largest time
/// when that passes the range of `u64`).
pub open spec fn token_expiry(now_ms: u64) -> u64 {
    if now_ms + TOKEN_LIFETIME_MS <= u64::MAX {
        (now_ms + TOKEN_LIFETIME_MS) as u64
    } else {
        u64::MAX
    }
}

/// A token made at `now_ms` expires one hour (3,600,000 ms) later, or at the
/// end of the `u64` range when that passes it; so it is still valid when
/// made, unless the clock reads the very end of the range.
pub proof fn lemma_token_expiry(now_ms: u64)
    ensures
        now_ms as int + 3_600_000 <= u64::MAX ==> token_expiry(now_ms) == now_ms as int + 3_600_000,
        now_ms as int + 3_600_000 > u64::MAX ==> token_expiry(now_ms) == u64::MAX,
        now_ms < u64::MAX ==> token_expiry(now_ms) > now_ms,
{
}

/// Whether `e` is an entry as the service creates it at `now_ms`: a
/// generated id and a generated token expiring an hour later.
pub open spec fn is_generated_entry(e: EntryModel, now_ms: u64) -> bool {
    is_generated_id(e.fid) && is_generated_token(e.token) && e.expires_at_ms == token_expiry(now_ms)
}

/// A new random token made at `now_ms`, valid for an hour.
fn generate_token(now_ms: u64) -> (t: InstallationToken)
    ensures
        is_generated_token(t.token@),
        t.expires_at_ms == token_expiry(now_ms),
{
    let token = random_alphanumeric(40);
    let expires_at_ms = if now_ms <= u64::MAX - TOKEN_LIFETIME_MS {
        now_ms + TOKEN_LIFETIME_MS
    } else {
        u64::MAX
    };
    InstallationToken { token, expires_at_ms }
}

/// A new entry made at `now_ms`: a random id and a new token.
fn generate_entry(now_ms: u64) -> (e: InstallationEntry)
    ensures
        is_generated_entry(entry_model(e), now_ms),
{
    InstallationEntry { fid: random_alphanumeric(22), token: generate_token(now_ms) }
}

fn copy_token(t: &InstallationToken) -> (r: InstallationToken)
    ensures
        r.token@ == t.token@,
        r.expires_at_ms == t.expires_at_ms,
{
    InstallationToken { token: owned(t.token.as_str()), expires_at_ms: t.expires_at_ms }
}

impl Installations {
    pub fn new(app: FirebaseApp) -> (i: Self)
        ensures
            i.spec_app() == app,
            i.spec_entry() is None,
    {
        Installations { app, entry: None }
    }

    /// The app served.
    pub closed spec fn spec_app(&self) -> FirebaseApp {
        self.app
    }

    /// The entry kept for the app.
    pub closed spec fn spec_entry(&self) -> Option<EntryModel> {
        match self.entry {
            Some(e) => Some(entry_model(e)),
            None => None,
        }
    }

    pub fn app(&self) -> (r: &FirebaseApp)
        ensures
            *r == self.spec_app(),
    {
        &self.app
    }

    /// The installation id, given `fresh` as the entry to create when there
    /// is none.
    pub fn get_id_with(&mut self, fresh: InstallationEntry) -> (r: String)
        ensures
            final(self).spec_app() == old(self).spec_app(),
            match old(self).spec_entry() {
                Some(e) => r@ == e.fid && final(self).spec_entry() == old(self).spec_entry(),
                None => r@ == fresh.fid@ && final(self).spec_entry() == Some(entry_model(fresh)),
            },
    {
        if self.entry.is_none() {
            self.entry = Some(fresh);
        }
        match &self.entry {
            Some(e) => owned(e.fid.as_str()),
            None => String::new(),
        }
    }

    /// The installation id: the kept one, or a new random id of 22 letters
    /// and digits (kept together with a new token).
    pub fn get_id(&mut self) -> (r: InstallationsResult<String>)
        ensures
            final(self).spec_app() == old(self).spec_app(),
            r is Ok,
            final(self).spec_entry() matches Some(e) && r matches Ok(id) && id@ == e.fid,
            old(self).spec_entry() is Some ==> final(self).spec_entry() == old(self).spec_entry(),
            old(self).spec_entry() is None ==> exists|now_ms: u64|
                #![trigger token_expiry(now_ms)]
                is_generated_entry(final(self).spec_entry().unwrap(), now_ms),
    {
        if self.entry.is_some() {
            return Ok(self.get_id_with(InstallationEntry { fid: String::new(), token: InstallationToken { token: String::new(), expires_at_ms: 0 } }));
        }
        let now = now_millis();
        let fresh = generate_entry(now);
        Ok(self.get_id_with(fresh))
    }

    /// The auth token at time `now_ms`, with `fresh` as the entry to create
    /// when there is none and `fresh_token` as the replacement token.
    pub fn get_token_at(&mut self, force_refresh: bool, now_ms: u64, fresh: InstallationEntry, fresh_token: InstallationToken) -> (r: InstallationToken)
        ensures
            final(self).spec_app() == old(self).spec_app(),
            final(self).spec_entry() == Some(
                entry_after_token_request(
                    old(self).spec_entry(),
                    entry_model(fresh),
                    force_refresh,
                    now_ms,
                    (fresh_token.token@, fresh_token.expires_at_ms),
                ),
            ),
            final(self).spec_entry() matches Some(e) && r.token@ == e.token && r.expires_at_ms
                == e.expires_at_ms,
    {
        if self.entry.is_none() {
            self.entry = Some(fresh);
        }
        let mut e = match self.entry.take() {
            Some(e) => e,
            None => InstallationEntry { fid: String::new(), token: InstallationToken { token: String::new(), expires_at_ms: 0 } },
        };
        if force_refresh || now_ms >= e.token.expires_at_ms {
            e.token = fresh_token;
        }
        let r = copy_token(&e.token);
        self.entry = Some(e);
        r
    }

    /// The auth token: a new one (valid for an hour) when forced or when the
    /// kept one has expired by the system clock, else the kept one. The id is
    /// kept; when there is none, a new entry is made first. Whatever the clock
    /// reads (`now_ms` below), the outcome is that of
    /// [`Installations::get_token_at`] at that reading with generated ids and
    /// tokens.
    pub fn get_token(&mut self, force_refresh: bool) -> (r: InstallationsResult<InstallationToken>)
        ensures
            final(self).spec_app() == old(self).spec_app(),
            final(self).spec_entry() matches Some(e) && r matches Ok(t) && t.token@ == e.token
                && t.expires_at_ms == e.expires_at_ms,
            exists|now_ms: u64, fresh: EntryModel, fresh_token: Seq<char>|
                #![trigger entry_after_token_request(old(self).spec_entry(), fresh, force_refresh, now_ms, (fresh_token, token_expiry(now_ms)))]
                is_generated_entry(fresh, now_ms) && is_generated_token(fresh_token) && final(self).spec_entry()
                    == Some(
                    entry_after_token_request(
                        old(self).spec_entry(),
                        fresh,
                        force_refresh,
                        now_ms,
                        (fresh_token, token_expiry(now_ms)),
                    ),
                ),
    {
        let now = now_millis();
        let fresh = generate_entry(now);
        let fresh_token = generate_token(now);
        let ghost fm = entry_model(fresh);
        let ghost ft = fresh_token.token@;
        let r = self.get_token_at(force_refresh, now, fresh, fresh_token);
        assert(is_generated_entry(fm, now) && is_generated_token(ft));
        Ok(r)
    }
}

} // verus!
