//! Tokens attached to callable requests.
use vstd::prelude::*;

use crate::messaging::token_store::{age, TokenRecord};
use crate::text::owned;

verus! {

/// Tokens that may accompany a callable request.
#[derive(Debug, Default)]
pub struct CallContext {
    pub auth_token: Option<String>,
    pub messaging_token: Option<String>,
    pub app_check_token: Option<String>,
}

/// The text of an optional string.
pub open spec fn opt_text(s: Option<String>) -> Option<Seq<char>> {
    match s {
        Some(t) => Some(t@),
        None => None,
    }
}

fn copy_opt(s: &Option<String>) -> (r: Option<String>)
    ensures
        opt_text(r) == opt_text(*s),
{
    match s {
        Some(t) => Some(owned(t.as_str())),
        None => None,
    }
}

impl Clone for CallContext {
    fn clone(&self) -> (r: Self)
        ensures
            opt_text(r.auth_token) == opt_text(self.auth_token),
            opt_text(r.messaging_token) == opt_text(self.messaging_token),
            opt_text(r.app_check_token) == opt_text(self.app_check_token),
    {
        CallContext {
            auth_token: copy_opt(&self.auth_token),
            messaging_token: copy_opt(&self.messaging_token),
            app_check_token: copy_opt(&self.app_check_token),
        }
    }
}

/// Supplies the context of callable requests: the overrides when they are
/// set, else no tokens.
#[derive(Debug)]
pub struct ContextProvider {
    pub overrides: Option<CallContext>,
}

impl ContextProvider {
    pub fn new() -> (p: Self)
        ensures
            p.overrides is None,
    {
        ContextProvider { overrides: None }
    }

    /// Uses `overrides` as the context of every request.
    pub fn set_overrides(&mut self, overrides: CallContext)
        ensures
            final(self).overrides == Some(overrides),
    {
        self.overrides = Some(overrides);
    }

    /// The context of a request.
    pub fn get_context(&self) -> (r: CallContext)
        ensures
            match self.overrides {
                Some(o) => opt_text(r.auth_token) == opt_text(o.auth_token) && opt_text(
                    r.messaging_token,
                ) == opt_text(o.messaging_token) && opt_text(r.app_check_token) == opt_text(
                    o.app_check_token,
                ),
                None => r.auth_token is None && r.messaging_token is None && r.app_check_token is None,
            },
    {
        match &self.overrides {
            Some(o) => o.clone(),
            None => CallContext { auth_token: None, messaging_token: None, app_check_token: None },
        }
    }
}

/// The headers of a callable request: the JSON content type, then a bearer
/// `Authorization`, the instance id token and the App Check token, each only
/// when the context holds a non-empty one.
pub open spec fn callable_headers(c: CallContext) -> Seq<(Seq<char>, Seq<char>)> {
    let base = seq![("Content-Type"@, "application/json"@)];
    let a = match opt_text(c.auth_token) {
        Some(t) => if t.len() > 0 {
            base.push(("Authorization"@, "Bearer "@ + t))
        } else {
            base
        },
        None => base,
    };
    let m = match opt_text(c.messaging_token) {
        Some(t) => if t.len() > 0 {
            a.push(("Firebase-Instance-ID-Token"@, t))
        } else {
            a
        },
        None => a,
    };
    match opt_text(c.app_check_token) {
        Some(t) => if t.len() > 0 {
            m.push(("X-Firebase-AppCheck"@, t))
        } else {
            m
        },
        None => m,
    }
}

/// The views of a list of headers.
pub open spec fn header_views(hs: Seq<(String, String)>) -> Seq<(Seq<char>, Seq<char>)> {
    hs.map_values(|h: (String, String)| (h.0@, h.1@))
}

/// The headers of a callable request made with `context`.
pub fn request_headers(context: &CallContext) -> (r: Vec<(String, String)>)
    ensures
        header_views(r@) == callable_headers(*context),
{
    let mut headers: Vec<(String, String)> = Vec::new();
    headers.push((owned("Content-Type"), owned("application/json")));
    proof {
        assert(header_views(headers@) =~= seq![("Content-Type"@, "application/json"@)]);
    }
    if let Some(token) = &context.auth_token {
        if token.unicode_len() > 0 {
            let mut value = owned("Bearer ");
            value.append(token.as_str());
            let ghost before = headers@;
            headers.push((owned("Authorization"), value));
            assert(header_views(headers@) =~= header_views(before).push(("Authorization"@, "Bearer "@ + token@)));
        }
    }
    if let Some(token) = &context.messaging_token {
        if token.unicode_len() > 0 {
            let ghost before = headers@;
            headers.push((owned("Firebase-Instance-ID-Token"), owned(token.as_str())));
            assert(header_views(headers@) =~= header_views(before).push(("Firebase-Instance-ID-Token"@, token@)));
        }
    }
    if let Some(token) = &context.app_check_token {
        if token.unicode_len() > 0 {
            let ghost before = headers@;
            headers.push((owned("X-Firebase-AppCheck"), owned(token.as_str())));
            assert(header_views(headers@) =~= header_views(before).push(("X-Firebase-AppCheck"@, token@)));
        }
    }
    headers
}

/// How long a stored messaging token counts as fresh for a callable request:
/// seven days, in milliseconds.
pub const MESSAGING_TOKEN_TTL_MS: u64 = 604_800_000;

/// A fetched token, or none when it is empty.
pub open spec fn non_empty(t: Option<Seq<char>>) -> Option<Seq<char>> {
    match t {
        Some(s) => if s.len() > 0 {
            Some(s)
        } else {
            None
        },
        None => None,
    }
}

fn keep_non_empty(t: Option<String>) -> (r: Option<String>)
    ensures
        opt_text(r) == non_empty(opt_text(t)),
{
    match t {
        Some(s) => if s.as_str().unicode_len() > 0 {
            Some(s)
        } else {
            None
        },
        None => None,
    }
}

/// The messaging token a callable request carries: the stored one, while it
/// is younger than a week at `now_ms`.
pub fn messaging_token_for_context(record: Option<&TokenRecord>, now_ms: u64) -> (r: Option<String>)
    ensures
        opt_text(r) == match record {
            Some(rec) => if age(now_ms, rec.create_time_ms) < MESSAGING_TOKEN_TTL_MS {
                Some(rec.token@)
            } else {
                None
            },
            None => None,
        },
{
    match record {
        Some(rec) => if !rec.is_expired(now_ms, MESSAGING_TOKEN_TTL_MS) {
            Some(owned(rec.token.as_str()))
        } else {
            None
        },
        None => None,
    }
}

impl ContextProvider {
    /// The context of a request given the tokens fetched from the auth,
    /// messaging and App Check services: the overrides when they are set,
    /// else the fetched auth and App Check tokens unless empty, and the
    /// fetched messaging token.
    pub fn get_context_with(
        &self,
        auth_token: Option<String>,
        messaging_token: Option<String>,
        app_check_token: Option<String>,
    ) -> (r: CallContext)
        ensures
            match self.overrides {
                Some(o) => opt_text(r.auth_token) == opt_text(o.auth_token) && opt_text(r.messaging_token)
                    == opt_text(o.messaging_token) && opt_text(r.app_check_token) == opt_text(o.app_check_token),
                None => opt_text(r.auth_token) == non_empty(opt_text(auth_token)) && opt_text(r.messaging_token)
                    == opt_text(messaging_token) && opt_text(r.app_check_token) == non_empty(
                    opt_text(app_check_token),
                ),
            },
    {
        match &self.overrides {
            Some(o) => o.clone(),
            None => CallContext {
                auth_token: keep_non_empty(auth_token),
                messaging_token,
                app_check_token: keep_non_empty(app_check_token),
            },
        }
    }
}

} // verus!
