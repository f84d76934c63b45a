//! Functions instances, their endpoints and callable references.
use vstd::prelude::*;

use crate::app::FirebaseApp;
use crate::functions::context::{CallContext, ContextProvider};
use crate::functions::error::{internal_error, invalid_argument, FunctionsErrorCode, FunctionsResult};
use crate::json::{find_member, int_text, int_to_text, json_find, object1, JsonModel, JsonValue};
use crate::text::{is_whitespace_char, owned, str_equal, strip_end, strip_start, trim_with};

verus! {

/// The region used when none is given.
pub open spec fn default_region() -> Seq<char> {
    "us-central1"@
}

/// The origin and path that the `url` crate reads from a text, when it reads
/// it as an absolute URL.
pub uninterp spec fn url_origin_and_path(text: Seq<char>) -> Option<(Seq<char>, Seq<char>)>;

/// Calls `url::Url::parse`, then `origin().ascii_serialization()` and `path()`
/// on the result. Claims only that these are the named parts.
#[verifier::external_body]
fn parse_url_parts(text: &str) -> (r: Option<(String, String)>)
    ensures
        match r {
            Some(p) => url_origin_and_path(text@) == Some((p.0@, p.1@)),
            None => url_origin_and_path(text@) is None,
        },
{
    match url::Url::parse(text) {
        Ok(url) => Some((url.origin().ascii_serialization(), url.path().to_string())),
        Err(_) => None,
    }
}

/// Where callable functions are reached: a region of the default host, or a
/// custom domain.
#[derive(Debug)]
pub struct Endpoint {
    pub region: String,
    pub custom_domain: Option<String>,
}

/// The region and custom domain chosen by an identifier: none or a blank one
/// gives the default region; a URL gives a custom domain made of its origin
/// and its path without trailing slashes; anything else is a region.
pub open spec fn endpoint_for(identifier: Option<Seq<char>>) -> (Seq<char>, Option<Seq<char>>) {
    match identifier {
        None => (default_region(), None),
        Some(raw) => {
            let t = strip_end(strip_start(raw, None), None);
            if t.len() == 0 {
                (default_region(), None)
            } else {
                match url_origin_and_path(t) {
                    Some((origin, path)) => (
                        default_region(),
                        Some(
                            if path == "/"@ {
                                origin
                            } else {
                                origin + strip_end(path, Some('/'))
                            },
                        ),
                    ),
                    None => (t, None),
                }
            }
        },
    }
}

/// The URL of the callable function `name` in `project`.
pub open spec fn callable_url_text(region: Seq<char>, custom_domain: Option<Seq<char>>, project: Seq<char>, name: Seq<char>) -> Seq<char> {
    match custom_domain {
        Some(d) => strip_end(d, Some('/')) + "/"@ + name,
        None => "https://"@ + region + "-"@ + project + ".cloudfunctions.net/"@ + name,
    }
}

/// Which endpoint an identifier picks: none, or only blanks, picks the
/// region `us-central1` with no custom domain; a region name without
/// surrounding blanks that is no URL is used as the region itself; a URL
/// keeps the region `us-central1` and becomes the custom domain.
pub proof fn lemma_endpoint_choice(raw: Seq<char>)
    ensures
        endpoint_for(None) == ("us-central1"@, None::<Seq<char>>),
        raw.len() > 0 && !is_whitespace_char(raw[0]) && !is_whitespace_char(raw.last()) && url_origin_and_path(
            raw,
        ) is None ==> endpoint_for(Some(raw)) == (raw, None::<Seq<char>>),
        (forall|i: int| 0 <= i < raw.len() ==> is_whitespace_char(#[trigger] raw[i])) ==> endpoint_for(Some(raw))
            == ("us-central1"@, None::<Seq<char>>),
        endpoint_for(Some(raw)).1 is Some ==> endpoint_for(Some(raw)).0 == "us-central1"@,
{
    if raw.len() > 0 && !is_whitespace_char(raw[0]) && !is_whitespace_char(raw.last()) {
        assert(strip_start(raw, None) == raw);
        assert(strip_end(raw, None) == raw);
    }
    if forall|i: int| 0 <= i < raw.len() ==> is_whitespace_char(#[trigger] raw[i]) {
        lemma_blank_strips_to_nothing(raw);
    }
}

/// A text of blanks only strips to nothing.
proof fn lemma_blank_strips_to_nothing(raw: Seq<char>)
    requires
        forall|i: int| 0 <= i < raw.len() ==> is_whitespace_char(#[trigger] raw[i]),
    ensures
        strip_start(raw, None).len() == 0,
        strip_end(strip_start(raw, None), None).len() == 0,
    decreases raw.len(),
{
    if raw.len() > 0 {
        assert(is_whitespace_char(raw[0]));
        let rest = raw.drop_first();
        assert forall|i: int| 0 <= i < rest.len() implies is_whitespace_char(#[trigger] rest[i]) by {
            assert(rest[i] == raw[i + 1]);
        }
        lemma_blank_strips_to_nothing(rest);
    }
}

/// Without a custom domain the callable URL is read left to right as
/// `https://`, the region, `-`, the project, `.cloudfunctions.net/` and the
/// name: the region comes first, right after the scheme, and the name last.
/// With a custom domain the URL is that domain, then `/` and the name.
pub proof fn lemma_callable_url_layout(region: Seq<char>, project: Seq<char>, name: Seq<char>, domain: Seq<char>)
    ensures
        ({
            let u = callable_url_text(region, None, project, name);
            let r0: int = 8;
            let p0: int = r0 + region.len() + 1;
            let s0: int = p0 + project.len();
            &&& u.len() == s0 + 20 + name.len()
            &&& u.subrange(0, 8) == "https://"@
            &&& u.subrange(r0, r0 + region.len()) == region
            &&& u[r0 + region.len()] == '-'
            &&& u.subrange(p0, s0) == project
            &&& u.subrange(s0, s0 + 20) == ".cloudfunctions.net/"@
            &&& u.subrange(s0 + 20, u.len() as int) == name
        }),
        ({
            let u = callable_url_text(region, Some(domain), project, name);
            let d = strip_end(domain, Some('/'));
            &&& u.len() == d.len() + 1 + name.len()
            &&& u.subrange(0, d.len() as int) == d
            &&& u[d.len() as int] == '/'
            &&& u.subrange(d.len() as int + 1, u.len() as int) == name
        }),
{
    reveal_strlit("https://");
    reveal_strlit("-");
    reveal_strlit(".cloudfunctions.net/");
    reveal_strlit("/");
    let u = callable_url_text(region, None, project, name);
    let r0: int = 8;
    let p0: int = r0 + region.len() + 1;
    let s0: int = p0 + project.len();
    assert(u.subrange(0, 8) =~= "https://"@);
    assert(u.subrange(r0, r0 + region.len()) =~= region);
    assert(u.subrange(p0, s0) =~= project);
    assert(u.subrange(s0, s0 + 20) =~= ".cloudfunctions.net/"@);
    assert(u.subrange(s0 + 20, u.len() as int) =~= name);
    let v = callable_url_text(region, Some(domain), project, name);
    let d = strip_end(domain, Some('/'));
    assert(v.subrange(0, d.len() as int) =~= d);
    assert(v.subrange(d.len() as int + 1, v.len() as int) =~= name);
}

impl Endpoint {
    /// The endpoint chosen by a region or custom domain identifier.
    pub fn new(identifier: Option<String>) -> (e: Self)
        ensures
            (e.region@, match e.custom_domain {
                Some(d) => Some(d@),
                None => None,
            }) == endpoint_for(match identifier {
                Some(s) => Some(s@),
                None => None,
            }),
    {
        proof {
            reveal_strlit("us-central1");
            reveal_strlit("/");
        }
        match identifier {
            None => Endpoint { region: owned("us-central1"), custom_domain: None },
            Some(value) => {
                let trimmed = trim_with(value.as_str(), None, true, true);
                if trimmed.unicode_len() == 0 {
                    return Endpoint { region: owned("us-central1"), custom_domain: None };
                }
                match parse_url_parts(trimmed.as_str()) {
                    Some((origin, path)) => {
                        let mut normalized = origin;
                        if !str_equal(path.as_str(), "/") {
                            let p = trim_with(path.as_str(), Some('/'), false, true);
                            normalized.append(p.as_str());
                        }
                        Endpoint { region: owned("us-central1"), custom_domain: Some(normalized) }
                    },
                    None => Endpoint { region: trimmed, custom_domain: None },
                }
            },
        }
    }

    pub fn region(&self) -> (r: &str)
        ensures
            r@ == self.region@,
    {
        self.region.as_str()
    }

    /// The URL of the callable function `name` in `project_id`.
    pub fn callable_url(&self, project_id: &str, name: &str) -> (r: FunctionsResult<String>)
        ensures
            r matches Ok(u) && u@ == callable_url_text(self.region@, match self.custom_domain {
                Some(d) => Some(d@),
                None => None,
            }, project_id@, name@),
    {
        match &self.custom_domain {
            Some(domain) => {
                let mut u = trim_with(domain.as_str(), Some('/'), false, true);
                u.append("/");
                u.append(name);
                Ok(u)
            },
            None => {
                let mut u = owned("https://");
                u.append(self.region.as_str());
                u.append("-");
                u.append(project_id);
                u.append(".cloudfunctions.net/");
                u.append(name);
                Ok(u)
            },
        }
    }
}

/// The Functions service of one app.
pub struct Functions {
    pub app: FirebaseApp,
    pub endpoint: Endpoint,
    pub context: ContextProvider,
}

/// A reference to one callable function.
#[derive(Debug)]
pub struct CallableFunction {
    pub name: String,
    pub region: String,
}

/// The name of a callable reference: trimmed, then without leading or
/// trailing slashes.
pub open spec fn callable_name(name: Seq<char>) -> Seq<char> {
    strip_end(strip_start(strip_end(strip_start(name, None), None), Some('/')), Some('/'))
}

impl Functions {
    pub fn new(app: FirebaseApp, endpoint: Endpoint) -> (f: Self)
        ensures
            f.app == app,
            f.endpoint == endpoint,
            f.context.overrides is None,
    {
        Functions { app, endpoint, context: ContextProvider::new() }
    }

    pub fn app(&self) -> (r: &FirebaseApp)
        ensures
            *r == self.app,
    {
        &self.app
    }

    pub fn region(&self) -> (r: &str)
        ensures
            r@ == self.endpoint.region@,
    {
        self.endpoint.region()
    }

    /// A reference to the callable function `name`; a blank name is refused.
    pub fn https_callable(&self, name: &str) -> (r: FunctionsResult<CallableFunction>)
        ensures
            match r {
                Ok(c) => strip_end(strip_start(name@, None), None).len() > 0 && c.name@ == callable_name(
                    name@,
                ) && c.region@ == self.endpoint.region@,
                Err(e) => strip_end(strip_start(name@, None), None).len() == 0 && e.code
                    == FunctionsErrorCode::InvalidArgument,
            },
    {
        let trimmed = trim_with(name, None, true, true);
        if trimmed.unicode_len() == 0 {
            return Err(invalid_argument("Function name must not be empty"));
        }
        let clean = trim_with(trimmed.as_str(), Some('/'), true, true);
        Ok(CallableFunction { name: clean, region: owned(self.endpoint.region.as_str()) })
    }

    /// The URL of the callable function `name`: leading slashes are dropped,
    /// and the app's project id is required.
    pub fn callable_url(&self, name: &str) -> (r: FunctionsResult<String>)
        ensures
            match r {
                Ok(u) => self.app.options.project_id matches Some(p) && u@ == callable_url_text(
                    self.endpoint.region@,
                    match self.endpoint.custom_domain {
                        Some(d) => Some(d@),
                        None => None,
                    },
                    p@,
                    strip_start(name@, Some('/')),
                ),
                Err(e) => self.app.options.project_id is None && e.code == FunctionsErrorCode::InvalidArgument,
            },
    {
        let sanitized = trim_with(name, Some('/'), true, false);
        match &self.app.options.project_id {
            Some(project_id) => self.endpoint.callable_url(project_id.as_str(), sanitized.as_str()),
            None => Err(invalid_argument("FirebaseOptions.project_id is required to call Functions")),
        }
    }

    /// Uses `overrides` as the context of every call.
    pub fn set_context_overrides(&mut self, overrides: CallContext)
        ensures
            final(self).context.overrides == Some(overrides),
            final(self).app == old(self).app,
            final(self).endpoint == old(self).endpoint,
    {
        self.context.set_overrides(overrides);
    }
}

impl CallableFunction {
    pub fn name(&self) -> (r: &str)
        ensures
            r@ == self.name@,
    {
        self.name.as_str()
    }

    pub fn region(&self) -> (r: &str)
        ensures
            r@ == self.region@,
    {
        self.region.as_str()
    }
}

/// The payload of a callable response: its `data` member, else its `result`
/// member; `None` when the response is not an object holding either.
pub open spec fn callable_payload(body: JsonModel) -> Option<JsonModel> {
    match body {
        JsonModel::Object(ms) => match json_find(ms, "data"@) {
            Some(d) => Some(d),
            None => json_find(ms, "result"@),
        },
        _ => None,
    }
}

/// The payload of a callable response, which the caller then reads as its
/// response type. Every failure is internal.
pub fn extract_data(body: &JsonValue) -> (r: FunctionsResult<JsonValue>)
    ensures
        match r {
            Ok(v) => callable_payload(body@) == Some(v@),
            Err(e) => callable_payload(body@) is None && e.code == FunctionsErrorCode::Internal,
        },
{
    proof {
        crate::json::lemma_json_container_views(*body);
    }
    match body {
        JsonValue::Object(members) => match find_member(members, "data") {
            Some(d) => Ok(d.deep_clone()),
            None => match find_member(members, "result") {
                Some(r) => Ok(r.deep_clone()),
                None => Err(internal_error("Callable response JSON is missing a data field")),
            },
        },
        JsonValue::Null => Err(internal_error("Callable response did not contain a JSON payload")),
        _ => Err(internal_error("Unexpected callable response shape: expected object")),
    }
}

/// The body of a callable request: `{"data": payload}`.
pub fn callable_body(payload: JsonValue) -> (r: JsonValue)
    ensures
        r@ == JsonModel::Object(seq![("data"@, payload@)]),
{
    object1("data", payload)
}

/// What a callable response gives before its payload is read: an error for
/// a status outside 2xx, for a body that is not JSON, and for 204 (no
/// content); else the parsed body, or null when the body was empty.
pub open spec fn callable_response(status: u16, body: Option<JsonModel>, parse_failed: bool) -> Result<
    JsonModel,
    Seq<char>,
> {
    if !(200 <= status && status < 300) {
        Err("Callable request failed with HTTP status "@ + int_text(status as int))
    } else if parse_failed {
        Err("Response is not valid JSON object"@)
    } else if status == 204 {
        Err("Callable response is missing data payload (HTTP 204)"@)
    } else {
        match body {
            Some(b) => Ok(b),
            None => Ok(JsonModel::Null),
        }
    }
}

/// Reads the HTTP outcome of a callable request: its status, its body parsed
/// as JSON (`None` when it was empty or did not parse) and whether parsing
/// failed. Every failure is internal; see [`callable_response`].
pub fn decode_callable_response(status: u16, body: Option<JsonValue>, parse_failed: bool) -> (r: FunctionsResult<
    JsonValue,
>)
    ensures
        match (r, callable_response(status, match body {
            Some(b) => Some(b@),
            None => None,
        }, parse_failed)) {
            (Ok(v), Ok(m)) => v@ == m,
            (Err(e), Err(msg)) => e.code == FunctionsErrorCode::Internal && e.message@ == msg,
            _ => false,
        },
{
    if !(200 <= status && status < 300) {
        let mut m = owned("Callable request failed with HTTP status ");
        m.append(int_to_text(status as i64).as_str());
        return Err(internal_error(m.as_str()));
    }
    if parse_failed {
        return Err(internal_error("Response is not valid JSON object"));
    }
    if status == 204 {
        return Err(internal_error("Callable response is missing data payload (HTTP 204)"));
    }
    match body {
        Some(b) => Ok(b),
        None => {
            let v = JsonValue::Null;
            proof {
                crate::json::lemma_json_container_views(v);
            }
            Ok(v)
        },
    }
}

} // verus!
