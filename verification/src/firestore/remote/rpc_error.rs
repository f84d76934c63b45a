//! Mapping of failed REST responses to Firestore errors.
use vstd::prelude::*;

use crate::firestore::error::{FirestoreError, FirestoreErrorCode};
use crate::json::{json_find, json_member, lemma_json_container_views, JsonModel, JsonValue};
use crate::text::{owned, str_equal};

verus! {

/// The reason phrase that the `http` crate knows for a status code.
pub uninterp spec fn canonical_reason_text(code: u16) -> Option<Seq<char>>;

/// Calls `reqwest::StatusCode::from_u16(code)` and `canonical_reason()` on it.
/// Claims only that the phrase is the named one; codes outside `100..=999`
/// have none.
#[verifier::external_body]
fn canonical_reason(code: u16) -> (r: Option<&'static str>)
    ensures
        match r {
            Some(s) => canonical_reason_text(code) == Some(s@),
            None => canonical_reason_text(code) is None,
        },
{
    match reqwest::StatusCode::from_u16(code) {
        Ok(status) => status.canonical_reason(),
        Err(_) => None,
    }
}

/// An optional string field: absent or null reads as no string; any other
/// non-string value does not read at all.
pub open spec fn optional_text(v: Option<JsonModel>) -> Option<Option<Seq<char>>> {
    match v {
        None => Some(None),
        Some(JsonModel::Null) => Some(None),
        Some(JsonModel::String(t, _)) => Some(Some(t)),
        _ => None,
    }
}

/// The `error` object of a Google API error body, as its message and status:
/// `None` when the body has no such object or its fields are not strings.
pub open spec fn error_payload(body: Option<JsonModel>) -> Option<(Option<Seq<char>>, Option<Seq<char>>)> {
    match body {
        Some(JsonModel::Object(ms)) => match json_find(ms, "error"@) {
            Some(JsonModel::Object(es)) => match (
                optional_text(json_find(es, "message"@)),
                optional_text(json_find(es, "status"@)),
            ) {
                (Some(m), Some(s)) => Some((m, s)),
                _ => None,
            },
            _ => None,
        },
        _ => None,
    }
}

/// The error for a canonical status name.
pub open spec fn status_name_error(status: Seq<char>, message: Seq<char>) -> (FirestoreErrorCode, Seq<char>) {
    if status == "INVALID_ARGUMENT"@ || status == "FAILED_PRECONDITION"@ || status == "OUT_OF_RANGE"@
        || status == "ALREADY_EXISTS"@ {
        (FirestoreErrorCode::InvalidArgument, message)
    } else if status == "UNAUTHENTICATED"@ {
        (FirestoreErrorCode::Unauthenticated, message)
    } else if status == "PERMISSION_DENIED"@ {
        (FirestoreErrorCode::PermissionDenied, message)
    } else if status == "NOT_FOUND"@ {
        (FirestoreErrorCode::NotFound, message)
    } else if status == "RESOURCE_EXHAUSTED"@ {
        (FirestoreErrorCode::ResourceExhausted, message)
    } else if status == "CANCELLED"@ || status == "DATA_LOSS"@ || status == "UNKNOWN"@ || status
        == "INTERNAL"@ {
        (FirestoreErrorCode::Internal, message)
    } else if status == "UNAVAILABLE"@ {
        (FirestoreErrorCode::Unavailable, message)
    } else if status == "DEADLINE_EXCEEDED"@ {
        (FirestoreErrorCode::DeadlineExceeded, message)
    } else {
        (FirestoreErrorCode::Internal, "Unhandled Firestore error status: "@ + status)
    }
}

/// The message of an error response: the payload's non-empty message, else
/// the status code's reason phrase, else `HTTP error`.
pub open spec fn http_error_message(status: u16, body: Option<JsonModel>) -> Seq<char> {
    match error_payload(body) {
        Some((Some(m), _)) if m.len() > 0 => m,
        _ => match canonical_reason_text(status) {
            Some(r) => r,
            None => "HTTP error"@,
        },
    }
}

/// The error for a status code without a fixed mapping: the payload's status
/// name when it has one, else by the code's class.
pub open spec fn payload_error(status: u16, fallback: Seq<char>, body: Option<JsonModel>) -> (FirestoreErrorCode, Seq<char>) {
    match error_payload(body) {
        Some((m, Some(s))) => status_name_error(
            s,
            match m {
                Some(x) => x,
                None => fallback,
            },
        ),
        _ => if status == 409 || status == 413 || (400 <= status <= 499) {
            (FirestoreErrorCode::InvalidArgument, fallback)
        } else if status == 504 || status == 408 {
            (FirestoreErrorCode::DeadlineExceeded, fallback)
        } else {
            (FirestoreErrorCode::Internal, fallback)
        },
    }
}

/// The error for a failed HTTP response with the given status and (parsed)
/// body.
pub open spec fn http_error(status: u16, body: Option<JsonModel>) -> (FirestoreErrorCode, Seq<char>) {
    let message = http_error_message(status, body);
    if status == 400 || status == 415 || status == 412 {
        (FirestoreErrorCode::InvalidArgument, message)
    } else if status == 401 {
        (FirestoreErrorCode::Unauthenticated, message)
    } else if status == 403 {
        (FirestoreErrorCode::PermissionDenied, message)
    } else if status == 404 {
        (FirestoreErrorCode::NotFound, message)
    } else if status == 429 {
        (FirestoreErrorCode::ResourceExhausted, message)
    } else if status == 503 || status == 502 {
        (FirestoreErrorCode::Unavailable, message)
    } else if status == 504 || status == 408 {
        (FirestoreErrorCode::DeadlineExceeded, message)
    } else if status == 500 {
        (FirestoreErrorCode::Internal, message)
    } else if status == 200 {
        (FirestoreErrorCode::Internal, "Received HTTP 200 while handling error"@)
    } else {
        payload_error(status, message, body)
    }
}

fn error_with(code: FirestoreErrorCode, message: &str) -> (e: FirestoreError)
    ensures
        e.code == code,
        e.message@ == message@,
{
    FirestoreError { code, message: owned(message) }
}

/// The error for a canonical status name such as `NOT_FOUND`.
pub fn map_status_code(status: &str, message: &str) -> (e: FirestoreError)
    ensures
        (e.code, e.message@) == status_name_error(status@, message@),
{
    proof {
        reveal_strlit("INVALID_ARGUMENT");
        reveal_strlit("FAILED_PRECONDITION");
        reveal_strlit("OUT_OF_RANGE");
        reveal_strlit("ALREADY_EXISTS");
    }
    if str_equal(status, "INVALID_ARGUMENT") || str_equal(status, "FAILED_PRECONDITION")
        || str_equal(status, "OUT_OF_RANGE") || str_equal(status, "ALREADY_EXISTS") {
        error_with(FirestoreErrorCode::InvalidArgument, message)
    } else if str_equal(status, "UNAUTHENTICATED") {
        error_with(FirestoreErrorCode::Unauthenticated, message)
    } else if str_equal(status, "PERMISSION_DENIED") {
        error_with(FirestoreErrorCode::PermissionDenied, message)
    } else if str_equal(status, "NOT_FOUND") {
        error_with(FirestoreErrorCode::NotFound, message)
    } else if str_equal(status, "RESOURCE_EXHAUSTED") {
        error_with(FirestoreErrorCode::ResourceExhausted, message)
    } else if str_equal(status, "CANCELLED") || str_equal(status, "DATA_LOSS") || str_equal(
        status,
        "UNKNOWN",
    ) || str_equal(status, "INTERNAL") {
        error_with(FirestoreErrorCode::Internal, message)
    } else if str_equal(status, "UNAVAILABLE") {
        error_with(FirestoreErrorCode::Unavailable, message)
    } else if str_equal(status, "DEADLINE_EXCEEDED") {
        error_with(FirestoreErrorCode::DeadlineExceeded, message)
    } else {
        let mut text = owned("Unhandled Firestore error status: ");
        text.append(status);
        FirestoreError { code: FirestoreErrorCode::Internal, message: text }
    }
}

/// An optional string member of an object.
fn optional_string(v: Option<&JsonValue>) -> (r: Option<Option<&str>>)
    ensures
        match r {
            Some(Some(s)) => optional_text(match v {
                Some(x) => Some(x@),
                None => None,
            }) == Some(Some(s@)),
            Some(None) => optional_text(match v {
                Some(x) => Some(x@),
                None => None,
            }) == Some(None::<Seq<char>>),
            None => optional_text(match v {
                Some(x) => Some(x@),
                None => None,
            }) is None,
        },
{
    match v {
        None => Some(None),
        Some(x) => {
            proof {
                lemma_json_container_views(*x);
            }
            match x {
                JsonValue::Null => Some(None),
                JsonValue::String(s) => Some(Some(s.text.as_str())),
                _ => None,
            }
        },
    }
}

/// The message and status of the `error` object of a response body.
fn extract_error_payload(body: Option<&JsonValue>) -> (r: Option<(Option<&str>, Option<&str>)>)
    ensures
        match r {
            Some((m, s)) => error_payload(match body {
                Some(x) => Some(x@),
                None => None,
            }) == Some((
                match m {
                    Some(t) => Some(t@),
                    None => None,
                },
                match s {
                    Some(t) => Some(t@),
                    None => None,
                },
            )),
            None => error_payload(match body {
                Some(x) => Some(x@),
                None => None,
            }) is None,
        },
{
    let b = match body {
        Some(b) => b,
        None => {
            return None;
        },
    };
    proof {
        lemma_json_container_views(*b);
    }
    if !matches!(b, JsonValue::Object(_)) {
        return None;
    }
    let error = match b.get("error") {
        Some(e) => e,
        None => {
            return None;
        },
    };
    proof {
        lemma_json_container_views(*error);
    }
    if !matches!(error, JsonValue::Object(_)) {
        return None;
    }
    let message = match optional_string(error.get("message")) {
        Some(m) => m,
        None => {
            return None;
        },
    };
    let status = match optional_string(error.get("status")) {
        Some(s) => s,
        None => {
            return None;
        },
    };
    Some((message, status))
}

/// The error for a failed HTTP response with status `status` and the body
/// read as JSON (`None` when it is not JSON).
pub fn map_http_error(status: u16, body: Option<&JsonValue>) -> (e: FirestoreError)
    ensures
        (e.code, e.message@) == http_error(status, match body {
            Some(x) => Some(x@),
            None => None,
        }),
{
    let payload = extract_error_payload(body);
    let message: String = match payload {
        Some((Some(m), _)) if m.unicode_len() > 0 => owned(m),
        _ => match canonical_reason(status) {
            Some(r) => owned(r),
            None => owned("HTTP error"),
        },
    };
    if status == 400 || status == 415 || status == 412 {
        error_with(FirestoreErrorCode::InvalidArgument, message.as_str())
    } else if status == 401 {
        error_with(FirestoreErrorCode::Unauthenticated, message.as_str())
    } else if status == 403 {
        error_with(FirestoreErrorCode::PermissionDenied, message.as_str())
    } else if status == 404 {
        error_with(FirestoreErrorCode::NotFound, message.as_str())
    } else if status == 429 {
        error_with(FirestoreErrorCode::ResourceExhausted, message.as_str())
    } else if status == 503 || status == 502 {
        error_with(FirestoreErrorCode::Unavailable, message.as_str())
    } else if status == 504 || status == 408 {
        error_with(FirestoreErrorCode::DeadlineExceeded, message.as_str())
    } else if status == 500 {
        error_with(FirestoreErrorCode::Internal, message.as_str())
    } else if status == 200 {
        error_with(FirestoreErrorCode::Internal, "Received HTTP 200 while handling error")
    } else {
        match payload {
            Some((m, Some(s))) => match m {
                Some(x) => map_status_code(s, x),
                None => map_status_code(s, message.as_str()),
            },
            _ => if status == 409 || status == 413 || (400 <= status && status <= 499) {
                error_with(FirestoreErrorCode::InvalidArgument, message.as_str())
            } else if status == 504 || status == 408 {
                error_with(FirestoreErrorCode::DeadlineExceeded, message.as_str())
            } else {
                error_with(FirestoreErrorCode::Internal, message.as_str())
            },
        }
    }
}

} // verus!
