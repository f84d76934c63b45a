//! The listen stream's targets and the requests that add and remove them,
//! and its responses, read from their JSON form.
use vstd::prelude::*;

use crate::firestore::api::query::QueryDefinition;
use crate::firestore::error::{internal_error, FirestoreError, FirestoreErrorCode, FirestoreResult};
use crate::firestore::model::resource_path::render_path;
use crate::firestore::model::Timestamp;
use crate::firestore::remote::http::{build_structured_query, structured_query_json};
use crate::firestore::remote::serializer::{
    base64_bytes, base64_text, database_name_text, decode_base64, decoded_timestamp, encode_base64, parse_timestamp,
    JsonProtoSerializer,
};
use crate::json::{
    json_find, json_i64, json_member, json_models, json_str, lemma_json_models, lemma_json_models_push,
    lemma_member_models, member_models, JsonModel, JsonNumber, JsonValue,
};
use crate::text::{owned, str_equal};

verus! {

/// What a target change says of its targets.
#[derive(Clone, Copy, Debug, PartialEq, Eq, Structural)]
pub enum TargetChangeState {
    NoChange,
    Add,
    Remove,
    Current,
    Reset,
}

/// The state named by a `targetChangeType`; unknown names mean no change.
pub open spec fn target_change_state_of(s: Seq<char>) -> TargetChangeState {
    if s == "ADD"@ {
        TargetChangeState::Add
    } else if s == "REMOVE"@ {
        TargetChangeState::Remove
    } else if s == "CURRENT"@ {
        TargetChangeState::Current
    } else if s == "RESET"@ {
        TargetChangeState::Reset
    } else {
        TargetChangeState::NoChange
    }
}

/// Each state is named by exactly one wire name: a name decodes to `ADD`,
/// `REMOVE`, `CURRENT` or `RESET` exactly when it is that word, and every
/// other name (`NO_CHANGE` among them) means no change.
pub proof fn lemma_target_change_names(s: Seq<char>)
    ensures
        (target_change_state_of(s) == TargetChangeState::Add) <==> s == "ADD"@,
        (target_change_state_of(s) == TargetChangeState::Remove) <==> s == "REMOVE"@,
        (target_change_state_of(s) == TargetChangeState::Current) <==> s == "CURRENT"@,
        (target_change_state_of(s) == TargetChangeState::Reset) <==> s == "RESET"@,
        (target_change_state_of(s) == TargetChangeState::NoChange) <==> (s != "ADD"@ && s != "REMOVE"@ && s
            != "CURRENT"@ && s != "RESET"@),
        target_change_state_of("NO_CHANGE"@) == TargetChangeState::NoChange,
{
    reveal_strlit("ADD");
    reveal_strlit("REMOVE");
    reveal_strlit("CURRENT");
    reveal_strlit("RESET");
    reveal_strlit("NO_CHANGE");
    assert("ADD"@ != "REMOVE"@ && "ADD"@ != "CURRENT"@ && "ADD"@ != "RESET"@) by {
        assert("ADD"@.len() != "REMOVE"@.len() && "ADD"@.len() != "CURRENT"@.len() && "ADD"@.len() != "RESET"@.len());
    }
    assert("REMOVE"@ != "CURRENT"@ && "REMOVE"@ != "RESET"@) by {
        assert("REMOVE"@.len() != "CURRENT"@.len());
        assert("REMOVE"@[1] != "RESET"@[1] || "REMOVE"@.len() != "RESET"@.len());
    }
    assert("CURRENT"@ != "RESET"@) by {
        assert("CURRENT"@.len() != "RESET"@.len());
    }
    assert("NO_CHANGE"@.len() == 9);
}

/// The state named by a `targetChangeType`.
pub fn target_change_state_from_str(value: &str) -> (r: TargetChangeState)
    ensures
        r == target_change_state_of(value@),
{
    proof {
        reveal_strlit("NO_CHANGE");
        reveal_strlit("ADD");
        reveal_strlit("REMOVE");
        reveal_strlit("CURRENT");
        reveal_strlit("RESET");
    }
    if str_equal(value, "NO_CHANGE") {
        assert(value@.len() == 9);
        assert("ADD"@.len() == 3 && "REMOVE"@.len() == 6 && "CURRENT"@.len() == 7 && "RESET"@.len() == 5);
        TargetChangeState::NoChange
    } else if str_equal(value, "ADD") {
        TargetChangeState::Add
    } else if str_equal(value, "REMOVE") {
        TargetChangeState::Remove
    } else if str_equal(value, "CURRENT") {
        TargetChangeState::Current
    } else if str_equal(value, "RESET") {
        TargetChangeState::Reset
    } else {
        TargetChangeState::NoChange
    }
}

/// Why a target was removed: a status code and its message.
#[derive(Debug)]
pub struct ListenErrorCause {
    pub code: i32,
    pub message: Option<String>,
}

/// A change to the state of some targets.
#[derive(Debug)]
pub struct ListenTargetChange {
    pub target_ids: Vec<i32>,
    pub resume_token: Option<Vec<u8>>,
    pub read_time: Option<Timestamp>,
    pub state: Option<TargetChangeState>,
    pub cause: Option<ListenErrorCause>,
}

/// A document that changed, with the targets it now matches and no longer
/// matches; the document is kept in its JSON form.
#[derive(Debug)]
pub struct DocumentChange {
    pub target_ids: Vec<i32>,
    pub removed_target_ids: Vec<i32>,
    pub document: JsonValue,
}

/// A document that was deleted.
#[derive(Debug)]
pub struct DocumentDelete {
    pub document: String,
    pub read_time: Option<Timestamp>,
    pub removed_target_ids: Vec<i32>,
}

/// A document that no longer matches some targets.
#[derive(Debug)]
pub struct DocumentRemove {
    pub document: String,
    pub read_time: Option<Timestamp>,
    pub removed_target_ids: Vec<i32>,
}

/// The number of documents that match a target.
#[derive(Clone, Copy, Debug, PartialEq, Eq, Structural)]
pub struct ExistenceFilter {
    pub target_id: i32,
    pub count: i32,
}

/// One message of the listen stream.
#[derive(Debug)]
pub enum ListenResponse {
    TargetChange(ListenTargetChange),
    DocumentChange(DocumentChange),
    DocumentDelete(DocumentDelete),
    DocumentRemove(DocumentRemove),
    Filter(ExistenceFilter),
    Unknown(JsonValue),
}

/// A listen response as plain values.
#[allow(inconsistent_fields)]
pub enum ResponseModel {
    TargetChange {
        target_ids: Seq<i32>,
        resume_token: Option<Seq<u8>>,
        read_time: Option<Timestamp>,
        state: Option<TargetChangeState>,
        cause: Option<(i32, Option<Seq<char>>)>,
    },
    DocumentChange { target_ids: Seq<i32>, removed_target_ids: Seq<i32>, document: JsonModel },
    DocumentDelete { document: Seq<char>, read_time: Option<Timestamp>, removed_target_ids: Seq<i32> },
    DocumentRemove { document: Seq<char>, read_time: Option<Timestamp>, removed_target_ids: Seq<i32> },
    Filter { target_id: i32, count: i32 },
    Unknown(JsonModel),
}

/// The text of an optional string.
pub open spec fn opt_text(s: Option<String>) -> Option<Seq<char>> {
    match s {
        Some(t) => Some(t@),
        None => None,
    }
}

impl View for ListenResponse {
    type V = ResponseModel;

    open spec fn view(&self) -> ResponseModel {
        match self {
            ListenResponse::TargetChange(c) => ResponseModel::TargetChange {
                target_ids: c.target_ids@,
                resume_token: match c.resume_token {
                    Some(b) => Some(b@),
                    None => None,
                },
                read_time: c.read_time,
                state: c.state,
                cause: match c.cause {
                    Some(x) => Some((x.code, opt_text(x.message))),
                    None => None,
                },
            },
            ListenResponse::DocumentChange(c) => ResponseModel::DocumentChange {
                target_ids: c.target_ids@,
                removed_target_ids: c.removed_target_ids@,
                document: c.document@,
            },
            ListenResponse::DocumentDelete(d) => ResponseModel::DocumentDelete {
                document: d.document@,
                read_time: d.read_time,
                removed_target_ids: d.removed_target_ids@,
            },
            ListenResponse::DocumentRemove(d) => ResponseModel::DocumentRemove {
                document: d.document@,
                read_time: d.read_time,
                removed_target_ids: d.removed_target_ids@,
            },
            ListenResponse::Filter(f) => ResponseModel::Filter { target_id: f.target_id, count: f.count },
            ListenResponse::Unknown(v) => ResponseModel::Unknown(v@),
        }
    }
}

/// The content of an optional JSON member.
pub open spec fn opt_json(v: Option<&JsonValue>) -> Option<JsonModel> {
    match v {
        Some(x) => Some(x@),
        None => None,
    }
}

/// The text of an optional member, when it is a string.
pub open spec fn text_of(v: Option<JsonModel>) -> Option<Seq<char>> {
    match v {
        Some(x) => json_str(x),
        None => None,
    }
}

/// The `i64` of an optional member, when it is a number that has one.
pub open spec fn int_of(v: Option<JsonModel>) -> Option<i64> {
    match v {
        Some(x) => json_i64(x),
        None => None,
    }
}

/// The elements of a JSON array that are `i64` numbers, truncated to `i32`.
pub open spec fn ids_of(xs: Seq<JsonModel>) -> Seq<i32>
    decreases xs.len(),
{
    if xs.len() == 0 {
        Seq::<i32>::empty()
    } else {
        let prev = ids_of(xs.drop_last());
        match json_i64(xs.last()) {
            Some(i) => prev.push(i as i32),
            None => prev,
        }
    }
}

/// The ids held by an optional member: none unless it is an array.
pub open spec fn id_list(v: Option<JsonModel>) -> Seq<i32> {
    match v {
        Some(JsonModel::Array(xs)) => ids_of(xs),
        _ => Seq::<i32>::empty(),
    }
}

/// The time held by an optional member: none unless it is a string, which
/// must then be an RFC 3339 timestamp.
pub open spec fn decoded_time(v: Option<JsonModel>) -> Result<Option<Timestamp>, FirestoreErrorCode> {
    match text_of(v) {
        None => Ok(None),
        Some(t) => match decoded_timestamp(t) {
            Some(ts) => Ok(Some(ts)),
            None => Err(FirestoreErrorCode::InvalidArgument),
        },
    }
}

/// An `i32` read from JSON: a number whose integer value fits.
pub open spec fn json_i32(v: JsonModel) -> Option<i32> {
    match json_i64(v) {
        Some(i) => if i32::MIN <= i <= i32::MAX {
            Some(i as i32)
        } else {
            None
        },
        None => None,
    }
}

/// An optional string read from JSON: `null` or a string.
pub open spec fn json_opt_string(v: JsonModel) -> Option<Option<Seq<char>>> {
    match v {
        JsonModel::Null => Some(None),
        JsonModel::String(t, _) => Some(Some(t)),
        _ => None,
    }
}

/// A status read from JSON as an object with an `i32` `code` and an optional
/// `message`, or as an array of one or both in that order; `None` for
/// anything else.
pub open spec fn decoded_cause(v: JsonModel) -> Option<(i32, Option<Seq<char>>)> {
    match v {
        JsonModel::Object(ms) => match json_find(ms, "code"@) {
            None => None,
            Some(c) => match json_i32(c) {
                None => None,
                Some(code) => match json_find(ms, "message"@) {
                    None => Some((code, None)),
                    Some(m) => match json_opt_string(m) {
                        None => None,
                        Some(message) => Some((code, message)),
                    },
                },
            },
        },
        JsonModel::Array(xs) => if xs.len() == 0 || xs.len() > 2 {
            None
        } else {
            match json_i32(xs[0]) {
                None => None,
                Some(code) => if xs.len() == 1 {
                    Some((code, None))
                } else {
                    match json_opt_string(xs[1]) {
                        None => None,
                        Some(message) => Some((code, message)),
                    }
                },
            }
        },
        _ => None,
    }
}

/// The cause held by an optional member, when there is one.
pub open spec fn decoded_optional_cause(v: Option<JsonModel>) -> Result<Option<(i32, Option<Seq<char>>)>, FirestoreErrorCode> {
    match v {
        None => Ok(None),
        Some(c) => match decoded_cause(c) {
            Some(x) => Ok(Some(x)),
            None => Err(FirestoreErrorCode::Internal),
        },
    }
}

/// A document deletion or removal read from its JSON form.
pub open spec fn decoded_document_gone(v: JsonModel) -> Result<(Seq<char>, Option<Timestamp>, Seq<i32>), FirestoreErrorCode> {
    match text_of(json_member(v, "document"@)) {
        None => Err(FirestoreErrorCode::Internal),
        Some(document) => match decoded_time(json_member(v, "readTime"@)) {
            Err(code) => Err(code),
            Ok(read_time) => Ok((document, read_time, id_list(json_member(v, "removedTargetIds"@)))),
        },
    }
}

/// A listen response read from its JSON form: the first of `targetChange`,
/// `documentChange`, `documentDelete`, `documentRemove` and `filter` that the
/// message holds decides its kind, and a message with none of them is
/// unknown. `Err` gives the code of the error.
pub open spec fn decoded_listen_response(v: JsonModel) -> Result<ResponseModel, FirestoreErrorCode> {
    match json_member(v, "targetChange"@) {
        Some(tc) => match decoded_time(json_member(tc, "readTime"@)) {
            Err(code) => Err(code),
            Ok(read_time) => match decoded_optional_cause(json_member(tc, "cause"@)) {
                Err(code) => Err(code),
                Ok(cause) => Ok(
                    ResponseModel::TargetChange {
                        target_ids: id_list(json_member(tc, "targetIds"@)),
                        resume_token: match text_of(json_member(tc, "resumeToken"@)) {
                            Some(t) => base64_bytes(t),
                            None => None,
                        },
                        read_time,
                        state: match text_of(json_member(tc, "targetChangeType"@)) {
                            Some(s) => Some(target_change_state_of(s)),
                            None => None,
                        },
                        cause,
                    },
                ),
            },
        },
        None => match json_member(v, "documentChange"@) {
            Some(dc) => match json_member(dc, "document"@) {
                None => Err(FirestoreErrorCode::Internal),
                Some(document) => Ok(
                    ResponseModel::DocumentChange {
                        target_ids: id_list(json_member(dc, "targetIds"@)),
                        removed_target_ids: id_list(json_member(dc, "removedTargetIds"@)),
                        document,
                    },
                ),
            },
            None => match json_member(v, "documentDelete"@) {
                Some(dd) => match decoded_document_gone(dd) {
                    Err(code) => Err(code),
                    Ok(g) => Ok(
                        ResponseModel::DocumentDelete { document: g.0, read_time: g.1, removed_target_ids: g.2 },
                    ),
                },
                None => match json_member(v, "documentRemove"@) {
                    Some(dr) => match decoded_document_gone(dr) {
                        Err(code) => Err(code),
                        Ok(g) => Ok(
                            ResponseModel::DocumentRemove { document: g.0, read_time: g.1, removed_target_ids: g.2 },
                        ),
                    },
                    None => match json_member(v, "filter"@) {
                        Some(f) => match int_of(json_member(f, "targetId"@)) {
                            None => Err(FirestoreErrorCode::Internal),
                            Some(t) => match int_of(json_member(f, "count"@)) {
                                None => Err(FirestoreErrorCode::Internal),
                                Some(c) => Ok(ResponseModel::Filter { target_id: t as i32, count: c as i32 }),
                            },
                        },
                        None => Ok(ResponseModel::Unknown(v)),
                    },
                },
            },
        },
    }
}

/// The text of an optional member, when it is a string.
fn member_text(v: Option<&JsonValue>) -> (r: Option<&str>)
    ensures
        match r {
            Some(t) => text_of(opt_json(v)) == Some(t@),
            None => text_of(opt_json(v)) is None,
        },
{
    match v {
        Some(x) => x.as_str(),
        None => None,
    }
}

/// The `i64` of an optional member.
fn member_int(v: Option<&JsonValue>) -> (r: Option<i64>)
    ensures
        r == int_of(opt_json(v)),
{
    match v {
        Some(x) => x.as_i64(),
        None => None,
    }
}

/// The ids held by an optional member.
fn member_ids(v: Option<&JsonValue>) -> (r: Vec<i32>)
    ensures
        r@ == id_list(opt_json(v)),
{
    let mut ids: Vec<i32> = Vec::new();
    match v {
        Some(x) => match x.as_array() {
            Some(xs) => {
                proof {
                    lemma_json_models(xs@);
                }
                let ghost ms = json_models(xs@);
                let mut i: usize = 0;
                while i < xs.len()
                    invariant
                        i <= xs@.len(),
                        ms == json_models(xs@),
                        ms.len() == xs@.len(),
                        forall|k: int| 0 <= k < xs@.len() ==> #[trigger] ms[k] == xs@[k]@,
                        ids@ == ids_of(ms.take(i as int)),
                    decreases xs@.len() - i,
                {
                    proof {
                        let t = ms.take(i + 1);
                        assert(t.drop_last() =~= ms.take(i as int));
                        assert(t.last() == xs@[i as int]@);
                    }
                    match xs[i].as_i64() {
                        Some(id) => ids.push(id as i32),
                        None => {},
                    }
                    i = i + 1;
                }
                assert(ms.take(ms.len() as int) =~= ms);
            },
            None => {},
        },
        None => {},
    }
    ids
}

/// The time held by an optional member.
pub(crate) fn member_time(v: Option<&JsonValue>) -> (r: FirestoreResult<Option<Timestamp>>)
    ensures
        match r {
            Ok(t) => decoded_time(opt_json(v)) == Ok::<Option<Timestamp>, FirestoreErrorCode>(t),
            Err(e) => decoded_time(opt_json(v)) == Err::<Option<Timestamp>, FirestoreErrorCode>(e.code),
        },
{
    match member_text(v) {
        None => Ok(None),
        Some(text) => match parse_timestamp(text) {
            Ok(t) => Ok(Some(t)),
            Err(e) => Err(e),
        },
    }
}

/// An `i32` read from JSON.
fn read_i32(v: &JsonValue) -> (r: Option<i32>)
    ensures
        r == json_i32(v@),
{
    match v.as_i64() {
        Some(i) => if -2147483648 <= i && i <= 2147483647 {
            Some(i as i32)
        } else {
            None
        },
        None => None,
    }
}

/// An optional string read from JSON.
fn read_opt_string(v: &JsonValue) -> (r: Option<Option<String>>)
    ensures
        match r {
            Some(m) => json_opt_string(v@) == Some(opt_text(m)),
            None => json_opt_string(v@) is None,
        },
{
    proof {
        crate::json::lemma_json_container_views(*v);
    }
    match v {
        JsonValue::Null => Some(None),
        JsonValue::String(s) => Some(Some(s.text.clone())),
        _ => None,
    }
}

/// A status read from JSON.
fn read_cause(v: &JsonValue) -> (r: Option<ListenErrorCause>)
    ensures
        match r {
            Some(c) => decoded_cause(v@) == Some((c.code, opt_text(c.message))),
            None => decoded_cause(v@) is None,
        },
{
    proof {
        crate::json::lemma_json_container_views(*v);
    }
    match v {
        JsonValue::Object(_) => {
            let code = match v.get("code") {
                None => {
                    return None;
                },
                Some(c) => match read_i32(c) {
                    None => {
                        return None;
                    },
                    Some(code) => code,
                },
            };
            match v.get("message") {
                None => Some(ListenErrorCause { code, message: None }),
                Some(m) => match read_opt_string(m) {
                    None => None,
                    Some(message) => Some(ListenErrorCause { code, message }),
                },
            }
        },
        JsonValue::Array(xs) => {
            proof {
                lemma_json_models(xs@);
            }
            if xs.len() == 0 || xs.len() > 2 {
                return None;
            }
            match read_i32(&xs[0]) {
                None => None,
                Some(code) => if xs.len() == 1 {
                    Some(ListenErrorCause { code, message: None })
                } else {
                    match read_opt_string(&xs[1]) {
                        None => None,
                        Some(message) => Some(ListenErrorCause { code, message }),
                    }
                },
            }
        },
        _ => None,
    }
}

/// A document deletion or removal read from its JSON form.
fn read_document_gone(v: &JsonValue, missing: &str) -> (r: FirestoreResult<(String, Option<Timestamp>, Vec<i32>)>)
    ensures
        match r {
            Ok(g) => decoded_document_gone(v@) == Ok::<(Seq<char>, Option<Timestamp>, Seq<i32>), FirestoreErrorCode>((g.0@, g.1, g.2@)),
            Err(e) => decoded_document_gone(v@) == Err::<(Seq<char>, Option<Timestamp>, Seq<i32>), FirestoreErrorCode>(e.code),
        },
{
    let document = match member_text(v.get("document")) {
        None => {
            return Err(internal_error(missing));
        },
        Some(d) => owned(d),
    };
    let read_time = match member_time(v.get("readTime")) {
        Ok(t) => t,
        Err(e) => {
            return Err(e);
        },
    };
    let removed = member_ids(v.get("removedTargetIds"));
    Ok((document, read_time, removed))
}

/// Reads one message of the listen stream. Errors come with the internal
/// code, except for a read time that is not an RFC 3339 timestamp (invalid
/// argument).
pub fn decode_listen_response(serializer: &JsonProtoSerializer, value: &JsonValue) -> (r: FirestoreResult<ListenResponse>)
    ensures
        match r {
            Ok(x) => decoded_listen_response(value@) == Ok::<ResponseModel, FirestoreErrorCode>(x@),
            Err(e) => decoded_listen_response(value@) == Err::<ResponseModel, FirestoreErrorCode>(e.code),
        },
{
    match value.get("targetChange") {
        Some(tc) => {
            let target_ids = member_ids(tc.get("targetIds"));
            let resume_token = match member_text(tc.get("resumeToken")) {
                Some(t) => match decode_base64(t) {
                    Ok(bytes) => Some(bytes),
                    Err(_) => None,
                },
                None => None,
            };
            let read_time = match member_time(tc.get("readTime")) {
                Ok(t) => t,
                Err(e) => {
                    return Err(e);
                },
            };
            let state = match member_text(tc.get("targetChangeType")) {
                Some(s) => Some(target_change_state_from_str(s)),
                None => None,
            };
            let cause = match tc.get("cause") {
                None => None,
                Some(c) => match read_cause(c) {
                    Some(x) => Some(x),
                    None => {
                        return Err(internal_error("Failed to decode listen cause"));
                    },
                },
            };
            let change = ListenTargetChange { target_ids, resume_token, read_time, state, cause };
            return Ok(ListenResponse::TargetChange(change));
        },
        None => {},
    }
    match value.get("documentChange") {
        Some(dc) => {
            let target_ids = member_ids(dc.get("targetIds"));
            let removed_target_ids = member_ids(dc.get("removedTargetIds"));
            let document = match dc.get("document") {
                Some(d) => d.deep_clone(),
                None => {
                    return Err(internal_error("documentChange missing document"));
                },
            };
            return Ok(ListenResponse::DocumentChange(DocumentChange { target_ids, removed_target_ids, document }));
        },
        None => {},
    }
    match value.get("documentDelete") {
        Some(dd) => {
            return match read_document_gone(dd, "documentDelete missing document field") {
                Ok(g) => Ok(ListenResponse::DocumentDelete(DocumentDelete { document: g.0, read_time: g.1, removed_target_ids: g.2 })),
                Err(e) => Err(e),
            };
        },
        None => {},
    }
    match value.get("documentRemove") {
        Some(dr) => {
            return match read_document_gone(dr, "documentRemove missing document field") {
                Ok(g) => Ok(ListenResponse::DocumentRemove(DocumentRemove { document: g.0, read_time: g.1, removed_target_ids: g.2 })),
                Err(e) => Err(e),
            };
        },
        None => {},
    }
    match value.get("filter") {
        Some(f) => {
            let target_id = match member_int(f.get("targetId")) {
                Some(t) => t as i32,
                None => {
                    return Err(internal_error("filter missing targetId"));
                },
            };
            let count = match member_int(f.get("count")) {
                Some(c) => c as i32,
                None => {
                    return Err(internal_error("filter missing count"));
                },
            };
            return Ok(ListenResponse::Filter(ExistenceFilter { target_id, count }));
        },
        None => {},
    }
    Ok(ListenResponse::Unknown(value.deep_clone()))
}

/// The request that stops listening to a target:
/// `{"database": ..., "removeTarget": id}`.
pub fn encode_unwatch_request(serializer: &JsonProtoSerializer, target_id: i32) -> (r: JsonValue)
    ensures
        r@ == JsonModel::Object(
            seq![
                ("database"@, JsonModel::String(database_name_text(serializer@), None)),
                ("removeTarget"@, JsonModel::Number(JsonNumber { as_i64: Some(target_id as i64), as_f64: None })),
            ],
        ),
{
    let database = JsonValue::string(serializer.database_name());
    let remove = JsonValue::integer(target_id as i64);
    let ghost dv = database@;
    let ghost rv = remove@;
    let mut members: Vec<(String, JsonValue)> = Vec::new();
    members.push((owned("database"), database));
    members.push((owned("removeTarget"), remove));
    proof {
        crate::json::lemma_member_models(members@);
        assert(crate::json::member_models(members@) =~= seq![("database"@, dv), ("removeTarget"@, rv)]);
    }
    JsonValue::object(members)
}

/// Receives what the listen stream reads.
pub trait ListenStreamDelegate {
    /// One decoded response.
    fn on_listen_response(&self, response: ListenResponse) -> FirestoreResult<()>;

    /// The stream failed.
    fn on_stream_error(&self, error: FirestoreError);
}

/// What a listen target selects: the documents of a query under a parent
/// resource, or named documents.
pub enum TargetPayload {
    Query { parent: String, structured_query: JsonValue },
    Documents { documents: Vec<String> },
}

/// The content of a target's payload.
pub enum PayloadModel {
    Query { parent: Seq<char>, structured_query: JsonModel },
    Documents { documents: Seq<Seq<char>> },
}

/// The content of a payload.
pub open spec fn payload_model(p: TargetPayload) -> PayloadModel {
    match p {
        TargetPayload::Query { parent, structured_query } => PayloadModel::Query {
            parent: parent@,
            structured_query: structured_query@,
        },
        TargetPayload::Documents { documents } => PayloadModel::Documents {
            documents: documents@.map_values(|d: String| d@),
        },
    }
}

/// A target of the listen stream.
pub struct ListenTarget {
    target_id: i32,
    payload: TargetPayload,
    resume_token: Option<Vec<u8>>,
    labels: Option<Vec<(String, String)>>,
    once: bool,
}

/// The content of a listen target.
pub struct ListenTargetModel {
    pub target_id: i32,
    pub payload: PayloadModel,
    pub resume_token: Option<Seq<u8>>,
    pub labels: Option<Seq<(Seq<char>, Seq<char>)>>,
    pub once: bool,
}

impl View for ListenTarget {
    type V = ListenTargetModel;

    closed spec fn view(&self) -> ListenTargetModel {
        ListenTargetModel {
            target_id: self.target_id,
            payload: payload_model(self.payload),
            resume_token: match self.resume_token {
                Some(t) => Some(t@),
                None => None,
            },
            labels: match self.labels {
                Some(ls) => Some(ls@.map_values(|l: (String, String)| (l.0@, l.1@))),
                None => None,
            },
            once: self.once,
        }
    }
}

/// The resource under which a query on `collection` lists documents:
/// `{database}/documents`, followed by `/{parent}` when the collection is
/// nested under a document.
pub open spec fn query_parent_text(db: (Seq<char>, Seq<char>), collection: Seq<Seq<char>>) -> Seq<char> {
    if collection.len() <= 1 {
        database_name_text(db) + "/documents"@
    } else {
        database_name_text(db) + "/documents/"@ + render_path(collection.drop_last())
    }
}

/// A string as JSON.
pub open spec fn json_string(s: Seq<char>) -> JsonModel {
    JsonModel::String(s, None)
}

/// The member that carries a target's payload.
pub open spec fn payload_member(p: PayloadModel) -> (Seq<char>, JsonModel) {
    match p {
        PayloadModel::Query { parent, structured_query } => (
            "query"@,
            JsonModel::Object(seq![("parent"@, json_string(parent)), ("structuredQuery"@, structured_query)]),
        ),
        PayloadModel::Documents { documents } => (
            "documents"@,
            JsonModel::Object(
                seq![("documents"@, JsonModel::Array(documents.map_values(|d: Seq<char>| json_string(d))))],
            ),
        ),
    }
}

/// The `addTarget` member of a watch request: the target id, `once` when
/// set, the resume token in base64 when there is one, then the payload.
pub open spec fn add_target_json(t: ListenTargetModel) -> JsonModel {
    let m0 = seq![("targetId"@, JsonModel::Number(JsonNumber { as_i64: Some(t.target_id as i64), as_f64: None }))];
    let m1 = if t.once {
        m0.push(("once"@, JsonModel::Bool(true)))
    } else {
        m0
    };
    let m2 = match t.resume_token {
        Some(token) => m1.push(("resumeToken"@, json_string(base64_text(token)))),
        None => m1,
    };
    JsonModel::Object(m2.push(payload_member(t.payload)))
}

/// The request that starts listening to a target: the database, the
/// target, and its labels when it has some.
pub open spec fn watch_request_json(db: (Seq<char>, Seq<char>), t: ListenTargetModel) -> JsonModel {
    let m = seq![("database"@, json_string(database_name_text(db))), ("addTarget"@, add_target_json(t))];
    JsonModel::Object(
        match t.labels {
            Some(ls) => m.push(
                ("labels"@, JsonModel::Object(ls.map_values(|l: (Seq<char>, Seq<char>)| (l.0, json_string(l.1))))),
            ),
            None => m,
        },
    )
}

impl ListenTarget {
    /// A target for the documents of a query, with no resume token, no
    /// labels, listening continuously.
    pub fn for_query(serializer: &JsonProtoSerializer, target_id: i32, definition: &QueryDefinition) -> (r: FirestoreResult<Self>)
        ensures
            r matches Ok(t) && t@ == (ListenTargetModel {
                target_id,
                payload: PayloadModel::Query {
                    parent: query_parent_text(serializer@, definition.collection_path@),
                    structured_query: structured_query_json(*definition),
                },
                resume_token: None,
                labels: None,
                once: false,
            }),
    {
        let parent_path = definition.collection_path.without_last();
        let mut parent = serializer.database_name();
        if parent_path.len() == 0 {
            parent.append("/documents");
            proof {
                reveal_strlit("/documents");
            }
        } else {
            parent.append("/documents/");
            parent.append(parent_path.canonical_string().as_str());
            proof {
                reveal_strlit("/documents/");
            }
        }
        let structured_query = build_structured_query(definition);
        Ok(ListenTarget {
            target_id,
            payload: TargetPayload::Query { parent, structured_query },
            resume_token: None,
            labels: None,
            once: false,
        })
    }

    pub fn target_id(&self) -> (r: i32)
        ensures
            r == self@.target_id,
    {
        self.target_id
    }

    pub fn payload(&self) -> (r: &TargetPayload)
        ensures
            payload_model(*r) == self@.payload,
    {
        &self.payload
    }

    pub fn resume_token(&self) -> (r: Option<&Vec<u8>>)
        ensures
            match r {
                Some(t) => self@.resume_token == Some(t@),
                None => self@.resume_token is None,
            },
    {
        match &self.resume_token {
            Some(t) => Some(t),
            None => None,
        }
    }

    /// The target resuming from `token`.
    pub fn set_resume_token(self, token: Vec<u8>) -> (r: Self)
        ensures
            r@ == (ListenTargetModel { resume_token: Some(token@), ..self@ }),
    {
        ListenTarget { resume_token: Some(token), ..self }
    }

    /// The target with `labels`.
    pub fn set_labels(self, labels: Vec<(String, String)>) -> (r: Self)
        ensures
            r@ == (ListenTargetModel { labels: Some(labels@.map_values(|l: (String, String)| (l.0@, l.1@))), ..self@ }),
    {
        ListenTarget { labels: Some(labels), ..self }
    }

    /// The target listening once or continuously.
    pub fn set_once(self, once: bool) -> (r: Self)
        ensures
            r@ == (ListenTargetModel { once, ..self@ }),
    {
        ListenTarget { once, ..self }
    }
}

/// A copy of a JSON value.
fn copy_json(v: &JsonValue) -> (r: JsonValue)
    ensures
        r@ == v@,
{
    v.deep_clone()
}

/// The payload member of a watch request.
fn encode_payload(payload: &TargetPayload) -> (r: (String, JsonValue))
    ensures
        (r.0@, r.1@) == payload_member(payload_model(*payload)),
{
    match payload {
        TargetPayload::Query { parent, structured_query } => {
            let p = JsonValue::string(parent.clone());
            let q = copy_json(structured_query);
            let ghost (pv, qv) = (p@, q@);
            let mut members: Vec<(String, JsonValue)> = Vec::new();
            members.push((owned("parent"), p));
            members.push((owned("structuredQuery"), q));
            proof {
                lemma_member_models(members@);
                assert(member_models(members@) =~= seq![("parent"@, pv), ("structuredQuery"@, qv)]);
            }
            (owned("query"), JsonValue::object(members))
        },
        TargetPayload::Documents { documents } => {
            let mut names: Vec<JsonValue> = Vec::new();
            let ghost expected = documents@.map_values(|d: String| d@).map_values(|d: Seq<char>| json_string(d));
            proof {
                lemma_json_models_push(names@, JsonValue::Null);
                assert(expected.take(0) =~= Seq::<JsonModel>::empty());
            }
            let mut i: usize = 0;
            while i < documents.len()
                invariant
                    i <= documents@.len(),
                    expected == documents@.map_values(|d: String| d@).map_values(|d: Seq<char>| json_string(d)),
                    json_models(names@) == expected.take(i as int),
                decreases documents@.len() - i,
            {
                let e = JsonValue::string(documents[i].clone());
                let ghost before = names@;
                let ghost ev = e;
                names.push(e);
                proof {
                    assert(names@ =~= before.push(ev));
                    lemma_json_models_push(before, ev);
                    assert(expected.take(i + 1) =~= expected.take(i as int).push(expected[i as int]));
                }
                i = i + 1;
            }
            assert(expected.take(i as int) =~= expected);
            (owned("documents"), crate::json::object1("documents", JsonValue::array(names)))
        },
    }
}

/// The request that starts listening to a target; see
/// [`watch_request_json`].
pub fn encode_watch_request(serializer: &JsonProtoSerializer, target: &ListenTarget) -> (r: JsonValue)
    ensures
        r@ == watch_request_json(serializer@, target@),
{
    let mut add: Vec<(String, JsonValue)> = Vec::new();
    add.push((owned("targetId"), JsonValue::integer(target.target_id as i64)));
    let ghost mut expected: Seq<(Seq<char>, JsonModel)> = seq![
        ("targetId"@, JsonModel::Number(JsonNumber { as_i64: Some(target.target_id as i64), as_f64: None })),
    ];
    proof {
        lemma_member_models(add@);
        assert(member_models(add@) =~= expected);
    }
    if target.once {
        let flag = JsonValue::Bool(true);
        proof {
            crate::json::lemma_json_container_views(flag);
        }
        let ghost before = add@;
        add.push((owned("once"), flag));
        proof {
            expected = expected.push(("once"@, JsonModel::Bool(true)));
            lemma_member_models(add@);
            lemma_member_models(before);
            assert(member_models(add@) =~= expected);
        }
    }
    if let Some(token) = &target.resume_token {
        let text = JsonValue::string(encode_base64(token.as_slice()));
        let ghost before = add@;
        add.push((owned("resumeToken"), text));
        proof {
            expected = expected.push(("resumeToken"@, json_string(base64_text(token@))));
            lemma_member_models(add@);
            lemma_member_models(before);
            assert(member_models(add@) =~= expected);
        }
    }
    let (name, body) = encode_payload(&target.payload);
    let ghost before = add@;
    add.push((name, body));
    proof {
        expected = expected.push(payload_member(payload_model(target.payload)));
        lemma_member_models(add@);
        lemma_member_models(before);
        assert(member_models(add@) =~= expected);
        assert(JsonModel::Object(expected) == add_target_json(target@));
    }
    let database = JsonValue::string(serializer.database_name());
    let add_target = JsonValue::object(add);
    let ghost (dv, av) = (database@, add_target@);
    let mut members: Vec<(String, JsonValue)> = Vec::new();
    members.push((owned("database"), database));
    members.push((owned("addTarget"), add_target));
    let ghost mut top: Seq<(Seq<char>, JsonModel)> = seq![("database"@, dv), ("addTarget"@, av)];
    proof {
        lemma_member_models(members@);
        assert(member_models(members@) =~= top);
    }
    if let Some(labels) = &target.labels {
        let mut entries: Vec<(String, JsonValue)> = Vec::new();
        let ghost lv = labels@.map_values(|l: (String, String)| (l.0@, l.1@)).map_values(
            |l: (Seq<char>, Seq<char>)| (l.0, json_string(l.1)),
        );
        proof {
            lemma_member_models(entries@);
            assert(member_models(entries@) =~= lv.take(0));
        }
        let mut i: usize = 0;
        while i < labels.len()
            invariant
                i <= labels@.len(),
                lv == labels@.map_values(|l: (String, String)| (l.0@, l.1@)).map_values(
                    |l: (Seq<char>, Seq<char>)| (l.0, json_string(l.1)),
                ),
                member_models(entries@) == lv.take(i as int),
            decreases labels@.len() - i,
        {
            let ghost before = entries@;
            entries.push((labels[i].0.clone(), JsonValue::string(labels[i].1.clone())));
            proof {
                lemma_member_models(entries@);
                lemma_member_models(before);
                assert(member_models(entries@) =~= lv.take(i + 1));
            }
            i = i + 1;
        }
        assert(lv.take(i as int) =~= lv);
        let ghost before = members@;
        members.push((owned("labels"), JsonValue::object(entries)));
        proof {
            top = top.push(("labels"@, JsonModel::Object(lv)));
            lemma_member_models(members@);
            lemma_member_models(before);
            assert(member_models(members@) =~= top);
        }
    }
    JsonValue::object(members)
}

} // verus!
