//! The JSON form of Firestore values, documents and resource names used by
//! the REST API.
use vstd::prelude::*;

use base64::engine::general_purpose::STANDARD as BASE64_STANDARD;
use base64::Engine;
use chrono::{DateTime, SecondsFormat, TimeZone, Utc};

use crate::firestore::error::{invalid_argument, FirestoreError, FirestoreErrorCode, FirestoreResult};
use crate::firestore::model::geo_point::{double_within, latitude_bounds, longitude_bounds};
use crate::firestore::model::resource_path::render_path;
use crate::firestore::model::{DatabaseId, DocumentKey, GeoPoint, Timestamp};
use crate::firestore::value::value::{
    entry_models, insert_sorted, keys_sorted, lemma_entry_models, lemma_insert_sorted_at, lemma_models_of, models_of, BytesValue,
    FirestoreValue, MapValue, ValueKind, ValueModel,
};
use crate::json::{
    int_text, int_to_text, json_find, json_member, json_models, lemma_json_container_views,
    lemma_json_models, lemma_member_index, lemma_member_models, member_index, member_models,
    lemma_parse_int_text, member_position, object1, parse_i64, parse_i64_text, JsonModel,
    JsonNumber, JsonValue,
};
use crate::text::owned;

verus! {

/// What the base64 crate's standard engine writes for `bytes`.
pub uninterp spec fn base64_text(bytes: Seq<u8>) -> Seq<char>;

/// What the base64 crate's standard engine reads from `text`, when it
/// accepts it.
pub uninterp spec fn base64_bytes(text: Seq<char>) -> Option<Seq<u8>>;

/// The UTC instant that chrono reads from an RFC 3339 text: seconds since the
/// epoch and nanoseconds within the second.
pub uninterp spec fn rfc3339_instant(text: Seq<char>) -> Option<(i64, u32)>;

/// The RFC 3339 text (nanosecond digits, `Z` suffix) that chrono writes for a
/// UTC instant, when chrono can represent it.
pub uninterp spec fn rfc3339_utc_text(seconds: i64, nanos: u32) -> Option<Seq<char>>;

/// Calls `base64::engine::general_purpose::STANDARD.encode`. Claims that the
/// text is the named standard (padded) encoding and that the same engine
/// decodes it back to the bytes.
#[verifier::external_body]
pub(crate) fn encode_base64(bytes: &[u8]) -> (r: String)
    ensures
        r@ == base64_text(bytes@),
        base64_bytes(r@) == Some(bytes@),
{
    BASE64_STANDARD.encode(bytes)
}

/// Calls `base64::engine::general_purpose::STANDARD.decode`. Claims only that
/// the result is the named decoding; the error is rendered as text.
#[verifier::external_body]
pub(crate) fn decode_base64(text: &str) -> (r: Result<Vec<u8>, String>)
    ensures
        match r {
            Ok(bytes) => base64_bytes(text@) == Some(bytes@),
            Err(_) => base64_bytes(text@) is None,
        },
{
    match BASE64_STANDARD.decode(text) {
        Ok(bytes) => Ok(bytes),
        Err(err) => Err(format!("{err}")),
    }
}

/// Calls `chrono::DateTime::parse_from_rfc3339` and reads the instant back in
/// UTC. Claims that the result is the named instant and, as chrono documents
/// for `timestamp_subsec_nanos`, that the nanoseconds stay below two billion
/// (leap seconds reach past one billion). The error is rendered as text.
#[verifier::external_body]
fn parse_rfc3339(text: &str) -> (r: Result<(i64, u32), String>)
    ensures
        match r {
            Ok(p) => rfc3339_instant(text@) == Some(p) && p.1 < 2_000_000_000,
            Err(_) => rfc3339_instant(text@) is None,
        },
{
    match DateTime::parse_from_rfc3339(text) {
        Ok(datetime) => {
            let utc = datetime.with_timezone(&Utc);
            Ok((utc.timestamp(), utc.timestamp_subsec_nanos()))
        },
        Err(err) => Err(format!("{err}")),
    }
}

/// Calls `chrono::Utc.timestamp_opt(seconds, nanos).single()` and writes the
/// instant with `to_rfc3339_opts(SecondsFormat::Nanos, true)`. Claims that the
/// text is the named one, that the epoch is representable, and that for
/// instants in the years 0000 to 9999 with nanoseconds below one billion the
/// text exists and `parse_from_rfc3339` reads the same instant back.
#[verifier::external_body]
fn rfc3339_utc(seconds: i64, nanos: u32) -> (r: Option<String>)
    ensures
        match r {
            Some(t) => rfc3339_utc_text(seconds, nanos) == Some(t@),
            None => rfc3339_utc_text(seconds, nanos) is None,
        },
        seconds == 0 && nanos == 0 ==> r is Some,
        -62_167_219_200 <= seconds <= 253_402_300_799 && nanos < 1_000_000_000 ==> r is Some && rfc3339_instant(r.unwrap()@) == Some((seconds, nanos)),
{
    match Utc.timestamp_opt(seconds, nanos).single() {
        Some(datetime) => Some(datetime.to_rfc3339_opts(SecondsFormat::Nanos, true)),
        None => None,
    }
}

/// The RFC 3339 text of a timestamp; instants that cannot be represented are
/// written as the epoch.
pub open spec fn timestamp_text(t: Timestamp) -> Seq<char> {
    match rfc3339_utc_text(t.seconds, t.nanos as u32) {
        Some(s) => s,
        None => match rfc3339_utc_text(0, 0) {
            Some(s) => s,
            None => Seq::<char>::empty(),
        },
    }
}

/// The RFC 3339 text of a timestamp.
pub fn encode_timestamp(t: &Timestamp) -> (r: String)
    ensures
        r@ == timestamp_text(*t),
{
    #[verifier::truncate]
    let nanos = t.nanos as u32;
    match rfc3339_utc(t.seconds, nanos) {
        Some(s) => s,
        None => match rfc3339_utc(0, 0) {
            Some(s) => s,
            None => String::new(),
        },
    }
}

/// The timestamp written in an RFC 3339 text.
pub open spec fn decoded_timestamp(text: Seq<char>) -> Option<Timestamp> {
    match rfc3339_instant(text) {
        Some(p) => Some(Timestamp { seconds: p.0, nanos: p.1 as i32 }),
        None => None,
    }
}

/// Reads a timestamp from RFC 3339 text.
pub fn parse_timestamp(text: &str) -> (r: FirestoreResult<Timestamp>)
    ensures
        match r {
            Ok(t) => decoded_timestamp(text@) == Some(t),
            Err(e) => decoded_timestamp(text@) is None && e.code == FirestoreErrorCode::InvalidArgument,
        },
{
    match parse_rfc3339(text) {
        Ok(p) => Ok(Timestamp::new(p.0, p.1 as i32)),
        Err(err) => Err(invalid_argument_with("Invalid timestamp: ", &err)),
    }
}

/// An invalid-argument error whose message is `prefix` followed by `detail`.
fn invalid_argument_with(prefix: &str, detail: &str) -> (e: FirestoreError)
    ensures
        e.code == FirestoreErrorCode::InvalidArgument,
        e.message@ == prefix@ + detail@,
{
    let mut message = owned(prefix);
    message.append(detail);
    FirestoreError { code: FirestoreErrorCode::InvalidArgument, message }
}

/// An integer read from JSON: a string in `i64` syntax, or a number with an
/// `i64` value.
pub open spec fn decoded_integer(v: JsonModel) -> Option<i64> {
    match v {
        JsonModel::String(t, _) => parse_i64_text(t),
        JsonModel::Number(n) => n.as_i64,
        _ => None,
    }
}

/// A double read from JSON: a number, or a string spelling one.
pub open spec fn decoded_double(v: JsonModel) -> Option<u64> {
    match v {
        JsonModel::Number(n) => n.as_f64,
        JsonModel::String(_, d) => d,
        _ => None,
    }
}

/// The text of a JSON string.
pub open spec fn json_text(v: JsonModel) -> Option<Seq<char>> {
    match v {
        JsonModel::String(t, _) => Some(t),
        _ => None,
    }
}

/// The `f64` of an optional JSON number.
pub open spec fn json_f64(v: Option<JsonModel>) -> Option<u64> {
    match v {
        Some(JsonModel::Number(n)) => n.as_f64,
        _ => None,
    }
}

/// Whether an object has a member with the given key.
pub open spec fn has_member(ms: Seq<(Seq<char>, JsonModel)>, key: Seq<char>) -> bool {
    0 <= member_index(ms, key) < ms.len()
}

/// The Firestore value a JSON value encodes: an object whose first
/// recognised member (in the order null, boolean, integer, double, timestamp,
/// string, bytes, reference, geo point, array, map) holds a well-typed
/// payload; `None` when the JSON is not a valid encoding.
pub open spec fn decoded(v: JsonModel) -> Option<ValueModel>
    decreases v, 1nat,
{
    match v {
        JsonModel::Object(ms) => decoded_object(ms),
        _ => None,
    }
}

/// The Firestore value encoded by the members of an object.
pub open spec fn decoded_object(ms: Seq<(Seq<char>, JsonModel)>) -> Option<ValueModel>
    decreases ms, 0nat,
{
    let ni = member_index(ms, "nullValue"@);
    let bi = member_index(ms, "booleanValue"@);
    let ii = member_index(ms, "integerValue"@);
    let di = member_index(ms, "doubleValue"@);
    let ti = member_index(ms, "timestampValue"@);
    let si = member_index(ms, "stringValue"@);
    let yi = member_index(ms, "bytesValue"@);
    let ri = member_index(ms, "referenceValue"@);
    let gi = member_index(ms, "geoPointValue"@);
    let ai = member_index(ms, "arrayValue"@);
    let mi = member_index(ms, "mapValue"@);
    if 0 <= ni < ms.len() && ms[ni].1 is Null {
        Some(ValueModel::Null)
    } else if 0 <= bi < ms.len() {
        match ms[bi].1 {
            JsonModel::Bool(b) => Some(ValueModel::Boolean(b)),
            _ => None,
        }
    } else if 0 <= ii < ms.len() {
        match decoded_integer(ms[ii].1) {
            Some(i) => Some(ValueModel::Integer(i)),
            None => None,
        }
    } else if 0 <= di < ms.len() {
        match decoded_double(ms[di].1) {
            Some(d) => Some(ValueModel::Double(d)),
            None => None,
        }
    } else if 0 <= ti < ms.len() {
        match json_text(ms[ti].1) {
            Some(t) => match decoded_timestamp(t) {
                Some(ts) => Some(ValueModel::Timestamp(ts)),
                None => None,
            },
            None => None,
        }
    } else if 0 <= si < ms.len() {
        match json_text(ms[si].1) {
            Some(t) => Some(ValueModel::String(t)),
            None => None,
        }
    } else if 0 <= yi < ms.len() {
        match json_text(ms[yi].1) {
            Some(t) => match base64_bytes(t) {
                Some(b) => Some(ValueModel::Bytes(b)),
                None => None,
            },
            None => None,
        }
    } else if 0 <= ri < ms.len() {
        match json_text(ms[ri].1) {
            Some(t) => Some(ValueModel::Reference(t)),
            None => None,
        }
    } else if 0 <= gi < ms.len() {
        let g = ms[gi].1;
        match (json_f64(json_member(g, "latitude"@)), json_f64(json_member(g, "longitude"@))) {
            (Some(lat), Some(lon)) => if double_within(lat, latitude_bounds().0, latitude_bounds().1)
                && double_within(lon, longitude_bounds().0, longitude_bounds().1) {
                Some(ValueModel::GeoPoint(GeoPoint { latitude_bits: lat, longitude_bits: lon }))
            } else {
                None
            },
            _ => None,
        }
    } else if 0 <= ai < ms.len() {
        match decoded_array(ms[ai].1) {
            Some(xs) => Some(ValueModel::Array(xs)),
            None => None,
        }
    } else if 0 <= mi < ms.len() {
        match decoded_map(ms[mi].1) {
            Some(es) => Some(ValueModel::Mapping(es)),
            None => None,
        }
    } else {
        None
    }
}

/// The elements of an `arrayValue` payload: the decoded `values` member when
/// it is an array, no elements when it is absent or not an array.
pub open spec fn decoded_array(a: JsonModel) -> Option<Seq<ValueModel>>
    decreases a, 0nat,
{
    match a {
        JsonModel::Object(ams) => {
            let vi = member_index(ams, "values"@);
            if 0 <= vi < ams.len() {
                match ams[vi].1 {
                    JsonModel::Array(es) => decoded_list(es),
                    _ => Some(Seq::<ValueModel>::empty()),
                }
            } else {
                Some(Seq::<ValueModel>::empty())
            }
        },
        _ => Some(Seq::<ValueModel>::empty()),
    }
}

/// The values encoded by a list of JSON values, when each is valid.
pub open spec fn decoded_list(es: Seq<JsonModel>) -> Option<Seq<ValueModel>>
    decreases es, 0nat,
{
    if es.len() == 0 {
        Some(Seq::<ValueModel>::empty())
    } else {
        match (decoded_list(es.drop_last()), decoded(es.last())) {
            (Some(xs), Some(x)) => Some(xs.push(x)),
            _ => None,
        }
    }
}

/// The fields of a map payload: an object whose `fields` member, when
/// present, is an object of encoded values.
pub open spec fn decoded_map(m: JsonModel) -> Option<Seq<(Seq<char>, ValueModel)>>
    decreases m, 0nat,
{
    match m {
        JsonModel::Object(ms) => {
            let fi = member_index(ms, "fields"@);
            if 0 <= fi < ms.len() {
                match ms[fi].1 {
                    JsonModel::Object(fs) => decoded_fields(fs),
                    _ => None,
                }
            } else {
                Some(Seq::<(Seq<char>, ValueModel)>::empty())
            }
        },
        _ => None,
    }
}

/// The map built by storing each decoded member, in order, when each is
/// valid.
pub open spec fn decoded_fields(fs: Seq<(Seq<char>, JsonModel)>) -> Option<Seq<(Seq<char>, ValueModel)>>
    decreases fs, 0nat,
{
    if fs.len() == 0 {
        Some(Seq::<(Seq<char>, ValueModel)>::empty())
    } else {
        match (decoded_fields(fs.drop_last()), decoded(fs.last().1)) {
            (Some(es), Some(x)) => Some(insert_sorted(es, fs.last().0, x)),
            _ => None,
        }
    }
}

/// A decoded list keeps decoding on every prefix.
proof fn lemma_decoded_list_prefix(es: Seq<JsonModel>, k: int)
    requires
        0 <= k <= es.len(),
        decoded_list(es) is Some,
    ensures
        decoded_list(es.take(k)) is Some,
    decreases es.len(),
{
    if k < es.len() {
        assert(es.drop_last().take(k) =~= es.take(k));
        lemma_decoded_list_prefix(es.drop_last(), k);
    } else {
        assert(es.take(k) =~= es);
    }
}

/// Decoded fields keep decoding on every prefix.
proof fn lemma_decoded_fields_prefix(fs: Seq<(Seq<char>, JsonModel)>, k: int)
    requires
        0 <= k <= fs.len(),
        decoded_fields(fs) is Some,
    ensures
        decoded_fields(fs.take(k)) is Some,
    decreases fs.len(),
{
    if k < fs.len() {
        assert(fs.drop_last().take(k) =~= fs.take(k));
        lemma_decoded_fields_prefix(fs.drop_last(), k);
    } else {
        assert(fs.take(k) =~= fs);
    }
}

/// The `f64` of an optional JSON number.
fn number_f64(v: Option<&JsonValue>) -> (r: Option<u64>)
    ensures
        r == json_f64(match v {
            Some(x) => Some(x@),
            None => None,
        }),
{
    match v {
        Some(x) => {
            proof {
                lemma_json_container_views(*x);
            }
            match x {
                JsonValue::Number(n) => n.as_f64,
                _ => None,
            }
        },
        None => None,
    }
}

/// Decodes a Firestore value from its JSON encoding.
pub fn decode_value(v: &JsonValue) -> (r: FirestoreResult<FirestoreValue>)
    ensures
        match r {
            Ok(x) => decoded(v@) == Some(x@),
            Err(e) => decoded(v@) is None && e.code == FirestoreErrorCode::InvalidArgument,
        },
    decreases v,
{
    proof {
        lemma_json_container_views(*v);
    }
    match v {
        JsonValue::Object(members) => decode_object(members),
        _ => Err(invalid_argument("Expected Firestore value object")),
    }
}

fn decode_object(members: &Vec<(String, JsonValue)>) -> (r: FirestoreResult<FirestoreValue>)
    ensures
        match r {
            Ok(x) => decoded_object(member_models(members@)) == Some(x@),
            Err(e) => decoded_object(member_models(members@)) is None && e.code
                == FirestoreErrorCode::InvalidArgument,
        },
    decreases members,
{
    let ghost ms = member_models(members@);
    proof {
        lemma_member_models(members@);
    }
    if let Some(i) = member_position(members, "nullValue") {
        proof {
            lemma_json_container_views(members@[i as int].1);
        }
        if matches!(members[i].1, JsonValue::Null) {
            return Ok(FirestoreValue::null());
        }
    }
    if let Some(i) = member_position(members, "booleanValue") {
        proof {
            lemma_json_container_views(members@[i as int].1);
        }
        return match &members[i].1 {
            JsonValue::Bool(b) => Ok(FirestoreValue::from_bool(*b)),
            _ => Err(invalid_argument("booleanValue must be bool")),
        };
    }
    if let Some(i) = member_position(members, "integerValue") {
        proof {
            lemma_json_container_views(members@[i as int].1);
        }
        return match &members[i].1 {
            JsonValue::String(s) => match parse_i64(s.text.as_str()) {
                Some(n) => Ok(FirestoreValue::from_integer(n)),
                None => Err(invalid_argument("Invalid integerValue")),
            },
            JsonValue::Number(n) => match n.as_i64 {
                Some(k) => Ok(FirestoreValue::from_integer(k)),
                None => Err(invalid_argument("Integer out of range")),
            },
            _ => Err(invalid_argument("integerValue must be a string or number")),
        };
    }
    if let Some(i) = member_position(members, "doubleValue") {
        proof {
            lemma_json_container_views(members@[i as int].1);
        }
        return match &members[i].1 {
            JsonValue::Number(n) => match n.as_f64 {
                Some(d) => Ok(FirestoreValue::from_double_bits(d)),
                None => Err(invalid_argument("Invalid doubleValue")),
            },
            JsonValue::String(s) => match s.as_f64 {
                Some(d) => Ok(FirestoreValue::from_double_bits(d)),
                None => Err(invalid_argument("Invalid doubleValue")),
            },
            _ => Err(invalid_argument("doubleValue must be a number or string")),
        };
    }
    if let Some(i) = member_position(members, "timestampValue") {
        proof {
            lemma_json_container_views(members@[i as int].1);
        }
        return match &members[i].1 {
            JsonValue::String(s) => match parse_timestamp(s.text.as_str()) {
                Ok(t) => Ok(FirestoreValue::from_timestamp(t)),
                Err(e) => Err(e),
            },
            _ => Err(invalid_argument("timestampValue must be string")),
        };
    }
    if let Some(i) = member_position(members, "stringValue") {
        proof {
            lemma_json_container_views(members@[i as int].1);
        }
        return match &members[i].1 {
            JsonValue::String(s) => Ok(FirestoreValue::from_string(owned(s.text.as_str()))),
            _ => Err(invalid_argument("stringValue must be string")),
        };
    }
    if let Some(i) = member_position(members, "bytesValue") {
        proof {
            lemma_json_container_views(members@[i as int].1);
        }
        return match &members[i].1 {
            JsonValue::String(s) => match decode_base64(s.text.as_str()) {
                Ok(bytes) => Ok(FirestoreValue::from_bytes(BytesValue::from(bytes))),
                Err(err) => Err(invalid_argument_with("Invalid bytesValue: ", &err)),
            },
            _ => Err(invalid_argument("bytesValue must be base64 string")),
        };
    }
    if let Some(i) = member_position(members, "referenceValue") {
        proof {
            lemma_json_container_views(members@[i as int].1);
        }
        return match &members[i].1 {
            JsonValue::String(s) => Ok(FirestoreValue::from_reference(owned(s.text.as_str()))),
            _ => Err(invalid_argument("referenceValue must be string")),
        };
    }
    if let Some(i) = member_position(members, "geoPointValue") {
        let g = &members[i].1;
        let latitude = match number_f64(g.get("latitude")) {
            Some(x) => x,
            None => {
                return Err(invalid_argument("geoPointValue.latitude must be f64"));
            },
        };
        let longitude = match number_f64(g.get("longitude")) {
            Some(x) => x,
            None => {
                return Err(invalid_argument("geoPointValue.longitude must be f64"));
            },
        };
        return match GeoPoint::new(latitude, longitude) {
            Ok(point) => Ok(FirestoreValue::from_geo_point(point)),
            Err(e) => Err(e),
        };
    }
    if let Some(i) = member_position(members, "arrayValue") {
        return match decode_array_payload(&members[i].1) {
            Ok(values) => {
                let ghost vs = values@;
                let r = FirestoreValue::from_array(values);
                Ok(r)
            },
            Err(e) => Err(e),
        };
    }
    if let Some(i) = member_position(members, "mapValue") {
        return match decode_map_value(&members[i].1) {
            Ok(map) => Ok(FirestoreValue::from_map(map)),
            Err(e) => Err(e),
        };
    }
    Err(invalid_argument("Unknown Firestore value type"))
}

/// No values.
fn no_values() -> (r: Vec<FirestoreValue>)
    ensures
        models_of(r@) == Seq::<ValueModel>::empty(),
{
    let r: Vec<FirestoreValue> = Vec::new();
    proof {
        lemma_models_of(r@);
        assert(models_of(r@) =~= Seq::<ValueModel>::empty());
    }
    r
}

/// The elements of an `arrayValue` payload.
fn decode_array_payload(a: &JsonValue) -> (r: FirestoreResult<Vec<FirestoreValue>>)
    ensures
        match r {
            Ok(xs) => decoded_array(a@) == Some(models_of(xs@)),
            Err(e) => decoded_array(a@) is None && e.code == FirestoreErrorCode::InvalidArgument,
        },
    decreases a,
{
    proof {
        lemma_json_container_views(*a);
    }
    match a {
        JsonValue::Object(members) => {
            proof {
                lemma_member_models(members@);
            }
            match member_position(members, "values") {
                Some(i) => {
                    proof {
                        lemma_json_container_views(members@[i as int].1);
                    }
                    match &members[i].1 {
                        JsonValue::Array(entries) => decode_list(entries),
                        _ => Ok(no_values()),
                    }
                },
                None => Ok(no_values()),
            }
        },
        _ => Ok(no_values()),
    }
}

/// Decodes each value of a JSON array.
pub(crate) fn decode_list(entries: &Vec<JsonValue>) -> (r: FirestoreResult<Vec<FirestoreValue>>)
    ensures
        match r {
            Ok(xs) => decoded_list(json_models(entries@)) == Some(models_of(xs@)),
            Err(e) => decoded_list(json_models(entries@)) is None && e.code
                == FirestoreErrorCode::InvalidArgument,
        },
    decreases entries,
{
    let ghost es = json_models(entries@);
    proof {
        lemma_json_models(entries@);
    }
    let mut out: Vec<FirestoreValue> = Vec::new();
    let mut k: usize = 0;
    assert(es.take(0) =~= Seq::<JsonModel>::empty());
    proof {
        lemma_models_of(out@);
    }
    while k < entries.len()
        invariant
            k <= entries@.len(),
            es == json_models(entries@),
            es.len() == entries@.len(),
            forall|j: int| 0 <= j < entries@.len() ==> #[trigger] es[j] == entries@[j]@,
            decoded_list(es.take(k as int)) == Some(models_of(out@)),
        decreases entries@.len() - k,
    {
        match decode_value(&entries[k]) {
            Ok(x) => {
                proof {
                    assert(es.take(k + 1).drop_last() =~= es.take(k as int));
                    assert(es.take(k + 1).last() == entries@[k as int]@);
                    lemma_models_of(out@);
                }
                let ghost before = out@;
                out.push(x);
                proof {
                    lemma_models_of(out@);
                    lemma_models_of(before);
                    assert(models_of(out@) =~= models_of(before).push(x@));
                }
            },
            Err(e) => {
                proof {
                    assert(es.take(k + 1).drop_last() =~= es.take(k as int));
                    assert(es.take(k + 1).last() == entries@[k as int]@);
                    if decoded_list(es) is Some {
                        lemma_decoded_list_prefix(es, k + 1);
                    }
                }
                return Err(e);
            },
        }
        k = k + 1;
    }
    assert(es.take(k as int) =~= es);
    Ok(out)
}

/// Decodes a map payload: an object whose `fields` member, when present, is
/// an object of encoded values.
pub fn decode_map_value(m: &JsonValue) -> (r: FirestoreResult<MapValue>)
    ensures
        match r {
            Ok(map) => decoded_map(m@) == Some(map@),
            Err(e) => decoded_map(m@) is None && e.code == FirestoreErrorCode::InvalidArgument,
        },
    decreases m,
{
    proof {
        lemma_json_container_views(*m);
    }
    match m {
        JsonValue::Object(members) => {
            proof {
                lemma_member_models(members@);
            }
            match member_position(members, "fields") {
                Some(i) => {
                    proof {
                        lemma_json_container_views(members@[i as int].1);
                    }
                    match &members[i].1 {
                        JsonValue::Object(fields) => decode_fields(fields),
                        _ => Err(invalid_argument("Expected 'fields' to be an object")),
                    }
                },
                None => Ok(MapValue::empty()),
            }
        },
        _ => Err(invalid_argument("Expected object for map value")),
    }
}

/// Decodes each member of a `fields` object into a map.
fn decode_fields(fields: &Vec<(String, JsonValue)>) -> (r: FirestoreResult<MapValue>)
    ensures
        match r {
            Ok(map) => decoded_fields(member_models(fields@)) == Some(map@),
            Err(e) => decoded_fields(member_models(fields@)) is None && e.code
                == FirestoreErrorCode::InvalidArgument,
        },
    decreases fields,
{
    let ghost fs = member_models(fields@);
    proof {
        lemma_member_models(fields@);
    }
    let mut map = MapValue::empty();
    let mut k: usize = 0;
    assert(fs.take(0) =~= Seq::<(Seq<char>, JsonModel)>::empty());
    while k < fields.len()
        invariant
            k <= fields@.len(),
            fs == member_models(fields@),
            fs.len() == fields@.len(),
            forall|j: int| 0 <= j < fields@.len() ==> #[trigger] fs[j] == (fields@[j].0@, fields@[j].1@),
            decoded_fields(fs.take(k as int)) == Some(map@),
        decreases fields@.len() - k,
    {
        proof {
            assert(fs.take(k + 1).drop_last() =~= fs.take(k as int));
            assert(fs.take(k + 1).last() == fs[k as int]);
        }
        match decode_value(&fields[k].1) {
            Ok(x) => {
                let key = owned(fields[k].0.as_str());
                map.insert(key, x);
            },
            Err(e) => {
                proof {
                    if decoded_fields(fs) is Some {
                        lemma_decoded_fields_prefix(fs, k + 1);
                    }
                }
                return Err(e);
            },
        }
        k = k + 1;
    }
    assert(fs.take(k as int) =~= fs);
    Ok(map)
}

/// An object with a single member.
pub open spec fn single(key: Seq<char>, v: JsonModel) -> JsonModel {
    JsonModel::Object(seq![(key, v)])
}

/// A JSON number holding a double.
pub open spec fn double_number(bits: u64) -> JsonModel {
    JsonModel::Number(JsonNumber { as_i64: None, as_f64: Some(bits) })
}

/// The JSON encoding of a Firestore value: an object with one member named
/// after the value's kind. Integers are written as decimal strings, doubles
/// as numbers, timestamps as RFC 3339 text and bytes as base64 text.
pub open spec fn encoded(v: ValueModel) -> JsonModel
    decreases v,
{
    match v {
        ValueModel::Null => single("nullValue"@, JsonModel::Null),
        ValueModel::Boolean(b) => single("booleanValue"@, JsonModel::Bool(b)),
        ValueModel::Integer(i) => single("integerValue"@, JsonModel::String(int_text(i as int), None)),
        ValueModel::Double(d) => single("doubleValue"@, double_number(d)),
        ValueModel::Timestamp(t) => single("timestampValue"@, JsonModel::String(timestamp_text(t), None)),
        ValueModel::String(s) => single("stringValue"@, JsonModel::String(s, None)),
        ValueModel::Bytes(b) => single("bytesValue"@, JsonModel::String(base64_text(b), None)),
        ValueModel::Reference(s) => single("referenceValue"@, JsonModel::String(s, None)),
        ValueModel::GeoPoint(g) => single(
            "geoPointValue"@,
            JsonModel::Object(
                seq![
                    ("latitude"@, double_number(g.latitude_bits)),
                    ("longitude"@, double_number(g.longitude_bits)),
                ],
            ),
        ),
        ValueModel::Array(xs) => single("arrayValue"@, single("values"@, JsonModel::Array(encoded_list(xs)))),
        ValueModel::Mapping(es) => single("mapValue"@, single("fields"@, JsonModel::Object(encoded_fields(es)))),
    }
}

/// The encodings of a list of values.
pub open spec fn encoded_list(xs: Seq<ValueModel>) -> Seq<JsonModel>
    decreases xs,
{
    if xs.len() == 0 {
        Seq::<JsonModel>::empty()
    } else {
        encoded_list(xs.drop_last()).push(encoded(xs.last()))
    }
}

/// The members of an encoded map: each key with its value's encoding.
pub open spec fn encoded_fields(es: Seq<(Seq<char>, ValueModel)>) -> Seq<(Seq<char>, JsonModel)>
    decreases es,
{
    if es.len() == 0 {
        Seq::<(Seq<char>, JsonModel)>::empty()
    } else {
        encoded_fields(es.drop_last()).push((es.last().0, encoded(es.last().1)))
    }
}

/// Encodes a Firestore value as JSON.
pub fn encode_value(v: &FirestoreValue) -> (r: JsonValue)
    ensures
        r@ == encoded(v@),
    decreases v@,
{
    proof {
        v.lemma_kind_model();
    }
    match v.kind() {
        ValueKind::Null => {
            let n = JsonValue::Null;
            proof {
                lemma_json_container_views(n);
            }
            object1("nullValue", n)
        },
        ValueKind::Boolean(b) => {
            let j = JsonValue::Bool(*b);
            proof {
                lemma_json_container_views(j);
            }
            object1("booleanValue", j)
        },
        ValueKind::Integer(i) => object1("integerValue", JsonValue::string(int_to_text(*i))),
        ValueKind::Double(d) => object1("doubleValue", JsonValue::double(*d)),
        ValueKind::Timestamp(t) => object1("timestampValue", JsonValue::string(encode_timestamp(t))),
        ValueKind::String(s) => object1("stringValue", JsonValue::string_from(s.as_str())),
        ValueKind::Bytes(b) => object1("bytesValue", JsonValue::string(encode_base64(b.as_slice()))),
        ValueKind::Reference(s) => object1("referenceValue", JsonValue::string_from(s.as_str())),
        ValueKind::GeoPoint(g) => {
            let mut members: Vec<(String, JsonValue)> = Vec::new();
            members.push((owned("latitude"), JsonValue::double(g.latitude_bits)));
            members.push((owned("longitude"), JsonValue::double(g.longitude_bits)));
            proof {
                lemma_member_models(members@);
                reveal_strlit("latitude");
                reveal_strlit("longitude");
                assert(member_models(members@) =~= seq![
                    ("latitude"@, double_number(g.latitude_bits)),
                    ("longitude"@, double_number(g.longitude_bits)),
                ]);
            }
            object1("geoPointValue", JsonValue::object(members))
        },
        ValueKind::Array(a) => {
            let list = encode_list(a.values());
            object1("arrayValue", object1("values", list))
        },
        ValueKind::Mapping(m) => {
            let fields = encode_map_fields(m);
            object1("mapValue", object1("fields", fields))
        },
    }
}

/// Encodes each value of a list as a JSON array.
fn encode_list(values: &Vec<FirestoreValue>) -> (r: JsonValue)
    ensures
        r@ == JsonModel::Array(encoded_list(models_of(values@))),
    decreases models_of(values@),
{
    let ghost xs = models_of(values@);
    proof {
        lemma_models_of(values@);
    }
    let mut out: Vec<JsonValue> = Vec::new();
    let mut k: usize = 0;
    proof {
        lemma_json_models(out@);
        assert(json_models(out@) =~= encoded_list(xs.take(0)));
    }
    while k < values.len()
        invariant
            k <= values@.len(),
            xs == models_of(values@),
            xs.len() == values@.len(),
            forall|j: int| 0 <= j < values@.len() ==> #[trigger] xs[j] == values@[j]@,
            json_models(out@) == encoded_list(xs.take(k as int)),
        decreases values@.len() - k,
    {
        proof {
            assert(xs[k as int] == values@[k as int]@);
            assert(decreases_to!(xs => xs[k as int]));
        }
        let e = encode_value(&values[k]);
        let ghost before = out@;
        out.push(e);
        proof {
            lemma_json_models(out@);
            lemma_json_models(before);
            assert(xs.take(k + 1).drop_last() =~= xs.take(k as int));
            assert(json_models(out@) =~= json_models(before).push(e@));
        }
        k = k + 1;
    }
    assert(xs.take(k as int) =~= xs);
    JsonValue::array(out)
}

/// Encodes the entries of a map as the members of a JSON object.
fn encode_map_fields(map: &MapValue) -> (r: JsonValue)
    ensures
        r@ == JsonModel::Object(encoded_fields(map@)),
    decreases map@,
{
    let entries = map.fields();
    let ghost es = map@;
    proof {
        lemma_entry_models(entries@);
    }
    let mut out: Vec<(String, JsonValue)> = Vec::new();
    let mut k: usize = 0;
    proof {
        lemma_member_models(out@);
        assert(member_models(out@) =~= encoded_fields(es.take(0)));
    }
    while k < entries.len()
        invariant
            k <= entries@.len(),
            es == map@,
            es == entry_models(entries@),
            es.len() == entries@.len(),
            forall|j: int| 0 <= j < entries@.len() ==> #[trigger] es[j] == (entries@[j].0@, entries@[j].1@),
            member_models(out@) == encoded_fields(es.take(k as int)),
        decreases entries@.len() - k,
    {
        proof {
            assert(es[k as int].1 == entries@[k as int].1@);
            assert(decreases_to!(map@ => entries@[k as int].1@));
        }
        let e = encode_value(&entries[k].1);
        let key = owned(entries[k].0.as_str());
        let ghost before = out@;
        out.push((key, e));
        proof {
            lemma_member_models(out@);
            lemma_member_models(before);
            assert(es.take(k + 1).drop_last() =~= es.take(k as int));
            assert(member_models(out@) =~= member_models(before).push((key@, e@)));
        }
        k = k + 1;
    }
    assert(es.take(k as int) =~= es);
    JsonValue::object(out)
}

/// The resource name of a database: `projects/{project}/databases/{database}`.
pub open spec fn database_name_text(db: (Seq<char>, Seq<char>)) -> Seq<char> {
    "projects/"@ + db.0 + "/databases/"@ + db.1
}

/// The resource name of a document: the database's name, `/documents/` and
/// the document's path.
pub open spec fn document_name_text(db: (Seq<char>, Seq<char>), key: Seq<Seq<char>>) -> Seq<char> {
    database_name_text(db) + "/documents/"@ + render_path(key)
}

/// Translates values and names of one database to and from the REST API's
/// JSON.
#[derive(Debug)]
pub struct JsonProtoSerializer {
    database_id: DatabaseId,
}

impl View for JsonProtoSerializer {
    type V = (Seq<char>, Seq<char>);

    closed spec fn view(&self) -> (Seq<char>, Seq<char>) {
        self.database_id@
    }
}

impl Clone for JsonProtoSerializer {
    fn clone(&self) -> (r: Self)
        ensures
            r@ == self@,
    {
        JsonProtoSerializer { database_id: self.database_id.clone() }
    }
}

impl JsonProtoSerializer {
    pub fn new(database_id: DatabaseId) -> (s: Self)
        ensures
            s@ == database_id@,
    {
        JsonProtoSerializer { database_id }
    }

    pub fn database_id(&self) -> (r: &DatabaseId)
        ensures
            r@ == self@,
    {
        &self.database_id
    }

    /// `projects/{project}/databases/{database}`.
    pub fn database_name(&self) -> (r: String)
        ensures
            r@ == database_name_text(self@),
    {
        let mut r = owned("projects/");
        r.append(self.database_id.project_id());
        r.append("/databases/");
        r.append(self.database_id.database());
        r
    }

    /// The database's name, `/documents/` and the document's path.
    pub fn document_name(&self, key: &DocumentKey) -> (r: String)
        ensures
            r@ == document_name_text(self@, key@),
    {
        let mut r = self.database_name();
        r.append("/documents/");
        let path = key.path().canonical_string();
        r.append(path.as_str());
        r
    }

    /// `{"fields": ...}` holding the encoded entries of `map`.
    pub fn encode_document_fields(&self, map: &MapValue) -> (r: JsonValue)
        ensures
            r@ == single("fields"@, JsonModel::Object(encoded_fields(map@))),
    {
        object1("fields", encode_map_fields(map))
    }

    /// A commit request with one update write of the document `key`.
    pub fn encode_commit_body(&self, key: &DocumentKey, map: &MapValue) -> (r: JsonValue)
        ensures
            r@ == single(
                "writes"@,
                JsonModel::Array(
                    seq![
                        single(
                            "update"@,
                            JsonModel::Object(
                                seq![
                                    ("name"@, JsonModel::String(document_name_text(self@, key@), None)),
                                    ("fields"@, JsonModel::Object(encoded_fields(map@))),
                                ],
                            ),
                        ),
                    ],
                ),
            ),
    {
        let name = self.document_name(key);
        let mut update: Vec<(String, JsonValue)> = Vec::new();
        let name_json = JsonValue::string(name);
        let fields_json = encode_map_fields(map);
        let ghost nv = name_json@;
        let ghost fv = fields_json@;
        update.push((owned("name"), name_json));
        update.push((owned("fields"), fields_json));
        proof {
            lemma_member_models(update@);
            assert(member_models(update@) =~= seq![("name"@, nv), ("fields"@, fv)]);
        }
        let write = object1("update", JsonValue::object(update));
        let ghost wv = write@;
        let mut writes: Vec<JsonValue> = Vec::new();
        writes.push(write);
        proof {
            lemma_json_models(writes@);
            assert(json_models(writes@) =~= seq![wv]);
        }
        object1("writes", JsonValue::array(writes))
    }

    /// The fields of a document resource: its `fields` member decoded as a
    /// map, or no fields when the member is absent.
    pub fn decode_document_fields(&self, value: &JsonValue) -> (r: FirestoreResult<Option<MapValue>>)
        ensures
            match r {
                Ok(Some(m)) => if json_member(value@, "fields"@) is Some {
                    decoded_map(value@) == Some(m@)
                } else {
                    m@ == Seq::<(Seq<char>, ValueModel)>::empty()
                },
                Ok(None) => false,
                Err(e) => json_member(value@, "fields"@) is Some && decoded_map(value@) is None
                    && e.code == FirestoreErrorCode::InvalidArgument,
            },
    {
        if value.get("fields").is_some() {
            match decode_map_value(value) {
                Ok(m) => Ok(Some(m)),
                Err(e) => Err(e),
            }
        } else {
            Ok(Some(MapValue::empty()))
        }
    }

    /// Decodes a map payload.
    pub fn decode_map_value(&self, value: &JsonValue) -> (r: FirestoreResult<MapValue>)
        ensures
            match r {
                Ok(map) => decoded_map(value@) == Some(map@),
                Err(e) => decoded_map(value@) is None && e.code == FirestoreErrorCode::InvalidArgument,
            },
    {
        decode_map_value(value)
    }

    /// Encodes a value.
    pub fn encode_value(&self, value: &FirestoreValue) -> (r: JsonValue)
        ensures
            r@ == encoded(value@),
    {
        encode_value(value)
    }
}

/// Whether the base64 engine reads back what it writes for `b`.
pub open spec fn base64_reads_back(b: Seq<u8>) -> bool {
    base64_bytes(base64_text(b)) == Some(b)
}

/// Whether chrono reads back the instant that it writes for `t`.
pub open spec fn rfc3339_reads_back(t: Timestamp) -> bool {
    &&& 0 <= t.nanos
    &&& rfc3339_utc_text(t.seconds, t.nanos as u32) is Some
    &&& rfc3339_instant(rfc3339_utc_text(t.seconds, t.nanos as u32).unwrap()) == Some(
        (t.seconds, t.nanos as u32),
    )
}

/// Values whose JSON encoding decodes to themselves: maps have their keys in
/// order, geo points lie in range, and the outside formats read back the
/// bytes and timestamps that they write.
pub open spec fn encodable(v: ValueModel) -> bool
    decreases v,
{
    match v {
        ValueModel::Timestamp(t) => rfc3339_reads_back(t),
        ValueModel::Bytes(b) => base64_reads_back(b),
        ValueModel::GeoPoint(g) => double_within(g.latitude_bits, latitude_bounds().0, latitude_bounds().1)
            && double_within(g.longitude_bits, longitude_bounds().0, longitude_bounds().1),
        ValueModel::Array(xs) => forall|i: int| 0 <= i < xs.len() ==> encodable(#[trigger] xs[i]),
        ValueModel::Mapping(es) => keys_sorted(es) && forall|i: int|
            0 <= i < es.len() ==> encodable(#[trigger] es[i].1),
        _ => true,
    }
}

proof fn lemma_single_index(k: Seq<char>, p: JsonModel, key: Seq<char>)
    ensures
        member_index(seq![(k, p)], key) == if k == key {
            0int
        } else {
            1int
        },
{
    let ms = seq![(k, p)];
    if ms[0].0 != key {
        assert(ms.drop_first().len() == 0);
        assert(member_index(ms.drop_first(), key) == 0);
    }
}

proof fn lemma_decode_encode_list(xs: Seq<ValueModel>)
    requires
        forall|i: int| 0 <= i < xs.len() ==> encodable(#[trigger] xs[i]),
    ensures
        decoded_list(encoded_list(xs)) == Some(xs),
    decreases xs,
{
    if xs.len() > 0 {
        lemma_decode_encode_list(xs.drop_last());
        lemma_decode_encode(xs.last());
        assert(encoded_list(xs).drop_last() =~= encoded_list(xs.drop_last()));
        assert(xs.drop_last().push(xs.last()) =~= xs);
    } else {
        assert(xs =~= Seq::<ValueModel>::empty());
    }
}

proof fn lemma_decode_encode_fields(es: Seq<(Seq<char>, ValueModel)>)
    requires
        keys_sorted(es),
        forall|i: int| 0 <= i < es.len() ==> encodable(#[trigger] es[i].1),
    ensures
        decoded_fields(encoded_fields(es)) == Some(es),
    decreases es,
{
    if es.len() > 0 {
        let rest = es.drop_last();
        assert(keys_sorted(rest));
        lemma_decode_encode_fields(rest);
        lemma_decode_encode(es.last().1);
        assert(encoded_fields(es).drop_last() =~= encoded_fields(rest));
        assert(forall|j: int| 0 <= j < rest.len() ==> crate::text::seq_lt(#[trigger] rest[j].0, es.last().0));
        lemma_insert_sorted_at(rest, es.last().0, es.last().1, rest.len() as int);
        assert(rest.insert(rest.len() as int, (es.last().0, es.last().1)) =~= es);
    } else {
        assert(es =~= Seq::<(Seq<char>, ValueModel)>::empty());
    }
}

/// The `fields` payload of a key-ordered map of encodable values decodes back
/// to the map.
pub proof fn lemma_decode_encode_map(es: Seq<(Seq<char>, ValueModel)>)
    requires
        keys_sorted(es),
        forall|i: int| 0 <= i < es.len() ==> encodable(#[trigger] es[i].1),
    ensures
        decoded_map(single("fields"@, JsonModel::Object(encoded_fields(es)))) == Some(es),
{
    lemma_decode_encode_fields(es);
    lemma_single_index("fields"@, JsonModel::Object(encoded_fields(es)), "fields"@);
}

proof fn lemma_kind_keys_distinct()
    ensures
        "booleanValue"@ != "nullValue"@,
        "integerValue"@ != "nullValue"@,
        "integerValue"@ != "booleanValue"@,
        "doubleValue"@ != "nullValue"@,
        "doubleValue"@ != "booleanValue"@,
        "doubleValue"@ != "integerValue"@,
        "timestampValue"@ != "nullValue"@,
        "timestampValue"@ != "booleanValue"@,
        "timestampValue"@ != "integerValue"@,
        "timestampValue"@ != "doubleValue"@,
        "stringValue"@ != "nullValue"@,
        "stringValue"@ != "booleanValue"@,
        "stringValue"@ != "integerValue"@,
        "stringValue"@ != "doubleValue"@,
        "stringValue"@ != "timestampValue"@,
        "bytesValue"@ != "nullValue"@,
        "bytesValue"@ != "booleanValue"@,
        "bytesValue"@ != "integerValue"@,
        "bytesValue"@ != "doubleValue"@,
        "bytesValue"@ != "timestampValue"@,
        "bytesValue"@ != "stringValue"@,
        "referenceValue"@ != "nullValue"@,
        "referenceValue"@ != "booleanValue"@,
        "referenceValue"@ != "integerValue"@,
        "referenceValue"@ != "doubleValue"@,
        "referenceValue"@ != "timestampValue"@,
        "referenceValue"@ != "stringValue"@,
        "referenceValue"@ != "bytesValue"@,
        "geoPointValue"@ != "nullValue"@,
        "geoPointValue"@ != "booleanValue"@,
        "geoPointValue"@ != "integerValue"@,
        "geoPointValue"@ != "doubleValue"@,
        "geoPointValue"@ != "timestampValue"@,
        "geoPointValue"@ != "stringValue"@,
        "geoPointValue"@ != "bytesValue"@,
        "geoPointValue"@ != "referenceValue"@,
        "arrayValue"@ != "nullValue"@,
        "arrayValue"@ != "booleanValue"@,
        "arrayValue"@ != "integerValue"@,
        "arrayValue"@ != "doubleValue"@,
        "arrayValue"@ != "timestampValue"@,
        "arrayValue"@ != "stringValue"@,
        "arrayValue"@ != "bytesValue"@,
        "arrayValue"@ != "referenceValue"@,
        "arrayValue"@ != "geoPointValue"@,
        "mapValue"@ != "nullValue"@,
        "mapValue"@ != "booleanValue"@,
        "mapValue"@ != "integerValue"@,
        "mapValue"@ != "doubleValue"@,
        "mapValue"@ != "timestampValue"@,
        "mapValue"@ != "stringValue"@,
        "mapValue"@ != "bytesValue"@,
        "mapValue"@ != "referenceValue"@,
        "mapValue"@ != "geoPointValue"@,
        "mapValue"@ != "arrayValue"@,
{
    reveal_strlit("nullValue");
    reveal_strlit("booleanValue");
    reveal_strlit("integerValue");
    reveal_strlit("doubleValue");
    reveal_strlit("timestampValue");
    reveal_strlit("stringValue");
    reveal_strlit("bytesValue");
    reveal_strlit("referenceValue");
    reveal_strlit("geoPointValue");
    reveal_strlit("arrayValue");
    reveal_strlit("mapValue");
    assert("booleanValue"@[0] != "nullValue"@[0]);
    assert("integerValue"@[0] != "nullValue"@[0]);
    assert("integerValue"@[0] != "booleanValue"@[0]);
    assert("doubleValue"@[0] != "nullValue"@[0]);
    assert("doubleValue"@[0] != "booleanValue"@[0]);
    assert("doubleValue"@[0] != "integerValue"@[0]);
    assert("timestampValue"@[0] != "nullValue"@[0]);
    assert("timestampValue"@[0] != "booleanValue"@[0]);
    assert("timestampValue"@[0] != "integerValue"@[0]);
    assert("timestampValue"@[0] != "doubleValue"@[0]);
    assert("stringValue"@[0] != "nullValue"@[0]);
    assert("stringValue"@[0] != "booleanValue"@[0]);
    assert("stringValue"@[0] != "integerValue"@[0]);
    assert("stringValue"@[0] != "doubleValue"@[0]);
    assert("stringValue"@[0] != "timestampValue"@[0]);
    assert("bytesValue"@[0] != "nullValue"@[0]);
    assert("bytesValue"@[1] != "booleanValue"@[1]);
    assert("bytesValue"@[0] != "integerValue"@[0]);
    assert("bytesValue"@[0] != "doubleValue"@[0]);
    assert("bytesValue"@[0] != "timestampValue"@[0]);
    assert("bytesValue"@[0] != "stringValue"@[0]);
    assert("referenceValue"@[0] != "nullValue"@[0]);
    assert("referenceValue"@[0] != "booleanValue"@[0]);
    assert("referenceValue"@[0] != "integerValue"@[0]);
    assert("referenceValue"@[0] != "doubleValue"@[0]);
    assert("referenceValue"@[0] != "timestampValue"@[0]);
    assert("referenceValue"@[0] != "stringValue"@[0]);
    assert("referenceValue"@[0] != "bytesValue"@[0]);
    assert("geoPointValue"@[0] != "nullValue"@[0]);
    assert("geoPointValue"@[0] != "booleanValue"@[0]);
    assert("geoPointValue"@[0] != "integerValue"@[0]);
    assert("geoPointValue"@[0] != "doubleValue"@[0]);
    assert("geoPointValue"@[0] != "timestampValue"@[0]);
    assert("geoPointValue"@[0] != "stringValue"@[0]);
    assert("geoPointValue"@[0] != "bytesValue"@[0]);
    assert("geoPointValue"@[0] != "referenceValue"@[0]);
    assert("arrayValue"@[0] != "nullValue"@[0]);
    assert("arrayValue"@[0] != "booleanValue"@[0]);
    assert("arrayValue"@[0] != "integerValue"@[0]);
    assert("arrayValue"@[0] != "doubleValue"@[0]);
    assert("arrayValue"@[0] != "timestampValue"@[0]);
    assert("arrayValue"@[0] != "stringValue"@[0]);
    assert("arrayValue"@[0] != "bytesValue"@[0]);
    assert("arrayValue"@[0] != "referenceValue"@[0]);
    assert("arrayValue"@[0] != "geoPointValue"@[0]);
    assert("mapValue"@[0] != "nullValue"@[0]);
    assert("mapValue"@[0] != "booleanValue"@[0]);
    assert("mapValue"@[0] != "integerValue"@[0]);
    assert("mapValue"@[0] != "doubleValue"@[0]);
    assert("mapValue"@[0] != "timestampValue"@[0]);
    assert("mapValue"@[0] != "stringValue"@[0]);
    assert("mapValue"@[0] != "bytesValue"@[0]);
    assert("mapValue"@[0] != "referenceValue"@[0]);
    assert("mapValue"@[0] != "geoPointValue"@[0]);
    assert("mapValue"@[0] != "arrayValue"@[0]);
}

/// Decoding the JSON encoding of a value gives the value back.
pub proof fn lemma_decode_encode(v: ValueModel)
    requires
        encodable(v),
    ensures
        decoded(encoded(v)) == Some(v),
    decreases v,
{
    reveal_strlit("nullValue");
    reveal_strlit("booleanValue");
    reveal_strlit("integerValue");
    reveal_strlit("doubleValue");
    reveal_strlit("timestampValue");
    reveal_strlit("stringValue");
    reveal_strlit("bytesValue");
    reveal_strlit("referenceValue");
    reveal_strlit("geoPointValue");
    reveal_strlit("arrayValue");
    reveal_strlit("mapValue");
    reveal_strlit("values");
    reveal_strlit("fields");
    reveal_strlit("latitude");
    reveal_strlit("longitude");
    lemma_kind_keys_distinct();
    let e = encoded(v);
    match e {
        JsonModel::Object(ms) => {
            let k = ms[0].0;
            let p = ms[0].1;
            assert(ms =~= seq![(k, p)]);
            lemma_single_index(k, p, "nullValue"@);
            lemma_single_index(k, p, "booleanValue"@);
            lemma_single_index(k, p, "integerValue"@);
            lemma_single_index(k, p, "doubleValue"@);
            lemma_single_index(k, p, "timestampValue"@);
            lemma_single_index(k, p, "stringValue"@);
            lemma_single_index(k, p, "bytesValue"@);
            lemma_single_index(k, p, "referenceValue"@);
            lemma_single_index(k, p, "geoPointValue"@);
            lemma_single_index(k, p, "arrayValue"@);
            lemma_single_index(k, p, "mapValue"@);
        },
        _ => {},
    }
    match v {
        ValueModel::Integer(i) => {
            lemma_parse_int_text(i);
            assert(decoded_integer(JsonModel::String(int_text(i as int), None)) == Some(i));
            assert("integerValue"@[0] != "booleanValue"@[0]);
            assert("integerValue"@ != "booleanValue"@);
            let ms = seq![("integerValue"@, JsonModel::String(int_text(i as int), None))];
            assert(encoded(v) == JsonModel::Object(ms));
            assert(member_index(ms, "nullValue"@) == 1);
            assert(member_index(ms, "booleanValue"@) == 1);
            assert(member_index(ms, "integerValue"@) == 0);
            assert(ms[0].1 == JsonModel::String(int_text(i as int), None));
            assert(decoded_object(ms) == Some(ValueModel::Integer(i)));
            assert(decoded(JsonModel::Object(ms)) == decoded_object(ms));
            assert(decoded(encoded(v)) == Some(ValueModel::Integer(i)));
            assert(v == ValueModel::Integer(i));
            assert(decoded(encoded(v)) == Some(v));
        },
        ValueModel::GeoPoint(g) => {
            let gs = seq![
                ("latitude"@, double_number(g.latitude_bits)),
                ("longitude"@, double_number(g.longitude_bits)),
            ];
            assert(member_index(gs, "latitude"@) == 0);
            assert(gs.drop_first()[0].0 == "longitude"@);
            assert(member_index(gs.drop_first(), "longitude"@) == 0);
            assert(member_index(gs, "longitude"@) == 1);
        },
        ValueModel::Array(xs) => {
            lemma_single_index("values"@, JsonModel::Array(encoded_list(xs)), "values"@);
            lemma_decode_encode_list(xs);
        },
        ValueModel::Mapping(es) => {
            lemma_single_index("fields"@, JsonModel::Object(encoded_fields(es)), "fields"@);
            lemma_decode_encode_fields(es);
        },
        ValueModel::Null => {
            assert(decoded(encoded(v)) == Some(v));
        },
        ValueModel::Boolean(b) => {
            assert(decoded(encoded(v)) == Some(v));
        },
        ValueModel::Double(b) => {
            let ms = seq![("doubleValue"@, double_number(b))];
            assert(encoded(v) == JsonModel::Object(ms));
            assert(member_index(ms, "nullValue"@) == 1);
            assert(member_index(ms, "booleanValue"@) == 1);
            assert(member_index(ms, "integerValue"@) == 1);
            assert(member_index(ms, "doubleValue"@) == 0);
            assert(decoded_object(ms) == Some(v));
        },
        ValueModel::Timestamp(t) => {
            let text = rfc3339_utc_text(t.seconds, t.nanos as u32).unwrap();
            assert(timestamp_text(t) == text);
            assert((t.nanos as u32) as i32 == t.nanos);
            assert(decoded_timestamp(text) == Some(t));
            let ms = seq![("timestampValue"@, JsonModel::String(text, None))];
            assert(encoded(v) == JsonModel::Object(ms));
            assert(member_index(ms, "nullValue"@) == 1);
            assert(member_index(ms, "booleanValue"@) == 1);
            assert(member_index(ms, "integerValue"@) == 1);
            assert(member_index(ms, "doubleValue"@) == 1);
            assert(member_index(ms, "timestampValue"@) == 0);
            assert(decoded_object(ms) == Some(v));
        },
        ValueModel::String(b) => {
            assert(decoded(encoded(v)) == Some(v));
        },
        ValueModel::Bytes(b) => {
            assert(decoded(encoded(v)) == Some(v));
        },
        ValueModel::Reference(b) => {
            assert(decoded(encoded(v)) == Some(v));
        },
    }
}

} // verus!
