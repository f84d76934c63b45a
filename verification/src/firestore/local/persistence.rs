//! The JSON records in which the local store persists documents, target
//! metadata and overlay keys.
use vstd::prelude::*;

use crate::firestore::api::snapshot::{DocModel, DocumentSnapshot, SnapshotMetadata};
use crate::firestore::model::document_key::is_document_path;
use crate::firestore::model::resource_path::{lemma_parse_render, parse_resource_path, render_path, well_formed_segments};
use crate::firestore::model::DocumentKey;
use crate::firestore::remote::http::document_fields;
use crate::firestore::local::memory::TargetMetadataSnapshot;
use crate::firestore::model::Timestamp;
use crate::firestore::remote::datastore::{write_key, WriteOperation};
use crate::firestore::remote::listen::int_of;
use crate::firestore::remote::serializer::{
    base64_bytes, base64_reads_back, base64_text, decode_base64, encodable, encode_base64,
    encoded_fields, lemma_decode_encode_map, single, JsonProtoSerializer,
};
use crate::firestore::remote::syncer_bridge::{key_views, token_view};
use crate::firestore::value::value::keys_sorted;
use crate::json::{
    json_find, json_member, json_models, json_str, lemma_json_container_views, lemma_json_models,
    lemma_member_models, member_models, JsonModel, JsonNumber, JsonValue,
};
use crate::text::{is_blank, join_with, owned};

verus! {

/// The boolean held by an optional member; false when there is none.
pub open spec fn bool_or_false(v: Option<JsonModel>) -> bool {
    match v {
        Some(JsonModel::Bool(b)) => b,
        _ => false,
    }
}

/// The text of an optional member, when it is a string.
pub open spec fn member_text(v: Option<JsonModel>) -> Option<Seq<char>> {
    match v {
        Some(x) => json_str(x),
        None => None,
    }
}

/// The record of a document: its fields (when it exists), whether it came
/// from the cache or has pending writes, and its path.
pub open spec fn encoded_document(d: DocModel) -> JsonModel {
    let flags = seq![
        ("fromCache"@, JsonModel::Bool(d.metadata.from_cache)),
        ("hasPendingWrites"@, JsonModel::Bool(d.metadata.has_pending_writes)),
        ("key"@, JsonModel::String(render_path(d.key), None)),
    ];
    match d.data {
        Some(f) => JsonModel::Object(
            seq![("fields"@, single("fields"@, JsonModel::Object(encoded_fields(f))))] + flags,
        ),
        None => JsonModel::Object(flags),
    }
}

/// The document path a text names, if it names one.
#[verifier::opaque]
pub open spec fn document_path_of(text: Seq<char>) -> Option<Seq<Seq<char>>> {
    match parse_resource_path(text) {
        Some(p) => if is_document_path(p) {
            Some(p)
        } else {
            None
        },
        None => None,
    }
}

/// The document a record holds: it must be an object whose `key` names a
/// document; absent flags are false, and fields that do not decode are
/// dropped.
pub open spec fn decoded_document(v: JsonModel) -> Option<DocModel> {
    match v {
        JsonModel::Object(ms) => match member_text(json_find(ms, "key"@)) {
            None => None,
            Some(k) => match document_path_of(k) {
                Some(p) => Some(
                    DocModel {
                        key: p,
                        data: match json_find(ms, "fields"@) {
                            Some(f) => document_fields(f),
                            None => None,
                        },
                        metadata: SnapshotMetadata {
                            from_cache: bool_or_false(json_find(ms, "fromCache"@)),
                            has_pending_writes: bool_or_false(json_find(ms, "hasPendingWrites"@)),
                        },
                    },
                ),
                None => None,
            },
        },
        _ => None,
    }
}

/// A JSON boolean.
fn boolean(b: bool) -> (v: JsonValue)
    ensures
        v@ == JsonModel::Bool(b),
{
    let v = JsonValue::Bool(b);
    proof {
        lemma_json_container_views(v);
    }
    v
}

/// The record of a document snapshot.
pub fn encode_document(serializer: &JsonProtoSerializer, snapshot: &DocumentSnapshot) -> (r: JsonValue)
    ensures
        r@ == encoded_document(snapshot@),
{
    let mut members: Vec<(String, JsonValue)> = Vec::new();
    let ghost d = snapshot@;
    match snapshot.map_value() {
        Some(map) => {
            members.push((owned("fields"), serializer.encode_document_fields(map)));
        },
        None => {},
    }
    members.push((owned("fromCache"), boolean(snapshot.from_cache())));
    members.push((owned("hasPendingWrites"), boolean(snapshot.has_pending_writes())));
    let key = snapshot.document_key().path().canonical_string();
    members.push((owned("key"), JsonValue::string(key)));
    proof {
        lemma_member_models(members@);
        let flags = seq![
            ("fromCache"@, JsonModel::Bool(d.metadata.from_cache)),
            ("hasPendingWrites"@, JsonModel::Bool(d.metadata.has_pending_writes)),
            ("key"@, JsonModel::String(render_path(d.key), None)),
        ];
        match d.data {
            Some(f) => {
                assert(member_models(members@) =~= seq![("fields"@, single("fields"@, JsonModel::Object(encoded_fields(f))))] + flags);
            },
            None => {
                assert(member_models(members@) =~= flags);
            },
        }
    }
    JsonValue::object(members)
}

/// The boolean held by an optional member.
fn read_bool(v: Option<&JsonValue>) -> (r: bool)
    ensures
        r == bool_or_false(match v {
            Some(x) => Some(x@),
            None => None,
        }),
{
    match v {
        Some(x) => {
            proof {
                lemma_json_container_views(*x);
            }
            match x {
                JsonValue::Bool(b) => *b,
                _ => false,
            }
        },
        None => false,
    }
}

/// The document snapshot a record holds.
pub fn decode_document(serializer: &JsonProtoSerializer, value: &JsonValue) -> (r: Option<DocumentSnapshot>)
    ensures
        match r {
            Some(s) => decoded_document(value@) == Some(s@),
            None => decoded_document(value@) is None,
        },
{
    let members = match value.as_object() {
        Some(ms) => ms,
        None => {
            return None;
        },
    };
    let ghost ms = member_models(members@);
    let key_text = match value.get("key") {
        Some(k) => match k.as_str() {
            Some(t) => t,
            None => {
                return None;
            },
        },
        None => {
            return None;
        },
    };
    let key = match DocumentKey::from_string(key_text) {
        Ok(k) => k,
        Err(_) => {
            proof {
                reveal(document_path_of);
            }
            return None;
        },
    };
    proof {
        reveal(document_path_of);
    }
    let from_cache = read_bool(value.get("fromCache"));
    let has_pending = read_bool(value.get("hasPendingWrites"));
    let data = match value.get("fields") {
        Some(fields) => match serializer.decode_document_fields(fields) {
            Ok(Some(m)) => Some(m),
            Ok(None) => None,
            Err(_) => None,
        },
        None => None,
    };
    Some(DocumentSnapshot::new(key, data, SnapshotMetadata::new(from_cache, has_pending)))
}

/// The member of a sequence of members with a given key, for members whose
/// keys differ.
proof fn lemma_find_distinct(ms: Seq<(Seq<char>, JsonModel)>, i: int)
    requires
        0 <= i < ms.len(),
        forall|a: int, b: int| 0 <= a < b < ms.len() ==> (#[trigger] ms[a]).0 != (#[trigger] ms[b]).0,
    ensures
        json_find(ms, ms[i].0) == Some(ms[i].1),
{
    crate::json::lemma_member_index(ms, ms[i].0);
    let k = crate::json::member_index(ms, ms[i].0);
    if k != i {
        if k < i {
            assert(ms[k].0 == ms[i].0);
        } else {
            assert(ms[i].0 != ms[i].0);
        }
    }
}

/// A key absent from a sequence of members is found nowhere.
proof fn lemma_find_absent(ms: Seq<(Seq<char>, JsonModel)>, key: Seq<char>)
    requires
        forall|a: int| 0 <= a < ms.len() ==> (#[trigger] ms[a]).0 != key,
    ensures
        json_find(ms, key) is None,
{
    crate::json::lemma_member_index(ms, key);
}

/// The rendering of a path of two or more segments is not blank: it holds a
/// slash.
proof fn lemma_render_not_blank(segments: Seq<Seq<char>>)
    requires
        segments.len() >= 2,
    ensures
        !is_blank(render_path(segments)),
{
    let pre = join_with(segments.drop_last(), seq!['/']);
    assert(render_path(segments) == pre + seq!['/'] + segments.last());
    assert(render_path(segments)[pre.len() as int] == '/');
}

/// The member names of a document record have different lengths.
proof fn lemma_record_key_lengths()
    ensures
        "fields"@.len() == 6,
        "fromCache"@.len() == 9,
        "hasPendingWrites"@.len() == 16,
        "key"@.len() == 3,
{
    reveal_strlit("fields");
    reveal_strlit("fromCache");
    reveal_strlit("hasPendingWrites");
    reveal_strlit("key");
}

/// The flags of a document record are found under their names.
proof fn lemma_flags_found(ms: Seq<(Seq<char>, JsonModel)>, d: DocModel)
    requires
        ms.len() >= 3,
        ms[ms.len() - 3] == ("fromCache"@, JsonModel::Bool(d.metadata.from_cache)),
        ms[ms.len() - 2] == ("hasPendingWrites"@, JsonModel::Bool(d.metadata.has_pending_writes)),
        ms[ms.len() - 1] == ("key"@, JsonModel::String(render_path(d.key), None)),
        ms.len() == 3 || (ms.len() == 4 && ms[0].0 == "fields"@),
    ensures
        json_find(ms, "fromCache"@) == Some(JsonModel::Bool(d.metadata.from_cache)),
        json_find(ms, "hasPendingWrites"@) == Some(JsonModel::Bool(d.metadata.has_pending_writes)),
        json_find(ms, "key"@) == Some(JsonModel::String(render_path(d.key), None)),
        ms.len() == 3 ==> json_find(ms, "fields"@) is None,
        ms.len() == 4 ==> json_find(ms, "fields"@) == Some(ms[0].1),
{
    lemma_record_key_lengths();
    assert forall|a: int, b: int| 0 <= a < b < ms.len() implies (#[trigger] ms[a]).0 != (#[trigger] ms[b]).0 by {
        assert(ms[a].0.len() != ms[b].0.len());
    }
    lemma_find_distinct(ms, ms.len() - 3);
    lemma_find_distinct(ms, ms.len() - 2);
    lemma_find_distinct(ms, ms.len() - 1);
    if ms.len() == 4 {
        lemma_find_distinct(ms, 0);
    } else {
        assert forall|a: int| 0 <= a < ms.len() implies (#[trigger] ms[a]).0 != "fields"@ by {
            assert(ms[a].0.len() != 6);
        }
        lemma_find_absent(ms, "fields"@);
    }
}

/// The path of a document reads back from its rendering.
proof fn lemma_key_round_trip(key: Seq<Seq<char>>)
    requires
        is_document_path(key),
        well_formed_segments(key),
    ensures
        document_path_of(render_path(key)) == Some(key),
{
    lemma_render_not_blank(key);
    lemma_parse_render(key);
    reveal(document_path_of);
}

/// A stored document reads back as itself when its path is made of
/// non-empty segments without slashes and its fields are a key-ordered map
/// of values whose encoding reads back.
pub proof fn lemma_document_round_trip(d: DocModel)
    requires
        is_document_path(d.key),
        well_formed_segments(d.key),
        d.data matches Some(f) ==> keys_sorted(f) && forall|i: int|
            0 <= i < f.len() ==> encodable(#[trigger] f[i].1),
    ensures
        decoded_document(encoded_document(d)) == Some(d),
{
    lemma_key_round_trip(d.key);
    let flags = seq![
        ("fromCache"@, JsonModel::Bool(d.metadata.from_cache)),
        ("hasPendingWrites"@, JsonModel::Bool(d.metadata.has_pending_writes)),
        ("key"@, JsonModel::String(render_path(d.key), None)),
    ];
    let ms = match d.data {
        Some(f) => seq![("fields"@, single("fields"@, JsonModel::Object(encoded_fields(f))))] + flags,
        None => flags,
    };
    assert(encoded_document(d) == JsonModel::Object(ms));
    lemma_flags_found(ms, d);
    let data = match json_find(ms, "fields"@) {
        Some(fj) => document_fields(fj),
        None => None,
    };
    assert(data == d.data) by {
        match d.data {
            Some(f) => {
                let fp = single("fields"@, JsonModel::Object(encoded_fields(f)));
                lemma_decode_encode_map(f);
                lemma_find_distinct(seq![("fields"@, JsonModel::Object(encoded_fields(f)))], 0);
                assert(json_find(ms, "fields"@) == Some(fp));
            },
            None => {},
        }
    }
}

/// A JSON integer.
pub open spec fn int_json(i: i64) -> JsonModel {
    JsonModel::Number(JsonNumber { as_i64: Some(i), as_f64: None })
}

/// The rendered paths of a list of keys, as JSON strings.
pub open spec fn key_texts(ks: Seq<Seq<Seq<char>>>) -> Seq<JsonModel> {
    ks.map_values(|k: Seq<Seq<char>>| JsonModel::String(render_path(k), None))
}

/// The record of a target's metadata.
pub open spec fn encoded_target(
    id: i32,
    token: Option<Seq<u8>>,
    version: Option<Timestamp>,
    current: bool,
    keys: Seq<Seq<Seq<char>>>,
) -> JsonModel {
    JsonModel::Object(
        seq![
            ("current"@, JsonModel::Bool(current)),
            ("remoteKeys"@, JsonModel::Array(key_texts(keys))),
            ("resumeToken"@, match token {
                Some(t) => JsonModel::String(base64_text(t), None),
                None => JsonModel::Null,
            }),
            ("snapshotVersion"@, match version {
                Some(ts) => JsonModel::Object(
                    seq![("nanos"@, int_json(ts.nanos as i64)), ("seconds"@, int_json(ts.seconds))],
                ),
                None => JsonModel::Null,
            }),
            ("targetId"@, int_json(id as i64)),
        ],
    )
}

/// The document paths named by the strings of a list, in order; other
/// entries are skipped.
pub open spec fn parsed_keys(xs: Seq<JsonModel>) -> Seq<Seq<Seq<char>>>
    decreases xs.len(),
{
    if xs.len() == 0 {
        Seq::<Seq<Seq<char>>>::empty()
    } else {
        let prev = parsed_keys(xs.drop_last());
        match json_str(xs.last()) {
            Some(t) => match document_path_of(t) {
                Some(p) => prev.push(p),
                None => prev,
            },
            None => prev,
        }
    }
}

/// The metadata a target record holds: its id (which must be there), its
/// resume token (dropped when it is not base64), its snapshot version (when
/// both parts are integers), whether it is current, and its remote keys.
pub open spec fn decoded_target(v: JsonModel) -> Option<(i32, Option<Seq<u8>>, Option<Timestamp>, bool, Seq<Seq<Seq<char>>>)> {
    match int_of(json_member(v, "targetId"@)) {
        None => None,
        Some(id) => Some(
            (
                id as i32,
                match member_text(json_member(v, "resumeToken"@)) {
                    Some(t) => base64_bytes(t),
                    None => None,
                },
                match json_member(v, "snapshotVersion"@) {
                    Some(j) => match (int_of(json_member(j, "seconds"@)), int_of(json_member(j, "nanos"@))) {
                        (Some(sec), Some(n)) => Some(Timestamp { seconds: sec, nanos: n as i32 }),
                        _ => None,
                    },
                    None => None,
                },
                bool_or_false(json_member(v, "current"@)),
                match json_member(v, "remoteKeys"@) {
                    Some(JsonModel::Array(xs)) => parsed_keys(xs),
                    _ => Seq::<Seq<Seq<char>>>::empty(),
                },
            ),
        ),
    }
}

/// The JSON strings of the rendered paths of some keys.
fn key_strings(keys: &Vec<DocumentKey>) -> (r: Vec<JsonValue>)
    ensures
        json_models(r@) == key_texts(key_views(keys@)),
{
    let mut out: Vec<JsonValue> = Vec::new();
    let mut i: usize = 0;
    while i < keys.len()
        invariant
            i <= keys@.len(),
            out@.len() == i,
            forall|k: int| 0 <= k < i ==> (#[trigger] out@[k])@ == JsonModel::String(render_path(keys@[k]@), None),
        decreases keys@.len() - i,
    {
        out.push(JsonValue::string(keys[i].path().canonical_string()));
        i = i + 1;
    }
    proof {
        lemma_json_models(out@);
        assert(json_models(out@) =~= key_texts(key_views(keys@)));
    }
    out
}

/// An object of the given members, in order.
fn object_of(members: Vec<(String, JsonValue)>) -> (r: JsonValue)
    ensures
        r@ == JsonModel::Object(member_models(members@)),
{
    JsonValue::object(members)
}

/// The record of a target's metadata.
pub fn encode_target_snapshot(snapshot: &TargetMetadataSnapshot) -> (r: JsonValue)
    ensures
        r@ == encoded_target(
            snapshot.target_id,
            token_view(snapshot.resume_token),
            snapshot.snapshot_version,
            snapshot.current,
            key_views(snapshot.remote_keys@),
        ),
{
    let current = boolean(snapshot.current);
    let remote_keys = JsonValue::array(key_strings(&snapshot.remote_keys));
    let resume_token = match &snapshot.resume_token {
        Some(token) => JsonValue::string(encode_base64(token.as_slice())),
        None => JsonValue::Null,
    };
    let version = match snapshot.snapshot_version {
        Some(ts) => {
            let mut parts: Vec<(String, JsonValue)> = Vec::new();
            parts.push((owned("nanos"), JsonValue::integer(ts.nanos as i64)));
            parts.push((owned("seconds"), JsonValue::integer(ts.seconds)));
            proof {
                lemma_member_models(parts@);
                assert(member_models(parts@) =~= seq![("nanos"@, int_json(ts.nanos as i64)), ("seconds"@, int_json(ts.seconds))]);
            }
            object_of(parts)
        },
        None => JsonValue::Null,
    };
    proof {
        lemma_json_container_views(resume_token);
        lemma_json_container_views(version);
    }
    let target_id = JsonValue::integer(snapshot.target_id as i64);
    assert(current@ == JsonModel::Bool(snapshot.current));
    assert(remote_keys@ == JsonModel::Array(key_texts(key_views(snapshot.remote_keys@))));
    assert(resume_token@ == match token_view(snapshot.resume_token) {
        Some(t) => JsonModel::String(base64_text(t), None),
        None => JsonModel::Null,
    });
    assert(version@ == match snapshot.snapshot_version {
        Some(ts) => JsonModel::Object(
            seq![("nanos"@, int_json(ts.nanos as i64)), ("seconds"@, int_json(ts.seconds))],
        ),
        None => JsonModel::Null,
    });
    assert(target_id@ == int_json(snapshot.target_id as i64));
    let ghost vs = (current@, remote_keys@, resume_token@, version@, target_id@);
    let mut members: Vec<(String, JsonValue)> = Vec::new();
    members.push((owned("current"), current));
    members.push((owned("remoteKeys"), remote_keys));
    members.push((owned("resumeToken"), resume_token));
    members.push((owned("snapshotVersion"), version));
    members.push((owned("targetId"), target_id));
    proof {
        lemma_member_models(members@);
        assert(member_models(members@) =~= seq![
            ("current"@, vs.0),
            ("remoteKeys"@, vs.1),
            ("resumeToken"@, vs.2),
            ("snapshotVersion"@, vs.3),
            ("targetId"@, vs.4),
        ]);
        let expected = encoded_target(
            snapshot.target_id,
            token_view(snapshot.resume_token),
            snapshot.snapshot_version,
            snapshot.current,
            key_views(snapshot.remote_keys@),
        );
        assert(expected matches JsonModel::Object(ems) && ems =~= member_models(members@));
    }
    JsonValue::object(members)
}

/// The `i64` held by an optional member.
fn read_int(v: Option<&JsonValue>) -> (r: Option<i64>)
    ensures
        r == int_of(match v {
            Some(x) => Some(x@),
            None => None,
        }),
{
    match v {
        Some(x) => x.as_i64(),
        None => None,
    }
}

/// The document keys named by the strings of a list.
fn read_keys(xs: &Vec<JsonValue>) -> (r: Vec<DocumentKey>)
    ensures
        key_views(r@) == parsed_keys(json_models(xs@)),
{
    proof {
        lemma_json_models(xs@);
    }
    let ghost ms = json_models(xs@);
    let mut keys: Vec<DocumentKey> = Vec::new();
    assert(ms.take(0) =~= Seq::<JsonModel>::empty());
    assert(key_views(keys@) =~= Seq::<Seq<Seq<char>>>::empty());
    let mut i: usize = 0;
    while i < xs.len()
        invariant
            i <= xs@.len(),
            ms == json_models(xs@),
            ms.len() == xs@.len(),
            forall|k: int| 0 <= k < xs@.len() ==> #[trigger] ms[k] == xs@[k]@,
            key_views(keys@) == parsed_keys(ms.take(i as int)),
        decreases xs@.len() - i,
    {
        proof {
            let t = ms.take(i + 1);
            assert(t.drop_last() =~= ms.take(i as int));
            assert(t.last() == xs@[i as int]@);
            reveal(document_path_of);
        }
        match xs[i].as_str() {
            Some(text) => match DocumentKey::from_string(text) {
                Ok(k) => {
                    let ghost before = keys@;
                    keys.push(k);
                    assert(key_views(keys@) =~= key_views(before).push(keys@.last()@));
                },
                Err(_) => {},
            },
            None => {},
        }
        i = i + 1;
    }
    assert(ms.take(ms.len() as int) =~= ms);
    keys
}

/// The metadata of a target read from its record.
pub fn decode_target_snapshot(value: &JsonValue) -> (r: Option<TargetMetadataSnapshot>)
    ensures
        match r {
            Some(s) => decoded_target(value@) == Some(
                (
                    s.target_id,
                    token_view(s.resume_token),
                    s.snapshot_version,
                    s.current,
                    key_views(s.remote_keys@),
                ),
            ),
            None => decoded_target(value@) is None,
        },
{
    let target_id = match read_int(value.get("targetId")) {
        Some(i) => i as i32,
        None => {
            return None;
        },
    };
    let resume_token = match value.get("resumeToken") {
        Some(t) => match t.as_str() {
            Some(text) => match decode_base64(text) {
                Ok(bytes) => Some(bytes),
                Err(_) => None,
            },
            None => None,
        },
        None => None,
    };
    let snapshot_version = match value.get("snapshotVersion") {
        Some(j) => match (read_int(j.get("seconds")), read_int(j.get("nanos"))) {
            (Some(seconds), Some(nanos)) => Some(Timestamp::new(seconds, nanos as i32)),
            _ => None,
        },
        None => None,
    };
    let current = read_bool(value.get("current"));
    let remote_keys = match value.get("remoteKeys") {
        Some(a) => match a.as_array() {
            Some(xs) => read_keys(xs),
            None => Vec::new(),
        },
        None => Vec::new(),
    };
    assert(remote_keys@.len() == 0 ==> key_views(remote_keys@) =~= Seq::<Seq<Seq<char>>>::empty());
    Some(TargetMetadataSnapshot { target_id, resume_token, snapshot_version, current, remote_keys })
}

/// The record of the overlay of a document: its path and the paths of the
/// documents its writes target.
pub open spec fn encoded_overlay(key: Seq<Seq<char>>, writes: Seq<Seq<Seq<char>>>) -> JsonModel {
    JsonModel::Object(
        seq![
            ("key"@, JsonModel::String(render_path(key), None)),
            ("writes"@, JsonModel::Array(key_texts(writes))),
        ],
    )
}

/// The document an overlay record is kept for.
pub open spec fn decoded_overlay(v: JsonModel) -> Option<Seq<Seq<char>>> {
    match member_text(json_member(v, "key"@)) {
        Some(t) => document_path_of(t),
        None => None,
    }
}

/// The keys targeted by a list of writes.
pub open spec fn write_keys(ws: Seq<WriteOperation>) -> Seq<Seq<Seq<char>>> {
    ws.map_values(|w: WriteOperation| write_key(w)@)
}

/// The record of the overlay of `key`.
pub fn encode_overlay(key: &DocumentKey, overlay: &Vec<WriteOperation>) -> (r: JsonValue)
    ensures
        r@ == encoded_overlay(key@, write_keys(overlay@)),
{
    let mut paths: Vec<JsonValue> = Vec::new();
    let mut i: usize = 0;
    while i < overlay.len()
        invariant
            i <= overlay@.len(),
            paths@.len() == i,
            forall|k: int| 0 <= k < i ==> (#[trigger] paths@[k])@ == JsonModel::String(render_path(write_key(overlay@[k])@), None),
        decreases overlay@.len() - i,
    {
        paths.push(JsonValue::string(overlay[i].key().path().canonical_string()));
        i = i + 1;
    }
    proof {
        lemma_json_models(paths@);
        assert(json_models(paths@) =~= key_texts(write_keys(overlay@)));
    }
    let key_json = JsonValue::string(key.path().canonical_string());
    let writes_json = JsonValue::array(paths);
    let ghost vs = (key_json@, writes_json@);
    let mut members: Vec<(String, JsonValue)> = Vec::new();
    members.push((owned("key"), key_json));
    members.push((owned("writes"), writes_json));
    proof {
        lemma_member_models(members@);
        assert(member_models(members@) =~= seq![("key"@, vs.0), ("writes"@, vs.1)]);
    }
    JsonValue::object(members)
}

/// The document an overlay record is kept for.
pub fn decode_overlay(value: &JsonValue) -> (r: Option<DocumentKey>)
    ensures
        match r {
            Some(k) => decoded_overlay(value@) == Some(k@),
            None => decoded_overlay(value@) is None,
        },
{
    proof {
        reveal(document_path_of);
    }
    match value.get("key") {
        Some(k) => match k.as_str() {
            Some(text) => match DocumentKey::from_string(text) {
                Ok(key) => Some(key),
                Err(_) => None,
            },
            None => None,
        },
        None => None,
    }
}

/// The member names of target and overlay records have different lengths.
proof fn lemma_target_key_lengths()
    ensures
        "current"@.len() == 7,
        "remoteKeys"@.len() == 10,
        "resumeToken"@.len() == 11,
        "snapshotVersion"@.len() == 15,
        "targetId"@.len() == 8,
        "nanos"@.len() == 5,
        "seconds"@.len() == 7,
        "key"@.len() == 3,
        "writes"@.len() == 6,
{
    reveal_strlit("current");
    reveal_strlit("remoteKeys");
    reveal_strlit("resumeToken");
    reveal_strlit("snapshotVersion");
    reveal_strlit("targetId");
    reveal_strlit("nanos");
    reveal_strlit("seconds");
    reveal_strlit("key");
    reveal_strlit("writes");
}

/// Members with names of different lengths are each found under their name.
proof fn lemma_find_all(ms: Seq<(Seq<char>, JsonModel)>)
    requires
        forall|a: int, b: int| 0 <= a < b < ms.len() ==> (#[trigger] ms[a]).0.len() != (#[trigger] ms[b]).0.len(),
    ensures
        forall|i: int| 0 <= i < ms.len() ==> json_find(ms, (#[trigger] ms[i]).0) == Some(ms[i].1),
{
    assert forall|i: int| 0 <= i < ms.len() implies json_find(ms, (#[trigger] ms[i]).0) == Some(ms[i].1) by {
        lemma_find_distinct(ms, i);
    }
}

/// Stored paths of documents read back as the same paths.
proof fn lemma_keys_round_trip(keys: Seq<Seq<Seq<char>>>)
    requires
        forall|i: int| 0 <= i < keys.len() ==> is_document_path(#[trigger] keys[i]) && well_formed_segments(keys[i]),
    ensures
        parsed_keys(key_texts(keys)) == keys,
    decreases keys.len(),
{
    if keys.len() > 0 {
        let init = keys.drop_last();
        assert forall|i: int| 0 <= i < init.len() implies is_document_path(#[trigger] init[i]) && well_formed_segments(init[i]) by {
            assert(init[i] == keys[i]);
        }
        lemma_keys_round_trip(init);
        assert(key_texts(keys).drop_last() =~= key_texts(init));
        lemma_key_round_trip(keys.last());
        assert(keys =~= init.push(keys.last()));
    } else {
        assert(key_texts(keys) =~= Seq::<JsonModel>::empty());
    }
}

/// Stored target metadata reads back as itself when its remote keys are
/// paths of non-empty segments without slashes and its resume token's base64
/// text decodes back to it.
pub proof fn lemma_target_round_trip(
    id: i32,
    token: Option<Seq<u8>>,
    version: Option<Timestamp>,
    current: bool,
    keys: Seq<Seq<Seq<char>>>,
)
    requires
        forall|i: int| 0 <= i < keys.len() ==> is_document_path(#[trigger] keys[i]) && well_formed_segments(keys[i]),
        token matches Some(t) ==> base64_reads_back(t),
    ensures
        decoded_target(encoded_target(id, token, version, current, keys)) == Some((id, token, version, current, keys)),
{
    lemma_target_key_lengths();
    let v = encoded_target(id, token, version, current, keys);
    let ms = v->Object_0;
    assert(ms[0].0 == "current"@ && ms[1].0 == "remoteKeys"@ && ms[2].0 == "resumeToken"@);
    assert(ms[3].0 == "snapshotVersion"@ && ms[4].0 == "targetId"@);
    lemma_find_all(ms);
    assert(json_member(v, "targetId"@) == Some(ms[4].1));
    assert(json_member(v, "resumeToken"@) == Some(ms[2].1));
    assert(json_member(v, "snapshotVersion"@) == Some(ms[3].1));
    assert(json_member(v, "current"@) == Some(ms[0].1));
    assert(json_member(v, "remoteKeys"@) == Some(ms[1].1));
    match version {
        Some(ts) => {
            let inner = seq![("nanos"@, int_json(ts.nanos as i64)), ("seconds"@, int_json(ts.seconds))];
            lemma_find_all(inner);
            assert(json_find(inner, "seconds"@) == Some(inner[1].1));
            assert(json_find(inner, "nanos"@) == Some(inner[0].1));
        },
        None => {},
    }
    lemma_keys_round_trip(keys);
}

/// A stored overlay record names the document it is kept for, when the
/// document's path is made of non-empty segments without slashes.
pub proof fn lemma_overlay_round_trip(key: Seq<Seq<char>>, writes: Seq<Seq<Seq<char>>>)
    requires
        is_document_path(key),
        well_formed_segments(key),
    ensures
        decoded_overlay(encoded_overlay(key, writes)) == Some(key),
{
    lemma_target_key_lengths();
    let ms = encoded_overlay(key, writes)->Object_0;
    lemma_find_all(ms);
    assert(json_find(ms, "key"@) == Some(ms[0].1));
    lemma_key_round_trip(key);
}

} // verus!
