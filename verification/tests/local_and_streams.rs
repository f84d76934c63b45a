use std::sync::Arc;

use firebase_rs_sdk::firestore::api::converter::{FirestoreDataConverter, PassthroughConverter};
use firebase_rs_sdk::firestore::api::operations::{FieldTransform, TransformOperation};
use firebase_rs_sdk::firestore::api::database::Firestore;
use firebase_rs_sdk::firestore::api::query::{FieldFilter, FilterOperator, Query, QueryDefinition, QuerySnapshot, TypedQuerySnapshot};
use firebase_rs_sdk::firestore::api::snapshot::{DocumentSnapshot, SnapshotMetadata};
use firebase_rs_sdk::firestore::error::{invalid_argument, FirestoreErrorCode, FirestoreResult};
use firebase_rs_sdk::firestore::local::overlay::{
    apply_document_overlays, array_remove, array_union, numeric_increment,
};
use firebase_rs_sdk::firestore::model::{DatabaseId, DocumentKey, FieldPath, ResourcePath};
use firebase_rs_sdk::firestore::remote::datastore::WriteOperation;
use firebase_rs_sdk::firestore::local::memory::TargetMetadataSnapshot;
use firebase_rs_sdk::firestore::local::persistence::{
    decode_document, decode_overlay, decode_target_snapshot, encode_document, encode_overlay,
    encode_target_snapshot,
};
use firebase_rs_sdk::firestore::model::Timestamp;
use firebase_rs_sdk::firestore::remote::http::{
    check_update_request, decode_aggregate_response, decode_run_query_response,
    document_path, document_snapshot_from_response, parse_document_name, request_path,
};
use firebase_rs_sdk::firestore::remote::in_memory::InMemoryDatastore;
use firebase_rs_sdk::firestore::remote::listen::{
    decode_listen_response, encode_unwatch_request, target_change_state_from_str,
    ListenResponse, TargetChangeState,
};
use firebase_rs_sdk::firestore::remote::serializer::JsonProtoSerializer;
use firebase_rs_sdk::firestore::remote::write::decode_write_response;
use firebase_rs_sdk::firestore::test_support::{field_path, resource_path, split_resource_path};
use firebase_rs_sdk::firestore::value::{FirestoreValue, MapValue};
use firebase_rs_sdk::json::{JsonNumber, JsonString, JsonValue};

use firebase_rs_sdk::app::{initialize_app, FirebaseAppSettings, FirebaseOptions};
use firebase_rs_sdk::performance::api::Performance;
use std::time::{Duration, Instant};
use firebase_rs_sdk::performance::error::PerformanceErrorCode;
use firebase_rs_sdk::messaging::subscription::PushSubscriptionManager;
use firebase_rs_sdk::messaging::sw_manager::ServiceWorkerRegistrationHandle;
use firebase_rs_sdk::messaging::sw_manager::ServiceWorkerManager;

fn add_doubles(a: u64, b: u64) -> u64 {
    (f64::from_bits(a) + f64::from_bits(b)).to_bits()
}

fn text(s: &str) -> FirestoreValue {
    FirestoreValue::from_string(s.to_string())
}

fn num(i: i64) -> FirestoreValue {
    FirestoreValue::from_integer(i)
}

fn map_of(entries: Vec<(&str, FirestoreValue)>) -> MapValue {
    MapValue::new(entries.into_iter().map(|(k, v)| (k.to_string(), v)).collect())
}

fn path(s: &str) -> FieldPath {
    FieldPath::from_dot_separated(s).unwrap()
}

fn key(s: &str) -> DocumentKey {
    DocumentKey::from_string(s).unwrap()
}

fn obj(members: Vec<(&str, JsonValue)>) -> JsonValue {
    JsonValue::Object(members.into_iter().map(|(k, v)| (k.to_string(), v)).collect())
}

fn jstr(s: &str) -> JsonValue {
    JsonValue::String(JsonString { text: s.to_string(), as_f64: s.parse::<f64>().ok().map(f64::to_bits) })
}

fn jint(i: i64) -> JsonValue {
    JsonValue::Number(JsonNumber { as_i64: Some(i), as_f64: Some((i as f64).to_bits()) })
}

fn serializer() -> JsonProtoSerializer {
    JsonProtoSerializer::new(DatabaseId::new("project", "(default)"))
}

#[derive(Clone)]
struct NameConverter;

impl FirestoreDataConverter for NameConverter {
    type Model = String;

    fn to_map(&self, value: &String) -> FirestoreResult<MapValue> {
        Ok(map_of(vec![("name", text(value))]))
    }

    fn from_map(&self, value: &MapValue) -> FirestoreResult<String> {
        match value.get("name").and_then(|v| v.as_string()) {
            Some(name) => Ok(name.to_string()),
            None => Err(invalid_argument("missing name field")),
        }
    }
}

#[test]
fn typed_snapshot_uses_converter() {
    let snapshot = DocumentSnapshot::new(
        key("cities/sf"),
        Some(map_of(vec![("name", text("San Francisco"))])),
        SnapshotMetadata::new(false, false),
    );
    let typed = snapshot.into_typed(Arc::new(NameConverter));
    let name = typed.data().unwrap();
    assert_eq!(name.as_deref(), Some("San Francisco"));
}

#[test]
fn passthrough_converter_roundtrip() {
    let map = map_of(vec![("name", text("SF"))]);
    let snapshot = DocumentSnapshot::new(key("cities/sf"), Some(map.clone()), SnapshotMetadata::default());
    let typed = snapshot.into_typed(Arc::new(PassthroughConverter::default()));
    let raw = typed.data().unwrap().unwrap();
    assert!(raw.get("name").unwrap().equals(map.get("name").unwrap()));
}

#[test]
fn typed_snapshot_of_missing_document_has_no_model() {
    let snapshot = DocumentSnapshot::new(key("cities/la"), None, SnapshotMetadata::default());
    let typed = snapshot.to_typed(Arc::new(NameConverter));
    assert!(!typed.document_exists());
    assert!(typed.data().unwrap().is_none());
    assert_eq!(typed.id(), "la");
}

#[test]
fn overlays_surface_pending_mutations() {
    let base = map_of(vec![("name", text("San Francisco"))]);
    let overlay = WriteOperation::Update {
        key: key("cities/sf"),
        data: map_of(vec![("born", num(1900))]),
        field_paths: vec![path("born")],
        transforms: Vec::new(),
    };
    let result = apply_document_overlays(Some(base), &vec![overlay], &add_doubles).unwrap().unwrap();
    assert_eq!(result.get("born").unwrap().as_integer(), Some(1900));
    assert_eq!(result.get("name").unwrap().as_string(), Some("San Francisco"));
}

#[test]
fn delete_overlay_hides_document() {
    let base = map_of(vec![("name", text("SF"))]);
    let overlays = vec![WriteOperation::Delete { key: key("cities/sf") }];
    let result = apply_document_overlays(Some(base), &overlays, &add_doubles).unwrap();
    assert!(result.is_none());
}

#[test]
fn masked_set_overlay_removes_paths_missing_from_data() {
    let base = map_of(vec![("a", num(1)), ("b", num(2))]);
    let overlay = WriteOperation::SetData {
        key: key("c/d"),
        data: map_of(vec![("a", num(10))]),
        mask: Some(vec![path("a"), path("b")]),
        transforms: Vec::new(),
    };
    let result = apply_document_overlays(Some(base), &vec![overlay], &add_doubles).unwrap().unwrap();
    assert_eq!(result.get("a").unwrap().as_integer(), Some(10));
    assert!(result.get("b").is_none());
}

#[test]
fn update_overlay_with_unresolved_path_fails() {
    let overlay = WriteOperation::Update {
        key: key("c/d"),
        data: map_of(vec![]),
        field_paths: vec![path("missing")],
        transforms: Vec::new(),
    };
    let err = apply_document_overlays(None, &vec![overlay], &add_doubles).unwrap_err();
    assert_eq!(err.code, FirestoreErrorCode::InvalidArgument);
}

#[test]
fn transforms_read_the_fields_before_any_transform() {
    let base = map_of(vec![("n", num(5))]);
    let overlay = WriteOperation::SetData {
        key: key("c/d"),
        data: map_of(vec![("n", num(5))]),
        mask: None,
        transforms: vec![
            FieldTransform::new(path("n"), TransformOperation::NumericIncrement(num(1))),
            FieldTransform::new(path("n"), TransformOperation::NumericIncrement(num(2))),
        ],
    };
    let result = apply_document_overlays(Some(base), &vec![overlay], &add_doubles).unwrap().unwrap();
    assert_eq!(result.get("n").unwrap().as_integer(), Some(7));
}

#[test]
fn increment_overflow_becomes_double_sum() {
    let r = numeric_increment(Some(num(i64::MAX)), &num(1), &add_doubles).unwrap();
    assert_eq!(r.as_double_bits(), Some((i64::MAX as f64 + 1.0).to_bits()));
    let r = numeric_increment(Some(FirestoreValue::from_double_bits(1.5f64.to_bits())), &num(2), &add_doubles).unwrap();
    assert_eq!(r.as_double_bits(), Some(3.5f64.to_bits()));
    let r = numeric_increment(Some(text("x")), &num(4), &add_doubles).unwrap();
    assert_eq!(r.as_integer(), Some(4));
    let r = numeric_increment(None, &FirestoreValue::from_double_bits(0.5f64.to_bits()), &add_doubles).unwrap();
    assert_eq!(r.as_double_bits(), Some(0.5f64.to_bits()));
    let err = numeric_increment(Some(num(1)), &text("one"), &add_doubles).unwrap_err();
    assert_eq!(err.code, FirestoreErrorCode::InvalidArgument);
}

#[test]
fn array_union_and_remove() {
    let existing = FirestoreValue::from_array(vec![num(1), num(2)]);
    let union = array_union(Some(existing.clone()), &vec![num(2), num(3), num(3)]);
    let values: Vec<i64> = union.as_array().unwrap().values().iter().map(|v| v.as_integer().unwrap()).collect();
    assert_eq!(values, vec![1, 2, 3]);
    let removed = array_remove(Some(existing), &vec![num(1)]);
    let values: Vec<i64> = removed.as_array().unwrap().values().iter().map(|v| v.as_integer().unwrap()).collect();
    assert_eq!(values, vec![2]);
    let from_nothing = array_union(Some(text("x")), &vec![num(9)]);
    assert_eq!(from_nothing.as_array().unwrap().values().len(), 1);
}

#[test]
fn server_timestamp_transform_stores_a_timestamp() {
    let overlay = WriteOperation::SetData {
        key: key("c/d"),
        data: map_of(vec![]),
        mask: None,
        transforms: vec![FieldTransform::new(path("at"), TransformOperation::ServerTimestamp)],
    };
    let result = apply_document_overlays(None, &vec![overlay], &add_doubles).unwrap().unwrap();
    assert!(matches!(result.get("at").unwrap().kind(), firebase_rs_sdk::firestore::value::ValueKind::Timestamp(_)));
}

#[test]
fn in_memory_get_set() {
    let mut datastore = InMemoryDatastore::new();
    let k = key("cities/sf");
    datastore.set_document(&k, map_of(vec![("name", text("SF"))]), None, Vec::new(), &add_doubles).unwrap();
    let snapshot = datastore.get_document(&k).unwrap();
    assert!(snapshot.document_exists());
    assert_eq!(snapshot.data().unwrap().get("name").unwrap().as_string(), Some("SF"));
    assert!(snapshot.from_cache());
}

#[test]
fn in_memory_update_requires_existing_document() {
    let mut datastore = InMemoryDatastore::new();
    let err = datastore
        .update_document(&key("cities/la"), map_of(vec![("a", num(1))]), vec![path("a")], Vec::new(), &add_doubles)
        .unwrap_err();
    assert_eq!(err.code, FirestoreErrorCode::NotFound);
    assert_eq!(err.message, "Document cities/la does not exist");
}

#[test]
fn in_memory_update_merges_and_delete_clears() {
    let mut datastore = InMemoryDatastore::new();
    let k = key("cities/sf");
    datastore.set_document(&k, map_of(vec![("name", text("SF")), ("pop", num(1))]), None, Vec::new(), &add_doubles).unwrap();
    datastore.update_document(&k, map_of(vec![("pop", num(2))]), vec![path("pop")], Vec::new(), &add_doubles).unwrap();
    let doc = datastore.get_document(&k).unwrap();
    let data = doc.data().unwrap();
    assert_eq!(data.get("pop").unwrap().as_integer(), Some(2));
    assert_eq!(data.get("name").unwrap().as_string(), Some("SF"));
    datastore.delete_document(&k).unwrap();
    assert!(!datastore.get_document(&k).unwrap().document_exists());
    datastore.delete_document(&k).unwrap();
}

#[test]
fn in_memory_masked_set_keeps_other_fields() {
    let mut datastore = InMemoryDatastore::new();
    let k = key("cities/sf");
    datastore.set_document(&k, map_of(vec![("a", num(1)), ("b", num(2))]), None, Vec::new(), &add_doubles).unwrap();
    datastore
        .set_document(&k, map_of(vec![("a", num(5))]), Some(vec![path("a"), path("b")]), Vec::new(), &add_doubles)
        .unwrap();
    let doc = datastore.get_document(&k).unwrap();
    assert_eq!(doc.data().unwrap().get("a").unwrap().as_integer(), Some(5));
    assert_eq!(doc.data().unwrap().get("b").unwrap().as_integer(), Some(2));
}

#[test]
fn in_memory_transforms_see_earlier_transforms() {
    let mut datastore = InMemoryDatastore::new();
    let k = key("c/d");
    let transforms = vec![
        FieldTransform::new(path("n"), TransformOperation::NumericIncrement(num(1))),
        FieldTransform::new(path("n"), TransformOperation::NumericIncrement(num(2))),
    ];
    datastore.set_document(&k, map_of(vec![("n", num(5))]), None, transforms, &add_doubles).unwrap();
    let doc = datastore.get_document(&k).unwrap();
    assert_eq!(doc.data().unwrap().get("n").unwrap().as_integer(), Some(8));
}

#[test]
fn in_memory_commit_stops_at_first_failure() {
    let mut datastore = InMemoryDatastore::new();
    let writes = vec![
        WriteOperation::SetData { key: key("c/a"), data: map_of(vec![("x", num(1))]), mask: None, transforms: Vec::new() },
        WriteOperation::Update { key: key("c/missing"), data: map_of(vec![("x", num(2))]), field_paths: vec![path("x")], transforms: Vec::new() },
        WriteOperation::SetData { key: key("c/b"), data: map_of(vec![("x", num(3))]), mask: None, transforms: Vec::new() },
    ];
    let err = datastore.commit(writes, &add_doubles).unwrap_err();
    assert_eq!(err.code, FirestoreErrorCode::NotFound);
    assert!(datastore.get_document(&key("c/a")).unwrap().document_exists());
    assert!(!datastore.get_document(&key("c/b")).unwrap().document_exists());
}

#[test]
fn in_memory_query_returns_collection_documents() {
    let mut datastore = InMemoryDatastore::new();
    for (k, pop) in [("cities/sf", 5), ("cities/la", 10), ("towns/x", 7)] {
        datastore.set_document(&key(k), map_of(vec![("pop", num(pop))]), None, Vec::new(), &add_doubles).unwrap();
    }
    let mut definition = QueryDefinition::new(ResourcePath::from_string("cities").unwrap());
    let all = datastore.run_query(&definition).unwrap();
    let ids: Vec<&str> = all.iter().map(|d| d.id()).collect();
    assert_eq!(ids, vec!["la", "sf"]);
    definition.filters.push(FieldFilter::new(path("pop"), FilterOperator::GreaterThan, num(6)));
    let filtered = datastore.run_query(&definition).unwrap();
    assert_eq!(filtered.len(), 1);
    assert_eq!(filtered[0].id(), "la");
}

#[test]
fn listen_stream_decodes_target_change() {
    let message = obj(vec![(
        "targetChange",
        obj(vec![
            ("targetIds", JsonValue::Array(vec![jint(1)])),
            ("resumeToken", jstr("AQID")),
            ("targetChangeType", jstr("CURRENT")),
        ]),
    )]);
    match decode_listen_response(&serializer(), &message).unwrap() {
        ListenResponse::TargetChange(change) => {
            assert_eq!(change.target_ids, vec![1]);
            assert_eq!(change.resume_token, Some(vec![1, 2, 3]));
            assert_eq!(change.state, Some(TargetChangeState::Current));
            assert!(change.read_time.is_none());
            assert!(change.cause.is_none());
        },
        other => panic!("unexpected response {other:?}"),
    }
}

#[test]
fn listen_decodes_other_responses() {
    let s = serializer();
    let delete = obj(vec![(
        "documentDelete",
        obj(vec![
            ("document", jstr("projects/project/databases/(default)/documents/c/d")),
            ("readTime", jstr("2021-01-01T00:00:00Z")),
            ("removedTargetIds", JsonValue::Array(vec![jint(2), jstr("x"), jint(3)])),
        ]),
    )]);
    match decode_listen_response(&s, &delete).unwrap() {
        ListenResponse::DocumentDelete(d) => {
            assert_eq!(d.removed_target_ids, vec![2, 3]);
            assert_eq!(d.read_time.unwrap().seconds, 1609459200);
        },
        other => panic!("unexpected response {other:?}"),
    }
    let filter = obj(vec![("filter", obj(vec![("targetId", jint(4)), ("count", jint(9))]))]);
    match decode_listen_response(&s, &filter).unwrap() {
        ListenResponse::Filter(f) => {
            assert_eq!((f.target_id, f.count), (4, 9));
        },
        other => panic!("unexpected response {other:?}"),
    }
    let unknown = obj(vec![("somethingElse", jint(1))]);
    assert!(matches!(decode_listen_response(&s, &unknown).unwrap(), ListenResponse::Unknown(_)));
    let missing = obj(vec![("documentRemove", obj(vec![]))]);
    assert_eq!(decode_listen_response(&s, &missing).unwrap_err().code, FirestoreErrorCode::Internal);
    let bad_time = obj(vec![("targetChange", obj(vec![("readTime", jstr("yesterday"))]))]);
    assert_eq!(decode_listen_response(&s, &bad_time).unwrap_err().code, FirestoreErrorCode::InvalidArgument);
}

#[test]
fn listen_decodes_causes() {
    let s = serializer();
    let with_cause = obj(vec![(
        "targetChange",
        obj(vec![
            ("targetChangeType", jstr("REMOVE")),
            ("cause", obj(vec![("code", jint(7)), ("message", jstr("denied"))])),
        ]),
    )]);
    match decode_listen_response(&s, &with_cause).unwrap() {
        ListenResponse::TargetChange(change) => {
            let cause = change.cause.unwrap();
            assert_eq!(cause.code, 7);
            assert_eq!(cause.message.as_deref(), Some("denied"));
            assert_eq!(change.state, Some(TargetChangeState::Remove));
        },
        other => panic!("unexpected response {other:?}"),
    }
    let bad_cause = obj(vec![("targetChange", obj(vec![("cause", obj(vec![("message", jstr("no code"))]))]))]);
    assert_eq!(decode_listen_response(&s, &bad_cause).unwrap_err().code, FirestoreErrorCode::Internal);
    assert_eq!(target_change_state_from_str("ADD"), TargetChangeState::Add);
    assert_eq!(target_change_state_from_str("bogus"), TargetChangeState::NoChange);
}

#[test]
fn unwatch_request_names_database_and_target() {
    match encode_unwatch_request(&serializer(), 5) {
        JsonValue::Object(members) => {
            assert_eq!(members.len(), 2);
            assert_eq!(members[0].0, "database");
            assert!(matches!(&members[0].1, JsonValue::String(s) if s.text == "projects/project/databases/(default)"));
            assert_eq!(members[1].0, "removeTarget");
            assert!(matches!(&members[1].1, JsonValue::Number(n) if n.as_i64 == Some(5)));
        },
        other => panic!("unexpected request {other:?}"),
    }
}

#[test]
fn run_query_fetches_documents() {
    let response = JsonValue::Array(vec![
        obj(vec![(
            "document",
            obj(vec![
                ("name", jstr("projects/project/databases/(default)/documents/cities/LA")),
                ("fields", obj(vec![("name", obj(vec![("stringValue", jstr("Los Angeles"))]))])),
            ]),
        )]),
        obj(vec![("readTime", jstr("2021-01-01T00:00:00Z"))]),
        obj(vec![(
            "document",
            obj(vec![
                ("name", jstr("projects/project/databases/(default)/documents/cities/SF")),
                ("fields", obj(vec![("name", obj(vec![("stringValue", jstr("San Francisco"))]))])),
            ]),
        )]),
    ]);
    let snapshots = decode_run_query_response(&serializer(), &response).unwrap();
    let names: Vec<&str> = snapshots.iter().map(|s| s.id()).collect();
    assert_eq!(names, vec!["LA", "SF"]);
    assert_eq!(snapshots[1].data().unwrap().get("name").unwrap().as_string(), Some("San Francisco"));
    let not_array = obj(vec![]);
    assert_eq!(decode_run_query_response(&serializer(), &not_array).unwrap_err().code, FirestoreErrorCode::Internal);
}

#[test]
fn document_names_must_belong_to_the_database() {
    let s = serializer();
    let k = parse_document_name(&s, "projects/project/databases/(default)/documents/cities/SF").unwrap();
    assert_eq!(k.id(), "SF");
    let err = parse_document_name(&s, "projects/other/databases/(default)/documents/cities/SF").unwrap_err();
    assert_eq!(err.code, FirestoreErrorCode::Internal);
    let err = parse_document_name(&s, "projects/project/databases/(default)/documents/cities").unwrap_err();
    assert_eq!(err.code, FirestoreErrorCode::InvalidArgument);
}

#[test]
fn request_paths() {
    assert_eq!(request_path(&ResourcePath::root(), "runQuery"), "documents:runQuery");
    assert_eq!(
        request_path(&ResourcePath::from_string("cities/SF").unwrap(), "runAggregationQuery"),
        "documents/cities/SF:runAggregationQuery"
    );
    assert_eq!(document_path(&key("cities/SF")), "documents/cities/SF");
    let err = check_update_request(&Vec::new(), &Vec::new()).unwrap_err();
    assert_eq!(err.code, FirestoreErrorCode::InvalidArgument);
    assert!(check_update_request(&vec![path("a")], &Vec::new()).is_ok());
}

#[test]
fn lookup_response_becomes_snapshot() {
    let s = serializer();
    let found = obj(vec![("fields", obj(vec![("n", obj(vec![("integerValue", jstr("3"))]))]))]);
    let snap = document_snapshot_from_response(&s, key("c/d"), Some(&found)).unwrap();
    assert_eq!(snap.data().unwrap().get("n").unwrap().as_integer(), Some(3));
    assert!(!snap.from_cache());
    let missing = document_snapshot_from_response(&s, key("c/d"), None).unwrap();
    assert!(!missing.document_exists());
}

#[test]
fn aggregate_response_collects_aliases() {
    let response = JsonValue::Array(vec![obj(vec![(
        "result",
        obj(vec![(
            "aggregateFields",
            obj(vec![("count", obj(vec![("integerValue", jstr("2"))]))]),
        )]),
    )])]);
    let aggregates = decode_aggregate_response(&response).unwrap();
    assert_eq!(aggregates.get("count").unwrap().as_integer(), Some(2));
    let empty = JsonValue::Array(vec![obj(vec![("readTime", jstr("x"))])]);
    assert_eq!(decode_aggregate_response(&empty).unwrap_err().code, FirestoreErrorCode::Internal);
}

#[test]
fn write_response_decodes_results() {
    let response = obj(vec![
        ("streamToken", jstr("AQI=")),
        ("commitTime", jstr("2021-01-01T00:00:01Z")),
        (
            "writeResults",
            JsonValue::Array(vec![obj(vec![
                ("updateTime", jstr("2021-01-01T00:00:01Z")),
                ("transformResults", JsonValue::Array(vec![obj(vec![("integerValue", jstr("4"))])])),
            ])]),
        ),
    ]);
    let decoded = decode_write_response(&serializer(), &response).unwrap();
    assert_eq!(decoded.stream_token, vec![1, 2]);
    assert_eq!(decoded.commit_time.unwrap().seconds, 1609459201);
    assert_eq!(decoded.write_results.len(), 1);
    assert_eq!(decoded.write_results[0].transform_results[0].as_integer(), Some(4));
    let missing = obj(vec![]);
    assert_eq!(decode_write_response(&serializer(), &missing).unwrap_err().code, FirestoreErrorCode::Internal);
}

#[test]
fn test_support_paths() {
    assert_eq!(resource_path(&["a", "b"]).canonical_string(), "a/b");
    assert_eq!(field_path(&["a", "b"]).unwrap().canonical_string(), "a.b");
    assert_eq!(field_path(&[]).unwrap_err().code, FirestoreErrorCode::InvalidArgument);
    assert_eq!(split_resource_path("x/y/z").len(), 3);
}

#[test]
fn trace_records_duration_and_metrics() {
    let options = FirebaseOptions { project_id: Some("project".into()), ..Default::default() };
    let settings = FirebaseAppSettings { name: Some("performance-0".into()), automatic_data_collection_enabled: None };
    let app = initialize_app(options, Some(settings)).unwrap();
    let mut performance = Performance::new(app);
    let mut trace = performance.new_trace("load").unwrap();
    trace.put_metric("items", 3).unwrap();
    let waited = Instant::now();
    while waited.elapsed() < Duration::from_millis(10) {}
    let result = trace.stop(&mut performance).unwrap();
    assert_eq!(result.metric("items"), Some(3));
    assert!(result.duration >= Duration::from_millis(10));
    let stored = performance.recorded_trace("load").unwrap();
    assert_eq!(stored.metric("items"), Some(3));
}

#[test]
fn blank_trace_and_metric_names_are_refused() {
    let options = FirebaseOptions { project_id: Some("project".into()), ..Default::default() };
    let settings = FirebaseAppSettings { name: Some("performance-1".into()), automatic_data_collection_enabled: None };
    let performance = Performance::new(initialize_app(options, Some(settings)).unwrap());
    assert_eq!(performance.new_trace("  ").err().unwrap().code, PerformanceErrorCode::InvalidArgument);
    let mut trace = performance.new_trace("t").unwrap();
    assert_eq!(trace.put_metric("", 1).unwrap_err().code, PerformanceErrorCode::InvalidArgument);
    trace.put_metric("m", 1).unwrap();
    trace.put_metric("m", 2).unwrap();
    assert!(performance.recorded_trace("t").is_none());
}

#[test]
fn native_subscribe_reports_unsupported() {
    let mut manager = PushSubscriptionManager::new();
    assert!(manager.cached_subscription().is_none());
    let registration = ServiceWorkerRegistrationHandle;
    let err = manager.subscribe(&registration, "test").unwrap_err();
    assert_eq!(err.code_str(), "messaging/unsupported-browser");
}

#[test]
fn native_manager_reports_unsupported() {
    let mut manager = ServiceWorkerManager::new();
    assert!(manager.registration().is_none());
    let err = manager.register_default().unwrap_err();
    assert_eq!(err.code_str(), "messaging/unsupported-browser");
}

#[test]
fn persisted_document_reads_back() {
    let s = serializer();
    let snapshot = DocumentSnapshot::new(
        key("cities/sf"),
        Some(map_of(vec![("name", text("SF")), ("pop", num(9))])),
        SnapshotMetadata::new(true, false),
    );
    let record = encode_document(&s, &snapshot);
    let back = decode_document(&s, &record).unwrap();
    assert_eq!(back.id(), "sf");
    assert!(back.from_cache());
    assert!(!back.has_pending_writes());
    assert_eq!(back.data().unwrap().get("pop").unwrap().as_integer(), Some(9));
    let missing = DocumentSnapshot::new(key("cities/la"), None, SnapshotMetadata::new(false, true));
    let back = decode_document(&s, &encode_document(&s, &missing)).unwrap();
    assert!(!back.document_exists());
    assert!(back.has_pending_writes());
    assert!(decode_document(&s, &obj(vec![("key", jstr("cities"))])).is_none());
}

#[test]
fn persisted_target_metadata_reads_back() {
    let snapshot = TargetMetadataSnapshot {
        target_id: 7,
        resume_token: Some(vec![1, 2, 3]),
        snapshot_version: Some(Timestamp::new(12, 34)),
        current: true,
        remote_keys: vec![key("cities/sf"), key("cities/la")],
    };
    let record = encode_target_snapshot(&snapshot);
    let back = decode_target_snapshot(&record).unwrap();
    assert_eq!(back.target_id, 7);
    assert_eq!(back.resume_token, Some(vec![1, 2, 3]));
    assert_eq!(back.snapshot_version, Some(Timestamp::new(12, 34)));
    assert!(back.current);
    let ids: Vec<&str> = back.remote_keys.iter().map(|k| k.id()).collect();
    assert_eq!(ids, vec!["sf", "la"]);
    let bare = obj(vec![("targetId", jint(3)), ("remoteKeys", JsonValue::Array(vec![jstr("bad"), jstr("c/d")]))]);
    let back = decode_target_snapshot(&bare).unwrap();
    assert_eq!(back.remote_keys.len(), 1);
    assert!(!back.current && back.resume_token.is_none() && back.snapshot_version.is_none());
    assert!(decode_target_snapshot(&obj(vec![])).is_none());
}

#[test]
fn persisted_overlay_names_its_document() {
    let writes = vec![WriteOperation::Delete { key: key("cities/sf") }];
    let record = encode_overlay(&key("cities/sf"), &writes);
    assert_eq!(decode_overlay(&record).unwrap().id(), "sf");
}

fn cities_query(app_name: &str) -> Query {
    let options = FirebaseOptions { project_id: Some("project".into()), ..Default::default() };
    let settings = FirebaseAppSettings { name: Some(app_name.to_string()), automatic_data_collection_enabled: None };
    let app = initialize_app(options, Some(settings)).unwrap();
    let firestore = Firestore::new(app, DatabaseId::new("project", "(default)"));
    Query::new(firestore, ResourcePath::from_string("cities").unwrap()).unwrap()
}

#[test]
fn query_snapshot_lists_its_documents() {
    let docs = vec![
        DocumentSnapshot::new(key("cities/la"), Some(map_of(vec![("name", text("LA"))])), SnapshotMetadata::default()),
        DocumentSnapshot::new(key("cities/sf"), Some(map_of(vec![("name", text("SF"))])), SnapshotMetadata::default()),
    ];
    let snapshot = QuerySnapshot::new(cities_query("query-snapshot-1"), docs);
    assert_eq!(snapshot.len(), 2);
    assert!(!snapshot.is_empty());
    assert_eq!(snapshot.query().collection_id(), "cities");
    assert_eq!(snapshot.documents()[1].id(), "sf");
    let typed = TypedQuerySnapshot::new(snapshot, Arc::new(NameConverter));
    let names: Vec<String> = typed.documents().iter().map(|d| d.data().unwrap().unwrap()).collect();
    assert_eq!(names, vec!["LA".to_string(), "SF".to_string()]);
    assert_eq!(typed.raw().len(), 2);
    let owned = typed.into_documents();
    assert_eq!(owned[0].id(), "la");
    let empty = QuerySnapshot::new(cities_query("query-snapshot-2"), Vec::new());
    assert!(empty.is_empty());
}

#[test]
fn converted_query_keeps_the_raw_query() {
    let converted = cities_query("converted-query-1").with_converter(NameConverter);
    assert_eq!(converted.raw().collection_id(), "cities");
}

#[test]
fn listen_decodes_cause_written_as_array() {
    let s = serializer();
    let with_cause = obj(vec![(
        "targetChange",
        obj(vec![
            ("targetChangeType", jstr("REMOVE")),
            ("cause", JsonValue::Array(vec![jint(7), jstr("denied")])),
        ]),
    )]);
    match decode_listen_response(&s, &with_cause).unwrap() {
        ListenResponse::TargetChange(change) => {
            let cause = change.cause.unwrap();
            assert_eq!(cause.code, 7);
            assert_eq!(cause.message.as_deref(), Some("denied"));
        },
        other => panic!("unexpected response {other:?}"),
    }
    let code_only = obj(vec![("targetChange", obj(vec![("cause", JsonValue::Array(vec![jint(3)]))]))]);
    match decode_listen_response(&s, &code_only).unwrap() {
        ListenResponse::TargetChange(change) => assert_eq!(change.cause.unwrap().code, 3),
        other => panic!("unexpected response {other:?}"),
    }
}

#[test]
fn query_builders_keep_the_rest_of_the_definition() {
    use_query_builders();
}

fn use_query_builders() {
    let q = cities_query("builders-1")
        .start_at(firebase_rs_sdk::firestore::api::query::Bound::new(vec![num(1)], true))
        .where_filter(FieldFilter::new(path("a"), FilterOperator::Equal, num(1)))
        .limit_to_last(2)
        .unwrap();
    let d = q.definition();
    assert!(d.start_at.is_some());
    assert_eq!(d.filters.len(), 1);
    assert_eq!(d.limit, Some(2));
    assert_eq!(q.collection_path().len(), 1);
    assert_eq!(q.collection_id(), "cities");
}
