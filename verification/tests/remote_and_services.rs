use firebase_rs_sdk::app::{initialize_app, FirebaseAppSettings, FirebaseOptions};
use firebase_rs_sdk::firestore::error::{internal_error, unauthenticated, FirestoreErrorCode};
use firebase_rs_sdk::firestore::model::{DatabaseId, DocumentKey, Timestamp};
use firebase_rs_sdk::firestore::remote::datastore::should_retry;
use firebase_rs_sdk::firestore::remote::mutation::{MutationBatch, MutationBatchResult, WriteResult};
use firebase_rs_sdk::firestore::remote::rpc_error::{map_http_error, map_status_code};
use firebase_rs_sdk::firestore::remote::serializer::{decode_value, encode_value, JsonProtoSerializer};
use firebase_rs_sdk::firestore::remote::stream::{FrameKind, StreamId, TransportFrame};
use firebase_rs_sdk::firestore::remote::syncer_bridge::MutationQueue;
use firebase_rs_sdk::firestore::remote::datastore::WriteOperation;
use firebase_rs_sdk::firestore::value::{BytesValue, FirestoreValue, MapValue, ValueKind};
use firebase_rs_sdk::installations::api::Installations;
use firebase_rs_sdk::installations::rest::parse_expires_in;
use firebase_rs_sdk::installations::error::InstallationsErrorCode;
use firebase_rs_sdk::json::{JsonNumber, JsonString, JsonValue};
use firebase_rs_sdk::messaging::api::Messaging;
use firebase_rs_sdk::messaging::token_store::{TokenRecord, TokenStore};

fn app(name: &str) -> firebase_rs_sdk::app::FirebaseApp {
    let options = FirebaseOptions { project_id: Some("project".into()), ..Default::default() };
    let settings = FirebaseAppSettings { name: Some(name.into()), automatic_data_collection_enabled: None };
    initialize_app(options, Some(settings)).unwrap()
}

fn map_of(entries: Vec<(&str, FirestoreValue)>) -> MapValue {
    MapValue::new(entries.into_iter().map(|(k, v)| (k.to_string(), v)).collect())
}

fn obj(members: Vec<(&str, JsonValue)>) -> JsonValue {
    JsonValue::Object(members.into_iter().map(|(k, v)| (k.to_string(), v)).collect())
}

fn jstr(s: &str) -> JsonValue {
    JsonValue::String(JsonString { text: s.to_string(), as_f64: s.parse::<f64>().ok().map(f64::to_bits) })
}

#[test]
fn encode_decode_roundtrip() {
    let inner = map_of(vec![("flag", FirestoreValue::from_bool(true))]);
    let map = map_of(vec![
        ("name", FirestoreValue::from_string("Ada".to_string())),
        ("age", FirestoreValue::from_integer(42)),
        ("nested", FirestoreValue::from_map(inner)),
    ]);
    let serializer = JsonProtoSerializer::new(DatabaseId::default("project"));
    let encoded = serializer.encode_document_fields(&map);
    let decoded = serializer.decode_document_fields(&encoded).unwrap();
    assert!(decoded.is_some());
    let decoded_map = decoded.unwrap();
    assert!(decoded_map.get("name").unwrap().equals(&FirestoreValue::from_string("Ada".to_string())));
    assert!(decoded_map.get("age").unwrap().equals(&FirestoreValue::from_integer(42)));
}

#[test]
fn values_of_every_kind_round_trip() {
    let values = vec![
        FirestoreValue::null(),
        FirestoreValue::from_bool(false),
        FirestoreValue::from_integer(i64::MIN),
        FirestoreValue::from_double_bits(1.5f64.to_bits()),
        FirestoreValue::from_timestamp(Timestamp::new(1_700_000_000, 123_456_789)),
        FirestoreValue::from_string("héllo".to_string()),
        FirestoreValue::from_bytes(BytesValue::from(vec![0, 1, 2, 255])),
        FirestoreValue::from_reference("projects/p/databases/(default)/documents/a/b".to_string()),
        FirestoreValue::from_array(vec![FirestoreValue::from_integer(1), FirestoreValue::null()]),
    ];
    for v in values {
        let json = encode_value(&v);
        let back = decode_value(&json).unwrap();
        assert!(back.equals(&v));
    }
}

#[test]
fn integers_are_written_as_decimal_text() {
    let json = encode_value(&FirestoreValue::from_integer(-9007));
    match json {
        JsonValue::Object(members) => {
            assert_eq!(members[0].0, "integerValue");
            match &members[0].1 {
                JsonValue::String(s) => assert_eq!(s.text, "-9007"),
                _ => panic!("not a string"),
            }
        }
        _ => panic!("not an object"),
    }
}

#[test]
fn decoding_rejects_malformed_values() {
    let bad_int = obj(vec![("integerValue", jstr("12x"))]);
    assert_eq!(decode_value(&bad_int).unwrap_err().code, FirestoreErrorCode::InvalidArgument);
    let too_big = obj(vec![("integerValue", jstr("9223372036854775808"))]);
    assert!(decode_value(&too_big).is_err());
    let unknown = obj(vec![("somethingElse", JsonValue::Null)]);
    assert!(decode_value(&unknown).is_err());
    let not_object = JsonValue::Bool(true);
    assert!(decode_value(&not_object).is_err());
    let bad_bytes = obj(vec![("bytesValue", jstr("!!!"))]);
    assert!(decode_value(&bad_bytes).is_err());
    let geo = obj(vec![(
        "geoPointValue",
        obj(vec![
            ("latitude", JsonValue::Number(JsonNumber { as_i64: None, as_f64: Some(95.0f64.to_bits()) })),
            ("longitude", JsonValue::Number(JsonNumber { as_i64: None, as_f64: Some(0.0f64.to_bits()) })),
        ]),
    )]);
    assert!(decode_value(&geo).is_err());
}

#[test]
fn decoding_reads_numbers_and_strings() {
    let int_number = obj(vec![("integerValue", JsonValue::Number(JsonNumber { as_i64: Some(7), as_f64: Some(7.0f64.to_bits()) }))]);
    assert!(decode_value(&int_number).unwrap().equals(&FirestoreValue::from_integer(7)));
    let double_text = obj(vec![("doubleValue", jstr("2.25"))]);
    assert!(decode_value(&double_text).unwrap().equals(&FirestoreValue::from_double_bits(2.25f64.to_bits())));
    let null_then_bool = obj(vec![("nullValue", JsonValue::Bool(true)), ("booleanValue", JsonValue::Bool(true))]);
    assert!(decode_value(&null_then_bool).unwrap().equals(&FirestoreValue::from_bool(true)));
    let empty_array = obj(vec![("arrayValue", obj(vec![]))]);
    match decode_value(&empty_array).unwrap().kind() {
        ValueKind::Array(a) => assert_eq!(a.values().len(), 0),
        _ => panic!("not an array"),
    }
}

#[test]
fn resource_names_are_built_from_the_database() {
    let serializer = JsonProtoSerializer::new(DatabaseId::new("demo", "(default)"));
    assert_eq!(serializer.database_name(), "projects/demo/databases/(default)");
    let key = DocumentKey::from_string("cities/sf").unwrap();
    assert_eq!(serializer.document_name(&key), "projects/demo/databases/(default)/documents/cities/sf");
}

#[test]
fn transport_frame_serialization_roundtrip() {
    let frame = TransportFrame::data(StreamId::new(7), b"payload".to_vec());
    let encoded = frame.to_envelope().expect("encode");
    let decoded = TransportFrame::from_envelope(&encoded).expect("decode");
    assert_eq!(decoded.stream_id().value(), 7);
    match decoded.kind() {
        FrameKind::Data(bytes) => assert_eq!(bytes, b"payload"),
        other => panic!("unexpected frame kind: {other:?}"),
    }
}

#[test]
fn error_frames_have_no_envelope() {
    let frame = TransportFrame::error(StreamId::new(1), internal_error("boom"));
    assert_eq!(frame.to_envelope().unwrap_err().code, FirestoreErrorCode::Internal);
    let bad = obj(vec![("stream_id", JsonValue::Number(JsonNumber { as_i64: Some(-1), as_f64: None })), ("type", jstr("open"))]);
    assert!(TransportFrame::from_envelope(&bad).is_err());
}

#[test]
fn retries_unauthenticated_errors() {
    let error = unauthenticated("expired");
    assert!(should_retry(3, 0, &error));
    assert!(should_retry(3, 1, &error));
    assert!(!should_retry(3, 2, &error));
}

#[test]
fn stops_retrying_after_max_attempts() {
    let error = internal_error("boom");
    assert!(!should_retry(1, 0, &error));
}

#[test]
fn http_errors_map_to_codes() {
    let body = obj(vec![("error", obj(vec![("message", jstr("no such doc")), ("status", jstr("NOT_FOUND"))]))]);
    let e = map_http_error(404, Some(&body));
    assert_eq!(e.code, FirestoreErrorCode::NotFound);
    assert_eq!(e.message, "no such doc");
    let e = map_http_error(409, Some(&body));
    assert_eq!(e.code, FirestoreErrorCode::NotFound);
    let e = map_http_error(418, None);
    assert_eq!(e.code, FirestoreErrorCode::InvalidArgument);
    assert_eq!(e.message, "I'm a teapot");
    let e = map_http_error(599, None);
    assert_eq!(e.code, FirestoreErrorCode::Internal);
    let e = map_http_error(200, None);
    assert_eq!(e.message, "Received HTTP 200 while handling error");
    let e = map_status_code("WEIRD", "x");
    assert_eq!(e.code, FirestoreErrorCode::Internal);
    assert_eq!(e.message, "Unhandled Firestore error status: WEIRD");
}

fn batch(id: i32) -> MutationBatch {
    let key = DocumentKey::from_string("cities/sf").unwrap();
    MutationBatch::from_writes(id, Timestamp::new(1, 0), vec![WriteOperation::Delete { key }])
}

#[test]
fn mutation_queue_keeps_ids_in_order() {
    let mut queue = MutationQueue::new();
    queue.enqueue(batch(5)).unwrap();
    queue.enqueue(batch(2)).unwrap();
    queue.enqueue(batch(9)).unwrap();
    assert_eq!(queue.pending_batch_ids(), vec![2, 5, 9]);
    let err = queue.enqueue(batch(5)).unwrap_err();
    assert_eq!(err.message, "Duplicate mutation batch id 5 queued");
    assert_eq!(queue.next_after(None).unwrap().batch_id, 2);
    assert_eq!(queue.next_after(Some(2)).unwrap().batch_id, 5);
    assert!(queue.next_after(Some(9)).is_none());
    assert_eq!(queue.remove(5).unwrap().batch_id, 5);
    assert_eq!(queue.pending_batch_ids(), vec![2, 9]);
    assert_eq!(queue.remove(5).unwrap_err().message, "Mutation batch 5 not found in queue");
}

#[test]
fn batch_results_need_one_result_per_write() {
    let result = MutationBatchResult::from(batch(3), Some(Timestamp::new(10, 0)), vec![]);
    assert_eq!(result.unwrap_err().message, "Mutation batch 3 expected 1 write results but received 0");
    let ok = MutationBatchResult::from(
        batch(3),
        Some(Timestamp::new(10, 0)),
        vec![WriteResult { update_time: None, transform_results: vec![] }],
    )
    .unwrap();
    assert_eq!(ok.batch_id(), 3);
    assert_eq!(ok.doc_versions.len(), 1);
    assert_eq!(ok.doc_versions[0].1, Some(Timestamp::new(10, 0)));
}

#[test]
fn get_id_generates_consistent_fid() {
    let mut installations = Installations::new(app("installations-1"));
    let fid1 = installations.get_id().unwrap();
    let fid2 = installations.get_id().unwrap();
    assert_eq!(fid1, fid2);
    assert_eq!(fid1.len(), 22);
}

#[test]
fn token_refreshes() {
    let mut installations = Installations::new(app("installations-2"));
    let token1 = installations.get_token(false).unwrap();
    let token2 = installations.get_token(true).unwrap();
    assert_ne!(token1.token, token2.token);
}

#[test]
fn parse_expires_in_rejects_invalid_format() {
    let err = parse_expires_in("1000ms").unwrap_err();
    assert!(matches!(err.code, InstallationsErrorCode::InvalidArgument));
    assert_eq!(parse_expires_in("3600s").unwrap(), 3600);
    assert!(parse_expires_in("-5s").is_err());
}

#[test]
fn token_is_stable_until_deleted() {
    let mut store = TokenStore::new();
    let messaging = Messaging::new(app("messaging-1"));
    let token1 = messaging.get_token(&mut store, None).unwrap();
    let token2 = messaging.get_token(&mut store, None).unwrap();
    assert_eq!(token1, token2);
    messaging.delete_token(&mut store).unwrap();
    let token3 = messaging.get_token(&mut store, None).unwrap();
    assert_ne!(token1, token3);
}

#[test]
fn get_token_with_empty_vapid_key_returns_error() {
    let mut store = TokenStore::new();
    let messaging = Messaging::new(app("messaging-2"));
    let err = messaging.get_token(&mut store, Some(" ")).unwrap_err();
    assert_eq!(err.code_str(), "messaging/invalid-argument");
}

#[test]
fn delete_token_without_existing_token_returns_error() {
    let mut store = TokenStore::new();
    let messaging = Messaging::new(app("messaging-3"));
    let err = messaging.delete_token(&mut store).unwrap_err();
    assert_eq!(err.code_str(), "messaging/token-deletion-failed");
}

#[test]
fn token_persists_across_messaging_instances() {
    let mut store = TokenStore::new();
    let shared = app("messaging-4");
    let messaging = Messaging::new(shared.clone());
    let token1 = messaging.get_token(&mut store, None).unwrap();
    let messaging_again = Messaging::new(shared);
    let token2 = messaging_again.get_token(&mut store, None).unwrap();
    assert_eq!(token1, token2);
    messaging_again.delete_token(&mut store).unwrap();
}

#[test]
fn expired_tokens_are_replaced() {
    let mut store = TokenStore::new();
    let messaging = Messaging::new(app("messaging-5"));
    let t1 = messaging.get_token_at(&mut store, None, 1_000, "first".to_string()).unwrap();
    let t2 = messaging.get_token_at(&mut store, None, 2_000, "second".to_string()).unwrap();
    assert_eq!(t1, "first");
    assert_eq!(t2, "first");
    let t3 = messaging.get_token_at(&mut store, None, 1_000 + 604_800_000, "third".to_string()).unwrap();
    assert_eq!(t3, "third");
    let record = store.read("messaging-5").unwrap();
    assert_eq!(record.create_time_ms, 1_000 + 604_800_000);
    let old = TokenRecord { token: "x".into(), create_time_ms: 10, subscription: None };
    assert!(old.is_expired(20, 10));
    assert!(!old.is_expired(5, 10));
}

#[test]
fn generated_ids_and_tokens_are_alphanumeric() {
    let mut installations = Installations::new(app("installations-3"));
    let fid = installations.get_id().unwrap();
    assert!(fid.chars().all(|c| c.is_ascii_alphanumeric()));
    let token = installations.get_token(true).unwrap();
    assert_eq!(token.token.len(), 40);
    assert!(token.token.chars().all(|c| c.is_ascii_alphanumeric()));
    let now = std::time::SystemTime::now()
        .duration_since(std::time::UNIX_EPOCH)
        .unwrap()
        .as_millis() as u64;
    assert!(token.expires_at_ms >= now + 3_600_000 - 60_000);
    assert!(token.expires_at_ms <= now + 3_600_000);
    assert_eq!(installations.get_id().unwrap(), fid);
    let again = installations.get_token(false).unwrap();
    assert_eq!(again.token, token.token);
}
