use firebase_rs_sdk::app::{initialize_app, FirebaseAppSettings, FirebaseOptions};
use firebase_rs_sdk::firestore::api::database::Firestore;
use firebase_rs_sdk::firestore::api::operations::{
    encode_document_data, encode_set_data, encode_update_document_data, SetOptions,
};
use firebase_rs_sdk::firestore::api::query::{
    Bound, FieldFilter, FilterOperator, OrderDirection, Query,
};
use firebase_rs_sdk::firestore::api::snapshot::{DocumentSnapshot, SnapshotMetadata};
use firebase_rs_sdk::firestore::model::{DatabaseId, DocumentKey, FieldPath, ResourcePath};
use firebase_rs_sdk::firestore::query_evaluator::{
    apply_query_to_documents, compare_values, evaluate_filter,
};
use firebase_rs_sdk::firestore::value::number::int_to_double;
use firebase_rs_sdk::firestore::value::{FirestoreValue, MapValue, ValueKind};
use firebase_rs_sdk::text::Order;

fn text(s: &str) -> FirestoreValue {
    FirestoreValue::from_string(s.to_string())
}

fn map_of(entries: Vec<(&str, FirestoreValue)>) -> MapValue {
    MapValue::new(entries.into_iter().map(|(k, v)| (k.to_string(), v)).collect())
}

#[test]
fn snapshot_presence() {
    let key = DocumentKey::from_string("coll/doc").unwrap();
    let snapshot = DocumentSnapshot::new(key, None, SnapshotMetadata::default());
    assert!(!snapshot.document_exists());
}

#[test]
fn snapshot_reports_existence() {
    let key = DocumentKey::from_string("cities/sf").unwrap();
    let snapshot = DocumentSnapshot::new(key, None, SnapshotMetadata::default());
    assert!(!snapshot.document_exists());
}

#[test]
fn map_encodes() {
    let data = map_of(vec![("name", text("Ada"))]);
    let map = encode_document_data(data).unwrap();
    assert!(map.contains_key("name"));
}

#[test]
fn merge_collects_field_paths() {
    let stats = map_of(vec![("visits", FirestoreValue::from_integer(42))]);
    let data = map_of(vec![("stats", FirestoreValue::from_map(stats))]);
    let options = SetOptions::merge_all();
    let (_map, mask) = encode_set_data(data, &options).unwrap();
    let mask = mask.expect("mask");
    assert_eq!(mask.len(), 1);
    assert_eq!(mask[0].canonical_string(), "stats.visits");
}

#[test]
fn merge_fields_validate_presence() {
    let options =
        SetOptions::merge_fields(vec![FieldPath::from_dot_separated("display").unwrap()]).unwrap();
    let result = encode_set_data(map_of(vec![("display", text("Ada"))]), &options);
    assert!(result.is_ok());

    let missing =
        SetOptions::merge_fields(vec![FieldPath::from_dot_separated("missing").unwrap()]).unwrap();
    let err = encode_set_data(map_of(vec![("display", text("Ada"))]), &missing).unwrap_err();
    assert_eq!(err.code_str(), "firestore/invalid-argument");
}

#[test]
fn update_paths_include_nested_fields() {
    let stats = map_of(vec![("visits", FirestoreValue::from_integer(42))]);
    let data = map_of(vec![("name", text("Ada")), ("stats", FirestoreValue::from_map(stats))]);
    let (_map, paths) = encode_update_document_data(data).unwrap();
    let mut mask: Vec<String> = paths.into_iter().map(|path| path.canonical_string()).collect();
    mask.sort();
    assert_eq!(mask, vec!["name", "stats.visits"]);
}

#[test]
fn update_requires_fields() {
    let err = encode_update_document_data(MapValue::empty()).unwrap_err();
    assert_eq!(err.code_str(), "firestore/invalid-argument");
}

#[test]
fn stores_map_entries() {
    let value = map_of(vec![("foo", FirestoreValue::from_integer(1))]);
    let got = value.get("foo").unwrap();
    assert!(got.equals(&FirestoreValue::from_integer(1)));
}

#[test]
fn builds_basic_values() {
    let v = text("hello");
    match v.kind() {
        ValueKind::String(value) => assert_eq!(value, "hello"),
        _ => panic!("unexpected kind"),
    }
}

fn build_query() -> Query {
    let options = FirebaseOptions { project_id: Some("test".into()), ..Default::default() };
    let settings = FirebaseAppSettings { name: Some("query-evaluator".into()), automatic_data_collection_enabled: None };
    let app = initialize_app(options, Some(settings)).unwrap();
    let firestore = Firestore::new(app, DatabaseId::new("test", "(default)"));
    let path = ResourcePath::from_string("cities").unwrap();
    Query::new(firestore, path).unwrap()
}

fn snapshot_for(id: &str, population: i64) -> DocumentSnapshot {
    let key = DocumentKey::from_string(&format!("cities/{id}")).unwrap();
    let map = map_of(vec![("population", FirestoreValue::from_integer(population))]);
    DocumentSnapshot::new(key, Some(map), SnapshotMetadata::new(false, false))
}

#[test]
fn applies_limit_and_ordering() {
    let query = build_query()
        .order_by(FieldPath::from_dot_separated("population").unwrap(), OrderDirection::Ascending)
        .unwrap()
        .limit(2)
        .unwrap();
    let definition = query.definition();
    let docs = vec![snapshot_for("sf", 100), snapshot_for("nyc", 50), snapshot_for("la", 75)];
    let result = apply_query_to_documents(docs, definition);
    assert_eq!(result.len(), 2);
    assert_eq!(result[0].id(), "nyc");
    assert_eq!(result[1].id(), "la");
}

#[test]
fn limit_to_last_keeps_the_tail_in_order() {
    let query = build_query()
        .order_by(FieldPath::from_dot_separated("population").unwrap(), OrderDirection::Descending)
        .unwrap()
        .limit_to_last(2)
        .unwrap();
    let docs = vec![snapshot_for("sf", 100), snapshot_for("nyc", 50), snapshot_for("la", 75)];
    let result = apply_query_to_documents(docs, query.definition());
    assert_eq!(result.len(), 2);
    assert_eq!(result[0].id(), "la");
    assert_eq!(result[1].id(), "nyc");
}

#[test]
fn filters_and_cursors_select_documents() {
    let field = FieldPath::from_dot_separated("population").unwrap();
    let query = build_query()
        .where_filter(FieldFilter::new(
            FieldPath::from_dot_separated("population").unwrap(),
            FilterOperator::GreaterThan,
            FirestoreValue::from_integer(10),
        ))
        .order_by(field, OrderDirection::Ascending)
        .unwrap()
        .start_at(Bound::new(vec![FirestoreValue::from_integer(50)], false));
    let docs = vec![
        snapshot_for("sf", 100),
        snapshot_for("nyc", 50),
        snapshot_for("tiny", 5),
        snapshot_for("la", 75),
    ];
    let result = apply_query_to_documents(docs, query.definition());
    let ids: Vec<&str> = result.iter().map(|d| d.id()).collect();
    assert_eq!(ids, vec!["la", "sf"]);
}

#[test]
fn equal_documents_keep_their_order() {
    let query = build_query()
        .order_by(FieldPath::from_dot_separated("population").unwrap(), OrderDirection::Ascending)
        .unwrap();
    let docs = vec![snapshot_for("b", 7), snapshot_for("a", 7), snapshot_for("c", 1)];
    let result = apply_query_to_documents(docs, query.definition());
    let ids: Vec<&str> = result.iter().map(|d| d.id()).collect();
    assert_eq!(ids, vec!["c", "b", "a"]);
}

#[test]
fn missing_documents_are_dropped() {
    let query = build_query();
    let key = DocumentKey::from_string("cities/gone").unwrap();
    let docs = vec![DocumentSnapshot::new(key, None, SnapshotMetadata::default()), snapshot_for("sf", 1)];
    let result = apply_query_to_documents(docs, query.definition());
    assert_eq!(result.len(), 1);
    assert_eq!(result[0].id(), "sf");
}

#[test]
fn integer_to_double_matches_casts() {
    let samples: Vec<i64> = vec![
        0,
        1,
        -1,
        42,
        -42,
        (1i64 << 53) - 1,
        1i64 << 53,
        (1i64 << 53) + 1,
        (1i64 << 53) + 3,
        (1i64 << 54) + 2,
        (1i64 << 54) + 6,
        i64::MAX,
        i64::MIN,
        i64::MIN + 1,
        123_456_789_012_345_678,
        -987_654_321_098_765_432,
    ];
    for i in samples {
        assert_eq!(int_to_double(i), (i as f64).to_bits(), "value {i}");
    }
}

#[test]
fn numbers_compare_across_kinds() {
    let two = FirestoreValue::from_integer(2);
    let two_and_half = FirestoreValue::from_double_bits(2.5f64.to_bits());
    let nan = FirestoreValue::from_double_bits(f64::NAN.to_bits());
    assert_eq!(compare_values(&two, &two_and_half), Some(Order::Less));
    assert_eq!(compare_values(&two_and_half, &two), Some(Order::Greater));
    assert_eq!(compare_values(&two, &FirestoreValue::from_double_bits(2.0f64.to_bits())), Some(Order::Equal));
    assert_eq!(compare_values(&nan, &two), None);
    let big = FirestoreValue::from_integer((1i64 << 53) + 1);
    let rounded = FirestoreValue::from_double_bits(((1i64 << 53) as f64).to_bits());
    assert_eq!(compare_values(&big, &rounded), Some(Order::Equal));
    assert_eq!(compare_values(&text("a"), &two), None);
    assert_eq!(compare_values(&text("a"), &text("b")), Some(Order::Less));
    let neg_zero = FirestoreValue::from_double_bits((-0.0f64).to_bits());
    let zero = FirestoreValue::from_double_bits(0.0f64.to_bits());
    assert_eq!(compare_values(&neg_zero, &zero), Some(Order::Equal));
}

#[test]
fn filter_operators_follow_their_meaning() {
    let list = FirestoreValue::from_array(vec![FirestoreValue::from_integer(1), text("x")]);
    assert!(evaluate_filter(FilterOperator::ArrayContains, &text("x"), &list));
    assert!(!evaluate_filter(FilterOperator::ArrayContains, &text("y"), &list));
    let needles = FirestoreValue::from_array(vec![text("y"), FirestoreValue::from_integer(1)]);
    assert!(evaluate_filter(FilterOperator::ArrayContainsAny, &needles, &list));
    assert!(evaluate_filter(FilterOperator::In, &needles, &text("y")));
    assert!(!evaluate_filter(FilterOperator::NotIn, &needles, &text("y")));
    assert!(evaluate_filter(FilterOperator::NotIn, &needles, &text("z")));
    assert!(!evaluate_filter(FilterOperator::NotIn, &needles, &FirestoreValue::null()));
    assert!(evaluate_filter(FilterOperator::LessThanOrEqual, &FirestoreValue::from_integer(3), &FirestoreValue::from_integer(3)));
    assert!(!evaluate_filter(FilterOperator::LessThan, &FirestoreValue::from_integer(3), &text("a")));
    assert!(evaluate_filter(FilterOperator::NotEqual, &FirestoreValue::from_integer(3), &text("a")));
}
