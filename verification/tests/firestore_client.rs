use firebase_rs_sdk::app::{initialize_app, FirebaseAppSettings, FirebaseOptions};
use firebase_rs_sdk::firestore::api::database::Firestore;
use firebase_rs_sdk::firestore::api::document::FirestoreClient;
use firebase_rs_sdk::firestore::api::operations::SetOptions;
use firebase_rs_sdk::firestore::api::query::Query;
use firebase_rs_sdk::firestore::model::{DatabaseId, ResourcePath};
use firebase_rs_sdk::firestore::value::{FirestoreValue, MapValue, ValueKind};

fn add_doubles(a: u64, b: u64) -> u64 {
    (f64::from_bits(a) + f64::from_bits(b)).to_bits()
}

fn map_of(entries: Vec<(&str, FirestoreValue)>) -> MapValue {
    MapValue::new(entries.into_iter().map(|(k, v)| (k.to_string(), v)).collect())
}

fn text(s: &str) -> FirestoreValue {
    FirestoreValue::from_string(s.to_string())
}

fn firestore(name: &str, database: &str) -> Firestore {
    let options = FirebaseOptions { project_id: Some("project".into()), ..Default::default() };
    let settings = FirebaseAppSettings { name: Some(name.into()), automatic_data_collection_enabled: None };
    let app = initialize_app(options, Some(settings)).unwrap();
    Firestore::new(app, DatabaseId::new("project", database))
}

fn build_client(name: &str) -> FirestoreClient {
    FirestoreClient::with_in_memory(firestore(name, "(default)"))
}

fn is_text(v: Option<&FirestoreValue>, expected: &str) -> bool {
    matches!(v.map(|v| v.kind()), Some(ValueKind::String(s)) if s == expected)
}

fn is_int(v: Option<&FirestoreValue>, expected: i64) -> bool {
    matches!(v.map(|v| v.kind()), Some(ValueKind::Integer(n)) if *n == expected)
}

#[test]
fn set_and_get_document() {
    let mut client = build_client("client-set-get");
    client.set_doc("cities/sf", map_of(vec![("name", text("Ada"))]), None, &add_doubles).expect("set doc");
    let snapshot = client.get_doc("cities/sf").expect("get doc");
    assert!(snapshot.document_exists());
    assert!(is_text(snapshot.data().unwrap().get("name"), "Ada"));
}

#[test]
fn update_document_merges_fields() {
    let mut client = build_client("client-update");
    let stats = map_of(vec![("visits", FirestoreValue::from_integer(1)), ("likes", FirestoreValue::from_integer(5))]);
    let initial = map_of(vec![("name", text("Ada")), ("stats", FirestoreValue::from_map(stats))]);
    client.set_doc("cities/sf", initial, None, &add_doubles).expect("set doc");

    let stats_update =
        map_of(vec![("visits", FirestoreValue::from_integer(2)), ("shares", FirestoreValue::from_integer(9))]);
    let update = map_of(vec![("stats", FirestoreValue::from_map(stats_update)), ("state", text("California"))]);
    client.update_doc("cities/sf", update, &add_doubles).expect("update doc");

    let snapshot = client.get_doc("cities/sf").expect("get doc");
    let data = snapshot.data().expect("data");
    assert!(is_text(data.get("state"), "California"));
    match data.get("stats").expect("stats present").kind() {
        ValueKind::Mapping(map) => {
            assert!(is_int(map.get("visits"), 2));
            assert!(is_int(map.get("likes"), 5));
            assert!(is_int(map.get("shares"), 9));
        },
        _ => panic!("expected map"),
    }
}

#[test]
fn update_document_requires_existing() {
    let mut client = build_client("client-update-missing");
    let err = client
        .update_doc("cities/unknown", map_of(vec![("name", text("Ada"))]), &add_doubles)
        .expect_err("missing doc");
    assert_eq!(err.code_str(), "firestore/not-found");
}

#[test]
fn delete_document_clears_state() {
    let mut client = build_client("client-delete");
    client.set_doc("cities/sf", map_of(vec![("name", text("Ada"))]), None, &add_doubles).expect("set doc");
    client.delete_doc("cities/sf").expect("delete doc");
    let snapshot = client.get_doc("cities/sf").expect("get doc");
    assert!(!snapshot.document_exists());
}

#[test]
fn delete_missing_document_is_noop() {
    let mut client = build_client("client-delete-missing");
    client.delete_doc("cities/non-existent").expect("delete missing");
}

#[test]
fn query_returns_collection_documents() {
    let mut client = build_client("client-query");
    client.set_doc("cities/sf", map_of(vec![("name", text("San Francisco"))]), None, &add_doubles).unwrap();
    client.set_doc("cities/la", map_of(vec![("name", text("Los Angeles"))]), None, &add_doubles).unwrap();

    let query = Query::new(client.firestore().clone(), ResourcePath::from_string("cities").unwrap()).unwrap();
    let snapshot = client.get_docs(query).expect("query");
    assert_eq!(snapshot.len(), 2);
    let ids: Vec<String> = snapshot.documents().iter().map(|doc| doc.id().to_string()).collect();
    assert_eq!(ids, vec!["la", "sf"]);
}

#[test]
fn client_refuses_bad_paths_and_options() {
    let mut client = build_client("client-refusals");
    assert_eq!(client.get_doc("cities").unwrap_err().code_str(), "firestore/invalid-argument");
    assert_eq!(client.delete_doc("cities").unwrap_err().code_str(), "firestore/invalid-argument");
    let merge = SetOptions { merge: true, merge_fields: None };
    let err = client.set_doc("cities/sf", MapValue::new(Vec::new()), Some(merge), &add_doubles).unwrap_err();
    assert_eq!(err.code_str(), "firestore/invalid-argument");
    let err = client.update_doc("cities/sf", MapValue::new(Vec::new()), &add_doubles).unwrap_err();
    assert_eq!(err.code_str(), "firestore/invalid-argument");
    assert!(!client.get_doc("cities/sf").unwrap().document_exists());
}

#[test]
fn limit_to_last_results_come_back_reversed() {
    let mut client = build_client("client-last");
    for (id, n) in [("a", 1), ("b", 2), ("c", 3)] {
        client
            .set_doc(&format!("cities/{id}"), map_of(vec![("n", FirestoreValue::from_integer(n))]), None, &add_doubles)
            .unwrap();
    }
    let query = Query::new(client.firestore().clone(), ResourcePath::from_string("cities").unwrap())
        .unwrap()
        .limit_to_last(2)
        .unwrap();
    let snapshot = client.get_docs(query).unwrap();
    let ids: Vec<String> = snapshot.documents().iter().map(|doc| doc.id().to_string()).collect();
    assert_eq!(ids, vec!["c", "b"]);
}

#[test]
fn query_on_other_database_is_refused() {
    let client = build_client("client-other-db");
    let other = firestore("client-other-db-2", "other");
    let query = Query::new(other, ResourcePath::from_string("cities").unwrap()).unwrap();
    match client.get_docs(query) {
        Err(err) => assert_eq!(err.code_str(), "firestore/internal"),
        Ok(_) => panic!("query on another database was run"),
    }
}
