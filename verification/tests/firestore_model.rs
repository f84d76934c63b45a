use firebase_rs_sdk::app::{initialize_app, FirebaseAppSettings, FirebaseOptions};
use firebase_rs_sdk::firestore::api::database::{get_firestore, FirestoreRegistry};
use firebase_rs_sdk::firestore::api::snapshot::SnapshotMetadata;
use firebase_rs_sdk::firestore::model::{DatabaseId, DocumentKey, FieldPath, ResourcePath};

fn unique_settings(name: &str) -> FirebaseAppSettings {
    FirebaseAppSettings { name: Some(name.to_string()), automatic_data_collection_enabled: None }
}

#[test]
fn get_firestore_registers_component() {
    let options = FirebaseOptions { project_id: Some("project".into()), ..Default::default() };
    let app = initialize_app(options, Some(unique_settings("firestore-1"))).unwrap();
    let firestore = get_firestore(Some(app)).unwrap();
    assert_eq!(firestore.project_id(), "project");
    assert_eq!(firestore.database(), "(default)");
}

#[test]
fn metadata_flags() {
    let meta = SnapshotMetadata::new(true, false);
    assert!(meta.from_cache());
    assert!(!meta.has_pending_writes());
}

#[test]
fn builds_from_app() {
    let options = FirebaseOptions { project_id: Some("project".into()), ..Default::default() };
    let app = initialize_app(options, Some(unique_settings("database-id-1"))).unwrap();
    let db = DatabaseId::from_app(&app).unwrap();
    assert_eq!(db.project_id(), "project");
    assert_eq!(db.database(), "(default)");
}

#[test]
fn missing_project_id_errors() {
    let options = FirebaseOptions { api_key: Some("test".into()), ..Default::default() };
    let app = initialize_app(options, Some(unique_settings("database-id-2"))).unwrap();
    let err = DatabaseId::from_app(&app).unwrap_err();
    assert_eq!(err.code_str(), "firestore/missing-project-id");
}

#[test]
fn validates_even_segments() {
    let err = DocumentKey::from_string("cities").unwrap_err();
    assert_eq!(err.code_str(), "firestore/invalid-argument");
}

#[test]
fn parses_valid_path() {
    let key = DocumentKey::from_string("cities/sf").unwrap();
    assert_eq!(key.id(), "sf");
    assert_eq!(key.collection_path().canonical_string(), "cities");
}

#[test]
fn from_dot_path() {
    let field = FieldPath::from_dot_separated("foo.bar").unwrap();
    assert_eq!(field.segments(), &["foo", "bar"]);
}

#[test]
fn rejects_empty() {
    let err = FieldPath::from_dot_separated("").unwrap_err();
    assert_eq!(err.code_str(), "firestore/invalid-argument");
}

#[test]
fn parse_and_render_path() {
    let path = ResourcePath::from_string("cities/sf/neighborhoods/downtown").unwrap();
    assert_eq!(path.len(), 4);
    assert_eq!(path.last_segment(), Some("downtown"));
    assert_eq!(path.canonical_string(), "cities/sf/neighborhoods/downtown");
}

#[test]
fn handles_root_path() {
    let path = ResourcePath::from_string("").unwrap();
    assert!(path.is_empty());
}

#[test]
fn rejects_empty_segments() {
    let err = ResourcePath::from_string("cities//sf").unwrap_err();
    assert_eq!(err.code_str(), "firestore/invalid-argument");
}

#[test]
fn registry_shares_one_instance_per_app() {
    let options = FirebaseOptions { project_id: Some("project".into()), ..Default::default() };
    let app = initialize_app(options, Some(unique_settings("registry-1"))).unwrap();
    let mut registry = FirestoreRegistry::new();
    assert!(registry.get_firestore(None).is_err());
    assert_eq!(registry.get_firestore(Some(app.clone())).unwrap().app().name(), "registry-1");
    assert_eq!(registry.get_firestore(Some(app.clone())).unwrap().app().name(), "registry-1");
    assert_eq!(registry.get_firestore(Some(app)).unwrap().project_id(), "project");
    let options = FirebaseOptions { project_id: Some("other".into()), ..Default::default() };
    let default_app = initialize_app(options, None).unwrap();
    assert_eq!(registry.get_firestore(Some(default_app)).unwrap().project_id(), "other");
    assert_eq!(registry.get_firestore(None).unwrap().project_id(), "other");
}
