use firebase_rs_sdk::firestore::api::snapshot::SnapshotMetadata;
use firebase_rs_sdk::installations::types::InstallationToken;

#[test]
fn default_metadata_is_fresh_and_not_pending() {
    let d = SnapshotMetadata::default();
    assert_eq!(SnapshotMetadata::new(false, false), d);
    assert!(!d.from_cache());
    assert!(!d.has_pending_writes());
}

#[test]
fn token_expiring_at_the_epoch_has_expired() {
    let token = InstallationToken { token: "t".to_string(), expires_at_ms: 0 };
    assert!(token.is_expired());
    let later = InstallationToken { token: "t".to_string(), expires_at_ms: u64::MAX };
    assert!(!later.is_expired());
    assert!(later.is_expired_at(u64::MAX));
}
