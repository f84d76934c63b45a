use firebase_rs_sdk::firestore::api::query::QueryDefinition;
use firebase_rs_sdk::firestore::error::{internal_error, FirestoreErrorCode};
use firebase_rs_sdk::firestore::local::memory::{
    targets_to_notify, ListenerRegistry, MemoryLocalStore, PersistenceAction, TargetMetadataSnapshot,
    ViewStateRequest,
};
use firebase_rs_sdk::firestore::model::{DocumentKey, ResourcePath, Timestamp};
use firebase_rs_sdk::firestore::remote::datastore::WriteOperation;
use firebase_rs_sdk::firestore::remote::mutation::{MutationBatch, MutationBatchResult, WriteResult};
use firebase_rs_sdk::firestore::remote::remote_event::{RemoteEvent, WatchDocument};
use firebase_rs_sdk::firestore::remote::syncer_bridge::{RemoteSyncerBridge, TargetChange};
use firebase_rs_sdk::firestore::value::{FirestoreValue, MapValue};

fn add_doubles(a: u64, b: u64) -> u64 {
    (f64::from_bits(a) + f64::from_bits(b)).to_bits()
}

fn key(s: &str) -> DocumentKey {
    DocumentKey::from_string(s).unwrap()
}

fn map_of(entries: Vec<(&str, FirestoreValue)>) -> MapValue {
    MapValue::new(entries.into_iter().map(|(k, v)| (k.to_string(), v)).collect())
}

fn sample_write(id: &str) -> WriteOperation {
    WriteOperation::SetData {
        key: key(&format!("cities/{id}")),
        data: MapValue::new(Vec::new()),
        mask: None,
        transforms: Vec::new(),
    }
}

fn sample_batch(batch_id: i32, doc_id: &str) -> MutationBatch {
    MutationBatch::from_writes(batch_id, Timestamp::new(0, 0), vec![sample_write(doc_id)])
}

fn set_write(path: &str, name: &str) -> WriteOperation {
    WriteOperation::SetData {
        key: key(path),
        data: map_of(vec![("name", FirestoreValue::from_string(name.to_string()))]),
        mask: None,
        transforms: Vec::new(),
    }
}

fn empty_change() -> TargetChange {
    TargetChange {
        resume_token: None,
        current: false,
        added_documents: Vec::new(),
        modified_documents: Vec::new(),
        removed_documents: Vec::new(),
    }
}

fn snapshot_with_key(target_id: i32, k: &DocumentKey) -> TargetMetadataSnapshot {
    let mut snapshot = TargetMetadataSnapshot::new(target_id);
    snapshot.remote_keys.push(k.clone());
    snapshot
}

fn contains(keys: &[DocumentKey], k: &DocumentKey) -> bool {
    keys.iter().any(|x| x.equals(k))
}

#[test]
fn queue_returns_batches_in_order() {
    let mut bridge = RemoteSyncerBridge::new();
    bridge.enqueue_batch(sample_batch(10, "a")).unwrap();
    bridge.enqueue_batch(sample_batch(5, "b")).unwrap();

    let first = bridge.next_mutation_batch(None).expect("first batch");
    assert_eq!(first.batch_id, 5);
    let second = bridge.next_mutation_batch(Some(5)).expect("second batch");
    assert_eq!(second.batch_id, 10);
}

#[test]
fn acknowledges_batches_remove_from_queue() {
    let mut store = MemoryLocalStore::new();
    let mut bridge = RemoteSyncerBridge::new();
    bridge.enqueue_batch(sample_batch(1, "a")).unwrap();

    let batch = bridge.next_mutation_batch(None).unwrap();
    assert_eq!(batch.batch_id, 1);
    let result = MutationBatchResult::from(
        sample_batch(1, "a"),
        None,
        vec![WriteResult { update_time: None, transform_results: Vec::new() }],
    )
    .unwrap();
    bridge.apply_successful_write(&mut store, result).unwrap();

    assert!(bridge.next_mutation_batch(None).is_none());
    assert_eq!(store.successful_batch_ids(), vec![1]);
}

#[test]
fn apply_remote_event_updates_keys() {
    let mut store = MemoryLocalStore::new();
    let mut bridge = RemoteSyncerBridge::new();
    let k = key("cities/sf");
    let mut change = empty_change();
    change.added_documents.push(k.clone());

    let mut event = RemoteEvent::default();
    event.target_changes.push((2, change));
    bridge.apply_remote_event(&mut store, event);

    let keys = bridge.get_remote_keys_for_target(2);
    assert!(contains(&keys, &k));
}

#[test]
fn rejected_listen_clears_keys() {
    let mut store = MemoryLocalStore::new();
    let mut bridge = RemoteSyncerBridge::new();
    bridge.replace_remote_keys(&mut store, 4, vec![key("cities/sf")]);

    bridge.reject_listen(&mut store, 4, internal_error("boom"));
    assert!(bridge.get_remote_keys_for_target(4).is_empty());
    assert_eq!(store.rejected_target_ids(), vec![4]);
}

#[test]
fn failed_write_is_reported() {
    let mut store = MemoryLocalStore::new();
    let mut bridge = RemoteSyncerBridge::new();
    bridge.enqueue_batch(sample_batch(3, "x")).unwrap();

    bridge.reject_failed_write(&mut store, 3, internal_error("fail")).unwrap();
    assert!(bridge.next_mutation_batch(None).is_none());
    assert_eq!(store.failed_batch_ids(), vec![3]);
}

#[test]
fn target_reset_marks_limbo_documents() {
    let mut store = MemoryLocalStore::new();
    let k = key("cities/sf");
    store.restore_target_snapshot(snapshot_with_key(1, &k));

    let mut bridge = RemoteSyncerBridge::new();
    store.synchronize_remote_keys(&mut bridge);

    let mut event = RemoteEvent::default();
    event.target_resets.push(1);
    bridge.apply_remote_event(&mut store, event);

    let limbo = store.limbo_documents_snapshot();
    assert!(contains(&limbo, &k));
}

#[test]
fn target_reset_skips_shared_documents() {
    let mut store = MemoryLocalStore::new();
    let k = key("cities/sf");
    store.restore_target_snapshot(snapshot_with_key(1, &k));
    store.restore_target_snapshot(snapshot_with_key(2, &k));

    let mut bridge = RemoteSyncerBridge::new();
    store.synchronize_remote_keys(&mut bridge);

    let mut event = RemoteEvent::default();
    event.target_resets.push(1);
    bridge.apply_remote_event(&mut store, event);

    let limbo = store.limbo_documents_snapshot();
    assert!(limbo.is_empty());
}

#[test]
fn limbo_documents_cleared_on_follow_up_updates() {
    let mut store = MemoryLocalStore::new();
    let k = key("cities/sf");
    store.restore_target_snapshot(snapshot_with_key(1, &k));

    let mut bridge = RemoteSyncerBridge::new();
    store.synchronize_remote_keys(&mut bridge);

    let mut reset = RemoteEvent::default();
    reset.target_resets.push(1);
    bridge.apply_remote_event(&mut store, reset);

    assert!(contains(&store.limbo_documents_snapshot(), &k));

    let mut event = RemoteEvent::default();
    event.document_updates.push((k.clone(), None));
    bridge.apply_remote_event(&mut store, event);

    assert!(!contains(&store.limbo_documents_snapshot(), &k));
}

#[test]
fn synchronize_hands_over_only_nonempty_keys() {
    let mut store = MemoryLocalStore::new();
    let k = key("cities/sf");
    store.restore_target_snapshot(snapshot_with_key(1, &k));
    store.restore_target_snapshot(TargetMetadataSnapshot::new(2));
    let mut bridge = RemoteSyncerBridge::new();
    store.synchronize_remote_keys(&mut bridge);
    assert!(contains(&bridge.remote_keys_for_target(1), &k));
    assert!(bridge.remote_keys_for_target(2).is_empty());
}

#[test]
fn queued_writes_are_pending_until_acknowledged() {
    let mut store = MemoryLocalStore::new();
    let mut bridge = RemoteSyncerBridge::new();
    let sf = key("cities/sf");
    let la = key("cities/la");

    let first = store
        .queue_mutation_batch_at(&mut bridge, vec![set_write("cities/sf", "San Francisco")], Timestamp::new(1, 0))
        .unwrap();
    let second = store
        .queue_mutation_batch_at(&mut bridge, vec![set_write("cities/la", "Los Angeles")], Timestamp::new(2, 0))
        .unwrap();
    assert_eq!((first, second), (1, 2));
    assert_eq!(store.outstanding_batch_ids(), vec![1, 2]);
    assert_eq!(bridge.pending_batch_ids(), vec![1, 2]);
    assert_eq!(store.overlay_keys().len(), 2);

    let snap = store.document_snapshot_for_key(&sf, false, &add_doubles).unwrap();
    assert!(snap.has_pending_writes());
    assert_eq!(snap.data().unwrap().get("name").unwrap().as_string(), Some("San Francisco"));

    let result = MutationBatchResult::from(
        MutationBatch::from_writes(1, Timestamp::new(1, 0), vec![set_write("cities/sf", "San Francisco")]),
        None,
        vec![WriteResult { update_time: None, transform_results: Vec::new() }],
    )
    .unwrap();
    bridge.apply_successful_write(&mut store, result).unwrap();

    assert_eq!(store.outstanding_batch_ids(), vec![2]);
    let after = store.document_snapshot_for_key(&sf, true, &add_doubles).unwrap();
    assert!(!after.has_pending_writes());
    assert!(after.data().is_none());
    let other = store.document_snapshot_for_key(&la, true, &add_doubles).unwrap();
    assert!(other.has_pending_writes());
}

#[test]
fn empty_batch_is_refused_without_consuming_an_id() {
    let mut store = MemoryLocalStore::new();
    let mut bridge = RemoteSyncerBridge::new();
    let err = store.queue_mutation_batch(&mut bridge, Vec::new()).unwrap_err();
    assert_eq!(err.code, FirestoreErrorCode::InvalidArgument);
    assert_eq!(err.message, "mutation batch must contain at least one write");
    let id = store.queue_mutation_batch(&mut bridge, vec![sample_write("a")]).unwrap();
    assert_eq!(id, 1);
}

#[test]
fn batch_id_already_queued_is_refused() {
    let mut store = MemoryLocalStore::new();
    let mut bridge = RemoteSyncerBridge::new();
    bridge.enqueue_batch(sample_batch(1, "a")).unwrap();
    let err = store.queue_mutation_batch(&mut bridge, vec![sample_write("b")]).unwrap_err();
    assert_eq!(err.code, FirestoreErrorCode::Internal);
    assert_eq!(err.message, "Duplicate mutation batch id 1 queued");
    assert!(store.outstanding_batch_ids().is_empty());
    let id = store.queue_mutation_batch(&mut bridge, vec![sample_write("b")]).unwrap();
    assert_eq!(id, 2);
}

#[test]
fn failed_write_drops_every_pending_write() {
    let mut store = MemoryLocalStore::new();
    let mut bridge = RemoteSyncerBridge::new();
    store.queue_mutation_batch(&mut bridge, vec![sample_write("a"), sample_write("b")]).unwrap();
    assert_eq!(store.overlay_keys().len(), 2);
    bridge.reject_failed_write(&mut store, 1, internal_error("denied")).unwrap();
    assert!(store.overlay_keys().is_empty());
    assert!(store.outstanding_batch_ids().is_empty());
    assert!(bridge.reject_failed_write(&mut store, 1, internal_error("again")).is_err());
}

#[test]
fn remote_update_replaces_document_and_clears_its_pending_writes() {
    let mut store = MemoryLocalStore::new();
    let mut bridge = RemoteSyncerBridge::new();
    let sf = key("cities/sf");
    store.queue_mutation_batch(&mut bridge, vec![set_write("cities/sf", "Local")]).unwrap();

    let doc = WatchDocument {
        key: sf.clone(),
        fields: map_of(vec![("name", FirestoreValue::from_string("Remote".to_string()))]),
        update_time: Some(Timestamp::new(42, 0)),
        create_time: Some(Timestamp::new(40, 0)),
    };
    let mut event = RemoteEvent::default();
    event.snapshot_version = Some(Timestamp::new(42, 0));
    let mut change = empty_change();
    change.current = true;
    change.added_documents.push(sf.clone());
    event.target_changes.push((1, change));
    event.document_updates.push((sf.clone(), Some(doc)));
    bridge.apply_remote_event(&mut store, event);

    assert!(store.overlay_keys().is_empty());
    let stored = store.document(&sf).expect("stored document");
    assert_eq!(stored.as_ref().unwrap().update_time, Some(Timestamp::new(42, 0)));
    let snap = store.document_snapshot_for_key(&sf, false, &add_doubles).unwrap();
    assert!(!snap.has_pending_writes());
    assert_eq!(snap.data().unwrap().get("name").unwrap().as_string(), Some("Remote"));
    let meta = store.target_metadata_snapshot(1).unwrap();
    assert!(meta.current);
    assert_eq!(meta.snapshot_version, Some(Timestamp::new(42, 0)));
    assert!(contains(&meta.remote_keys, &sf));
    assert!(store.last_remote_event().is_some());
}

#[test]
fn resolved_limbo_documents_are_forgotten() {
    let mut store = MemoryLocalStore::new();
    let mut bridge = RemoteSyncerBridge::new();
    let sf = key("cities/sf");
    let mut event = RemoteEvent::default();
    event.document_updates.push((sf.clone(), None));
    bridge.apply_remote_event(&mut store, event);
    assert!(store.document(&sf).is_some());
    store.track_limbo_document(sf.clone());

    let mut resolve = RemoteEvent::default();
    resolve.resolved_limbo_documents.push(sf.clone());
    bridge.apply_remote_event(&mut store, resolve);
    assert!(store.document(&sf).is_none());
    assert!(store.limbo_documents_snapshot().is_empty());
}

#[test]
fn credential_change_forgets_everything_but_the_batch_counter() {
    let mut store = MemoryLocalStore::new();
    let mut bridge = RemoteSyncerBridge::new();
    store.queue_mutation_batch(&mut bridge, vec![sample_write("a")]).unwrap();
    store.notify_stream_token_change(Some(vec![9, 8, 7]));
    store.record_write_results(1, Vec::new());
    store.restore_target_snapshot(snapshot_with_key(1, &key("cities/sf")));
    assert_eq!(store.last_stream_token(), Some(vec![9, 8, 7]));
    assert_eq!(store.recorded_write_results().len(), 1);

    bridge.handle_credential_change(&mut store);
    assert!(store.overlay_keys().is_empty());
    assert!(store.outstanding_batch_ids().is_empty());
    assert!(store.target_metadata_snapshot(1).is_none());
    assert_eq!(store.last_stream_token(), None);
    assert!(store.recorded_write_results().is_empty());
    let mut fresh_bridge = RemoteSyncerBridge::new();
    let id = store.queue_mutation_batch(&mut fresh_bridge, vec![sample_write("a")]).unwrap();
    assert_eq!(id, 2);
}

#[test]
fn restored_overlay_key_has_no_pending_writes() {
    let mut store = MemoryLocalStore::new();
    let sf = key("cities/sf");
    store.restore_overlay_key(sf.clone());
    assert_eq!(store.overlay_keys().len(), 1);
    let snap = store.document_snapshot_for_key(&sf, true, &add_doubles).unwrap();
    assert!(!snap.has_pending_writes());
}

#[test]
fn query_state_lists_remote_and_pending_documents_in_path_order() {
    let mut store = MemoryLocalStore::new();
    let mut bridge = RemoteSyncerBridge::new();
    let sf = key("cities/sf");
    let mut snapshot = snapshot_with_key(1, &sf);
    snapshot.current = true;
    snapshot.resume_token = Some(vec![1, 2, 3]);
    snapshot.snapshot_version = Some(Timestamp::new(42, 0));
    store.restore_target_snapshot(snapshot);
    let doc = WatchDocument {
        key: sf.clone(),
        fields: map_of(vec![("name", FirestoreValue::from_string("San Francisco".to_string()))]),
        update_time: Some(Timestamp::new(42, 0)),
        create_time: Some(Timestamp::new(40, 0)),
    };
    let mut event = RemoteEvent::default();
    event.document_updates.push((sf.clone(), Some(doc)));
    store.handle_remote_event(event);
    store.queue_mutation_batch(&mut bridge, vec![set_write("cities/la", "Los Angeles")]).unwrap();
    store.queue_mutation_batch(&mut bridge, vec![set_write("towns/x", "Elsewhere")]).unwrap();

    let definition = QueryDefinition::new(ResourcePath::from_string("cities").unwrap());
    let state = store.compute_query_state(1, &definition, &add_doubles).unwrap();
    assert!(!state.from_cache);
    assert!(state.has_pending_writes);
    assert_eq!(state.resume_token, Some(vec![1, 2, 3]));
    assert_eq!(state.snapshot_version, Some(Timestamp::new(42, 0)));
    assert_eq!(state.documents.len(), 2);
    assert!(state.documents[0].document_key().equals(&key("cities/la")));
    assert!(state.documents[0].has_pending_writes());
    assert!(state.documents[1].document_key().equals(&sf));
    assert!(!state.documents[1].has_pending_writes());

    let unknown = store.compute_query_state(7, &definition, &add_doubles).unwrap();
    assert!(unknown.from_cache);
    assert_eq!(unknown.documents.len(), 1);
    assert_eq!(unknown.resume_token, None);
}

#[test]
fn keys_order_by_path() {
    assert!(key("cities/la").comes_before(&key("cities/sf")));
    assert!(!key("cities/sf").comes_before(&key("cities/la")));
    assert!(!key("cities/sf").comes_before(&key("cities/sf")));
    assert!(key("cities/sf").comes_before(&key("cities/sf/streets/a")));
    assert!(key("a/z").comes_before(&key("b/a")));
}

#[test]
fn listeners_receive_states_in_registration_order() {
    let mut store = MemoryLocalStore::new();
    let mut bridge = RemoteSyncerBridge::new();
    store.queue_mutation_batch(&mut bridge, vec![set_write("cities/la", "Los Angeles")]).unwrap();
    let cities = QueryDefinition::new(ResourcePath::from_string("cities").unwrap());
    let towns = QueryDefinition::new(ResourcePath::from_string("towns").unwrap());

    let mut listeners = ListenerRegistry::new();
    let mut first_reg = store.register_query_listener(&mut listeners, 1, cities, &add_doubles).unwrap();
    let other = listeners.register(&store, 2, towns, &add_doubles).unwrap();
    let again_cities = QueryDefinition::new(ResourcePath::from_string("cities").unwrap());
    let second = listeners.register(&store, 1, again_cities, &add_doubles).unwrap();
    let first = first_reg.listener_id();
    assert_eq!(first_reg.target_id(), 1);
    assert_eq!((first, other, second), (1, 2, 3));

    let shown = listeners.emit_query_snapshots(&store, 1, &add_doubles).unwrap();
    assert_eq!(shown.len(), 2);
    assert_eq!(shown[0].listener_id, first);
    assert_eq!(shown[1].listener_id, second);
    assert!(shown[0].state.from_cache);
    assert!(shown[0].state.has_pending_writes);
    assert_eq!(shown[0].state.documents.len(), 1);
    assert!(shown[0].sync_state_changed);
    assert!(shown[1].sync_state_changed);

    let again = listeners.emit_query_snapshots(&store, 1, &add_doubles).unwrap();
    assert_eq!(again.len(), 2);
    assert!(!again[0].sync_state_changed);
    assert!(!again[1].sync_state_changed);

    first_reg.detach(&mut listeners);
    first_reg.detach(&mut listeners);
    let left = listeners.emit_query_snapshots(&store, 1, &add_doubles).unwrap();
    assert_eq!(left.len(), 1);
    assert_eq!(left[0].listener_id, second);
    assert!(listeners.remove_query_listener(1, second));
    assert!(listeners.emit_query_snapshots(&store, 1, &add_doubles).unwrap().is_empty());
    assert_eq!(listeners.emit_query_snapshots(&store, 2, &add_doubles).unwrap().len(), 1);
}

#[test]
fn listener_of_current_target_starts_from_its_sync_state() {
    let mut store = MemoryLocalStore::new();
    let mut snapshot = TargetMetadataSnapshot::new(4);
    snapshot.current = true;
    snapshot.resume_token = Some(vec![9]);
    store.restore_target_snapshot(snapshot);
    let cities = QueryDefinition::new(ResourcePath::from_string("cities").unwrap());
    let mut listeners = ListenerRegistry::new();
    let id = store.register_query_listener(&mut listeners, 4, cities, &add_doubles).unwrap().listener_id();
    let shown = listeners.emit_query_snapshots(&store, 4, &add_doubles).unwrap();
    assert_eq!(shown.len(), 1);
    assert_eq!(shown[0].listener_id, id);
    assert!(!shown[0].state.from_cache);
    assert!(!shown[0].sync_state_changed);
}

#[test]
fn target_reset_asks_persistence_to_clear_then_save() {
    let mut store = MemoryLocalStore::with_persistence();
    let sf = key("cities/sf");
    store.restore_target_snapshot(snapshot_with_key(3, &sf));
    store.reset_target_metadata(3);
    let actions = store.take_persistence_actions();
    assert_eq!(actions.len(), 2);
    assert!(matches!(actions[0], PersistenceAction::ClearTargetMetadata(3)));
    match &actions[1] {
        PersistenceAction::SaveTargetMetadata(s) => {
            assert_eq!(s.target_id, 3);
            assert!(s.remote_keys.is_empty());
            assert!(!s.current);
        },
        _ => panic!("expected a save"),
    }
    assert!(store.persistence_actions().is_empty());
}

#[test]
fn store_without_persistence_asks_nothing() {
    let mut store = MemoryLocalStore::new();
    store.reset_target_metadata(3);
    assert!(store.persistence_actions().is_empty());
}

#[test]
fn pending_writes_are_saved_and_then_cleared() {
    let mut store = MemoryLocalStore::with_persistence();
    let mut bridge = RemoteSyncerBridge::new();
    store.queue_mutation_batch(&mut bridge, vec![set_write("cities/sf", "SF"), set_write("cities/sf", "San Francisco")]).unwrap();
    let saved = store.take_persistence_actions();
    assert_eq!(saved.len(), 2);
    match (&saved[0], &saved[1]) {
        (PersistenceAction::SaveDocumentOverlay(k1, w1), PersistenceAction::SaveDocumentOverlay(k2, w2)) => {
            assert!(k1.equals(&key("cities/sf")) && k2.equals(&key("cities/sf")));
            assert_eq!((w1.len(), w2.len()), (1, 2));
        },
        _ => panic!("expected two saves"),
    }
    store.handle_failed_write(1, internal_error("rejected"));
    let cleared = store.take_persistence_actions();
    assert_eq!(cleared.len(), 1);
    assert!(matches!(&cleared[0], PersistenceAction::ClearDocumentOverlay(k) if k.equals(&key("cities/sf"))));
}

#[test]
fn credential_change_clears_overlays_then_targets() {
    let mut store = MemoryLocalStore::with_persistence();
    let mut bridge = RemoteSyncerBridge::new();
    store.queue_mutation_batch(&mut bridge, vec![set_write("cities/la", "LA")]).unwrap();
    store.restore_target_snapshot(TargetMetadataSnapshot::new(5));
    let _ = store.take_persistence_actions();
    store.handle_credential_change();
    let actions = store.take_persistence_actions();
    assert_eq!(actions.len(), 2);
    assert!(matches!(&actions[0], PersistenceAction::ClearDocumentOverlay(_)));
    assert!(matches!(actions[1], PersistenceAction::ClearTargetMetadata(5)));
    assert!(store.overlay_keys().is_empty());
}

#[test]
fn event_notifies_changed_and_reset_targets_once_in_order() {
    let mut event = RemoteEvent::default();
    event.target_changes.push((7, empty_change()));
    event.target_changes.push((2, empty_change()));
    event.target_changes.push((7, empty_change()));
    event.target_resets.push(4);
    event.target_resets.push(2);
    assert_eq!(targets_to_notify(&event), vec![2, 4, 7]);
}

#[test]
fn listened_targets_are_listed_once_in_order() {
    let store = MemoryLocalStore::new();
    let mut listeners = ListenerRegistry::new();
    for t in [5, 1, 5, 3] {
        let def = QueryDefinition::new(ResourcePath::from_string("cities").unwrap());
        listeners.register(&store, t, def, &add_doubles).unwrap();
    }
    assert_eq!(listeners.listened_targets(), vec![1, 3, 5]);
}

#[test]
fn view_states_are_saved_on_emit_and_cleared_with_the_last_listener() {
    let store = MemoryLocalStore::new();
    let mut listeners = ListenerRegistry::with_persistence();
    let def = QueryDefinition::new(ResourcePath::from_string("cities").unwrap());
    let a = listeners.register(&store, 1, def, &add_doubles).unwrap();
    let def = QueryDefinition::new(ResourcePath::from_string("cities").unwrap());
    let b = listeners.register(&store, 1, def, &add_doubles).unwrap();
    assert!(listeners.take_view_state_requests().is_empty());
    listeners.emit_query_snapshots(&store, 1, &add_doubles).unwrap();
    let saved = listeners.take_view_state_requests();
    assert_eq!(saved.len(), 1);
    assert!(matches!(&saved[0], ViewStateRequest::SaveQueryViewState(1, s) if s.from_cache));
    assert!(listeners.emit_query_snapshots(&store, 9, &add_doubles).unwrap().is_empty());
    assert!(listeners.take_view_state_requests().is_empty());
    assert!(!listeners.remove_query_listener(1, a));
    assert!(listeners.take_view_state_requests().is_empty());
    assert!(listeners.remove_query_listener(1, b));
    let cleared = listeners.take_view_state_requests();
    assert_eq!(cleared.len(), 1);
    assert!(matches!(cleared[0], ViewStateRequest::ClearQueryViewState(1)));
    assert!(listeners.remove_query_listener(1, b));
    assert!(listeners.take_view_state_requests().is_empty());
}

#[test]
fn a_kept_view_seeds_new_listeners_and_is_forgotten_on_clear() {
    let store = MemoryLocalStore::new();
    let mut listeners = ListenerRegistry::with_persistence();
    let def = QueryDefinition::new(ResourcePath::from_string("cities").unwrap());
    let first = listeners.register(&store, 1, def, &add_doubles).unwrap();
    let shown = listeners.emit_query_snapshots(&store, 1, &add_doubles).unwrap();
    assert_eq!(shown.len(), 1);
    let kept = listeners.restored_view_state(1).unwrap();
    assert!(kept.from_cache);
    assert!(listeners.restored_view_state(2).is_none());

    let def = QueryDefinition::new(ResourcePath::from_string("cities").unwrap());
    let second = listeners.register(&store, 1, def, &add_doubles).unwrap();
    let shown = listeners.emit_query_snapshots(&store, 1, &add_doubles).unwrap();
    assert_eq!(shown[1].listener_id, second);
    assert!(!shown[1].sync_state_changed);

    let _ = listeners.take_view_state_requests();
    assert!(!listeners.remove_query_listener(1, first));
    assert!(listeners.restored_view_state(1).is_some());
    listeners.clear_view_states();
    assert!(listeners.restored_view_state(1).is_none());
    let cleared = listeners.take_view_state_requests();
    assert_eq!(cleared.len(), 1);
    assert!(matches!(cleared[0], ViewStateRequest::ClearQueryViewState(1)));
}
