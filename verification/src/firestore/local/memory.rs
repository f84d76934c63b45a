//! The in-memory local store: documents as the backend last reported them,
//! pending writes laid over them, the batches awaiting acknowledgement, and
//! per-target metadata (resume tokens, snapshot versions, remote document
//! keys, and the documents left in limbo when a target is reset).
use vstd::prelude::*;

use crate::firestore::api::query::QueryDefinition;
use crate::firestore::api::snapshot::{DocModel, DocumentSnapshot, SnapshotMetadata};
use crate::firestore::error::{invalid_argument, FirestoreError, FirestoreErrorCode, FirestoreResult};
use crate::firestore::local::key_map::KeyMap;
use crate::firestore::local::overlay::{
    adder_sum, apply_document_overlays, is_adder, lemma_set_overlay_replaces, overlays_result, transform_models, write_model,
    write_models, WriteModel,
};
use crate::firestore::model::document_key::{lemma_path_lt_irreflexive, lemma_path_lt_total, lemma_path_lt_transitive, path_lt};
use crate::firestore::model::{DocumentKey, Timestamp};
use crate::firestore::remote::datastore::{write_key, WriteOperation};
use crate::firestore::remote::mutation::{MutationBatch, MutationBatchResult, WriteResult};
use crate::firestore::remote::remote_event::{clone_watch, watch_view, RemoteEvent, WatchDocument, WatchModel};
use crate::firestore::remote::mutation::write_keys;
use crate::firestore::query_evaluator::{apply_query_to_documents, doc_views, query_outcome};
use crate::firestore::remote::syncer_bridge::{count_below, has_batch, key_views, token_view, RemoteSyncerBridge, TargetChange, TargetMetadataUpdate};
use crate::firestore::value::value::ValueModel;
use crate::firestore::value::MapValue;
use crate::json::int_text;

verus! {

/// The set of paths of a list of document keys.
pub open spec fn key_set(ks: Seq<DocumentKey>) -> Set<Seq<Seq<char>>> {
    Set::new(|p: Seq<Seq<char>>| exists|i: int| 0 <= i < ks.len() && (#[trigger] ks[i])@ == p)
}

/// Whether the list holds a key with the path of `k`.
fn holds_key(ks: &Vec<DocumentKey>, k: &DocumentKey) -> (r: bool)
    ensures
        r == key_set(ks@).contains(k@),
{
    let mut i: usize = 0;
    while i < ks.len()
        invariant
            i <= ks@.len(),
            forall|j: int| 0 <= j < i ==> (#[trigger] ks@[j])@ != k@,
        decreases ks@.len() - i,
    {
        if ks[i].equals(k) {
            assert(key_set(ks@).contains(k@));
            return true;
        }
        i = i + 1;
    }
    false
}

/// Adds a key to a list of keys, unless its path is already there.
fn insert_key(ks: &mut Vec<DocumentKey>, k: &DocumentKey)
    ensures
        key_set(final(ks)@) == key_set(old(ks)@).insert(k@),
{
    if !holds_key(ks, k) {
        let ghost before = ks@;
        ks.push(k.clone());
        assert forall|p: Seq<Seq<char>>| #[trigger] key_set(ks@).contains(p) == key_set(before).insert(
            k@,
        ).contains(p) by {
            if key_set(before).contains(p) {
                let i = choose|i: int| 0 <= i < before.len() && (#[trigger] before[i])@ == p;
                assert(ks@[i] == before[i]);
            }
            if key_set(ks@).contains(p) {
                let i = choose|i: int| 0 <= i < ks@.len() && (#[trigger] ks@[i])@ == p;
                if i < before.len() {
                    assert(ks@[i] == before[i]);
                }
            }
            if p == k@ {
                assert(ks@[before.len() as int]@ == k@);
            }
        }
        assert(key_set(ks@) =~= key_set(before).insert(k@));
    } else {
        assert(key_set(ks@) =~= key_set(ks@).insert(k@));
    }
}

/// Removes every key with the path of `k` from a list of keys.
fn remove_key(ks: &mut Vec<DocumentKey>, k: &DocumentKey)
    ensures
        key_set(final(ks)@) == key_set(old(ks)@).remove(k@),
{
    let mut kept: Vec<DocumentKey> = Vec::new();
    let mut i: usize = 0;
    while i < ks.len()
        invariant
            i <= ks@.len(),
            forall|j: int| 0 <= j < kept@.len() ==> (#[trigger] kept@[j])@ != k@,
            key_set(kept@) == key_set(ks@.take(i as int)).remove(k@),
        decreases ks@.len() - i,
    {
        let ghost before = kept@;
        if !ks[i].equals(k) {
            kept.push(ks[i].clone());
        }
        proof {
            let t = ks@.take(i + 1);
            assert forall|p: Seq<Seq<char>>| #[trigger] key_set(kept@).contains(p) == key_set(t).remove(
                k@,
            ).contains(p) by {
                if key_set(kept@).contains(p) {
                    let j = choose|j: int| 0 <= j < kept@.len() && (#[trigger] kept@[j])@ == p;
                    if j < before.len() {
                        assert(kept@[j] == before[j]);
                        assert(key_set(before).contains(p));
                        let m = choose|m: int| 0 <= m < i && (#[trigger] ks@.take(i as int)[m])@ == p;
                        assert(t[m] == ks@.take(i as int)[m]);
                    } else {
                        assert(t[i as int]@ == p);
                    }
                }
                if key_set(t).remove(k@).contains(p) {
                    let m = choose|m: int| 0 <= m < t.len() && (#[trigger] t[m])@ == p;
                    if m < i {
                        assert(ks@.take(i as int)[m] == t[m]);
                        assert(key_set(before).contains(p));
                        let j = choose|j: int| 0 <= j < before.len() && (#[trigger] before[j])@ == p;
                        assert(kept@[j] == before[j]);
                    } else {
                        assert(kept@[before.len() as int]@ == p);
                    }
                }
            }
            assert(key_set(kept@) =~= key_set(t).remove(k@));
        }
        i = i + 1;
    }
    assert(ks@.take(i as int) =~= ks@);
    *ks = kept;
}

/// Metadata of one target.
pub struct TargetMetadataSnapshot {
    pub target_id: i32,
    pub resume_token: Option<Vec<u8>>,
    pub snapshot_version: Option<Timestamp>,
    pub current: bool,
    pub remote_keys: Vec<DocumentKey>,
}

/// The content of a target's metadata.
pub struct TargetMeta {
    pub resume_token: Option<Seq<u8>>,
    pub snapshot_version: Option<Timestamp>,
    pub current: bool,
    pub remote_keys: Set<Seq<Seq<char>>>,
}

/// The content of a snapshot.
pub open spec fn meta_of(s: TargetMetadataSnapshot) -> TargetMeta {
    TargetMeta {
        resume_token: token_view(s.resume_token),
        snapshot_version: s.snapshot_version,
        current: s.current,
        remote_keys: key_set(s.remote_keys@),
    }
}

/// The metadata of a target that nothing is known of yet.
pub open spec fn fresh_meta() -> TargetMeta {
    TargetMeta { resume_token: None, snapshot_version: None, current: false, remote_keys: Set::empty() }
}

impl TargetMetadataSnapshot {
    /// No token, no version, not current, no keys.
    pub fn new(target_id: i32) -> (s: Self)
        ensures
            s.target_id == target_id,
            meta_of(s) == fresh_meta(),
    {
        let s = TargetMetadataSnapshot {
            target_id,
            resume_token: None,
            snapshot_version: None,
            current: false,
            remote_keys: Vec::new(),
        };
        assert(key_set(s.remote_keys@) =~= Set::<Seq<Seq<char>>>::empty());
        s
    }
}

/// The metadata of a target after an update: a non-empty resume token and a
/// snapshot version replace the old ones, `current` is taken over, removed
/// documents leave the remote keys and added or modified ones join them.
pub open spec fn updated_meta(m: TargetMeta, u: TargetMetadataUpdate) -> TargetMeta {
    TargetMeta {
        resume_token: match token_view(u.resume_token) {
            Some(t) => if t.len() > 0 {
                Some(t)
            } else {
                m.resume_token
            },
            None => m.resume_token,
        },
        snapshot_version: match u.snapshot_version {
            Some(v) => Some(v),
            None => m.snapshot_version,
        },
        current: u.current,
        remote_keys: m.remote_keys.difference(key_set(u.removed_documents@)).union(
            key_set(u.added_documents@),
        ).union(key_set(u.modified_documents@)),
    }
}

/// The metadata recorded for `id`, or fresh metadata.
pub open spec fn meta_or_fresh(targets: Map<i32, TargetMeta>, id: i32) -> TargetMeta {
    if targets.dom().contains(id) {
        targets[id]
    } else {
        fresh_meta()
    }
}

/// The remote keys of every target but `id`.
pub open spec fn other_remote_keys(targets: Map<i32, TargetMeta>, id: i32) -> Set<Seq<Seq<char>>> {
    Set::new(|p: Seq<Seq<char>>| exists|t: i32| t != id && #[trigger] targets.dom().contains(t) && targets[t].remote_keys.contains(p))
}

/// Target metadata by target id, and the documents in limbo.
pub struct TargetMetadataStore {
    targets: Vec<TargetMetadataSnapshot>,
    limbo: Vec<DocumentKey>,
}

/// The map held by a list of snapshots whose target ids are distinct.
pub open spec fn targets_map(ts: Seq<TargetMetadataSnapshot>) -> Map<i32, TargetMeta>
    decreases ts.len(),
{
    if ts.len() == 0 {
        Map::empty()
    } else {
        targets_map(ts.drop_last()).insert(ts.last().target_id, meta_of(ts.last()))
    }
}

/// Target ids are distinct.
pub open spec fn distinct_targets(ts: Seq<TargetMetadataSnapshot>) -> bool {
    forall|i: int, j: int| 0 <= i < j < ts.len() ==> (#[trigger] ts[i]).target_id != (#[trigger] ts[j]).target_id
}

proof fn lemma_targets_map_has(ts: Seq<TargetMetadataSnapshot>, i: int)
    requires
        distinct_targets(ts),
        0 <= i < ts.len(),
    ensures
        targets_map(ts).dom().contains(ts[i].target_id),
        targets_map(ts)[ts[i].target_id] == meta_of(ts[i]),
    decreases ts.len(),
{
    if i < ts.len() - 1 {
        lemma_targets_map_has(ts.drop_last(), i);
    }
}

proof fn lemma_targets_map_domain(ts: Seq<TargetMetadataSnapshot>)
    ensures
        forall|t: i32| #[trigger] targets_map(ts).dom().contains(t) ==> exists|i: int|
            0 <= i < ts.len() && ts[i].target_id == t,
    decreases ts.len(),
{
    if ts.len() > 0 {
        lemma_targets_map_domain(ts.drop_last());
        assert forall|t: i32| #[trigger] targets_map(ts).dom().contains(t) implies exists|i: int|
            0 <= i < ts.len() && ts[i].target_id == t by {
            if t != ts.last().target_id {
                assert(targets_map(ts.drop_last()).dom().contains(t));
                let i = choose|i: int| 0 <= i < ts.drop_last().len() && ts.drop_last()[i].target_id == t;
                assert(ts[i] == ts.drop_last()[i]);
            } else {
                assert(ts[ts.len() - 1].target_id == t);
            }
        }
    }
}

proof fn lemma_targets_map_update(ts: Seq<TargetMetadataSnapshot>, j: int, e: TargetMetadataSnapshot)
    requires
        distinct_targets(ts),
        0 <= j < ts.len(),
        ts[j].target_id == e.target_id,
    ensures
        targets_map(ts.update(j, e)) == targets_map(ts).insert(e.target_id, meta_of(e)),
        distinct_targets(ts.update(j, e)),
    decreases ts.len(),
{
    let ws = ts.update(j, e);
    if j == ts.len() - 1 {
        assert(ws.drop_last() =~= ts.drop_last());
        assert(targets_map(ws) =~= targets_map(ts).insert(e.target_id, meta_of(e)));
    } else {
        assert(ws.drop_last() =~= ts.drop_last().update(j, e));
        lemma_targets_map_update(ts.drop_last(), j, e);
        assert(ts.last().target_id != e.target_id);
        assert(targets_map(ws) =~= targets_map(ts).insert(e.target_id, meta_of(e)));
    }
}

proof fn lemma_targets_map_push(ts: Seq<TargetMetadataSnapshot>, e: TargetMetadataSnapshot)
    requires
        distinct_targets(ts),
        forall|i: int| 0 <= i < ts.len() ==> (#[trigger] ts[i]).target_id != e.target_id,
    ensures
        targets_map(ts.push(e)) == targets_map(ts).insert(e.target_id, meta_of(e)),
        distinct_targets(ts.push(e)),
{
    let ws = ts.push(e);
    assert(ws.drop_last() =~= ts);
    assert forall|a: int, b: int| 0 <= a < b < ws.len() implies (#[trigger] ws[a]).target_id != (
    #[trigger] ws[b]).target_id by {
        assert(ws[a] == ts[a]);
        if b < ts.len() {
            assert(ws[b] == ts[b]);
        }
    }
}

impl View for TargetMetadataStore {
    type V = (Map<i32, TargetMeta>, Set<Seq<Seq<char>>>);

    closed spec fn view(&self) -> (Map<i32, TargetMeta>, Set<Seq<Seq<char>>>) {
        (targets_map(self.targets@), key_set(self.limbo@))
    }
}

fn copy_keys_into(dst: &mut Vec<DocumentKey>, src: &Vec<DocumentKey>)
    ensures
        key_set(final(dst)@) == key_set(old(dst)@).union(key_set(src@)),
{
    let mut i: usize = 0;
    let ghost start = dst@;
    while i < src.len()
        invariant
            i <= src@.len(),
            key_set(dst@) == key_set(start).union(key_set(src@.take(i as int))),
        decreases src@.len() - i,
    {
        let ghost before = dst@;
        insert_key(dst, &src[i]);
        proof {
            assert forall|p: Seq<Seq<char>>| #[trigger] key_set(src@.take(i + 1)).contains(p) == key_set(
                src@.take(i as int),
            ).insert(src@[i as int]@).contains(p) by {
                if key_set(src@.take(i + 1)).contains(p) {
                    let m = choose|m: int| 0 <= m < i + 1 && (#[trigger] src@.take(i + 1)[m])@ == p;
                    if m < i {
                        assert(src@.take(i as int)[m] == src@.take(i + 1)[m]);
                    }
                }
                if key_set(src@.take(i as int)).contains(p) {
                    let m = choose|m: int| 0 <= m < i && (#[trigger] src@.take(i as int)[m])@ == p;
                    assert(src@.take(i + 1)[m] == src@.take(i as int)[m]);
                }
                if p == src@[i as int]@ {
                    assert(src@.take(i + 1)[i as int] == src@[i as int]);
                }
            }
            assert(key_set(src@.take(i + 1)) =~= key_set(src@.take(i as int)).insert(src@[i as int]@));
            assert(key_set(dst@) =~= key_set(start).union(key_set(src@.take(i + 1))));
        }
        i = i + 1;
    }
    assert(src@.take(i as int) =~= src@);
}

fn remove_keys(dst: &mut Vec<DocumentKey>, src: &Vec<DocumentKey>)
    ensures
        key_set(final(dst)@) == key_set(old(dst)@).difference(key_set(src@)),
{
    let mut i: usize = 0;
    let ghost start = dst@;
    assert(key_set(src@.take(0)) =~= Set::<Seq<Seq<char>>>::empty());
    assert(key_set(dst@) =~= key_set(start).difference(key_set(src@.take(0))));
    while i < src.len()
        invariant
            i <= src@.len(),
            key_set(dst@) == key_set(start).difference(key_set(src@.take(i as int))),
        decreases src@.len() - i,
    {
        remove_key(dst, &src[i]);
        proof {
            assert forall|p: Seq<Seq<char>>| #[trigger] key_set(src@.take(i + 1)).contains(p) == key_set(
                src@.take(i as int),
            ).insert(src@[i as int]@).contains(p) by {
                if key_set(src@.take(i + 1)).contains(p) {
                    let m = choose|m: int| 0 <= m < i + 1 && (#[trigger] src@.take(i + 1)[m])@ == p;
                    if m < i {
                        assert(src@.take(i as int)[m] == src@.take(i + 1)[m]);
                    }
                }
                if key_set(src@.take(i as int)).contains(p) {
                    let m = choose|m: int| 0 <= m < i && (#[trigger] src@.take(i as int)[m])@ == p;
                    assert(src@.take(i + 1)[m] == src@.take(i as int)[m]);
                }
                if p == src@[i as int]@ {
                    assert(src@.take(i + 1)[i as int] == src@[i as int]);
                }
            }
            assert(key_set(src@.take(i + 1)) =~= key_set(src@.take(i as int)).insert(src@[i as int]@));
            assert(key_set(dst@) =~= key_set(start).difference(key_set(src@.take(i + 1))));
        }
        i = i + 1;
    }
    assert(src@.take(i as int) =~= src@);
}

impl TargetMetadataStore {
    #[verifier::type_invariant]
    spec fn ids_distinct(&self) -> bool {
        distinct_targets(self.targets@)
    }

    /// No targets and no documents in limbo.
    pub fn new() -> (s: Self)
        ensures
            s@.0 == Map::<i32, TargetMeta>::empty(),
            s@.1 == Set::<Seq<Seq<char>>>::empty(),
    {
        let s = TargetMetadataStore { targets: Vec::new(), limbo: Vec::new() };
        assert(key_set(s.limbo@) =~= Set::<Seq<Seq<char>>>::empty());
        s
    }

    fn position(&self, target_id: i32) -> (r: Option<usize>)
        ensures
            match r {
                Some(j) => j < self.targets@.len() && self.targets@[j as int].target_id == target_id,
                None => forall|m: int| 0 <= m < self.targets@.len() ==> (
                #[trigger] self.targets@[m]).target_id != target_id,
            },
    {
        let mut j: usize = 0;
        while j < self.targets.len()
            invariant
                j <= self.targets@.len(),
                forall|m: int| 0 <= m < j ==> (#[trigger] self.targets@[m]).target_id != target_id,
            decreases self.targets@.len() - j,
        {
            if self.targets[j].target_id == target_id {
                return Some(j);
            }
            j = j + 1;
        }
        None
    }

    /// Takes out the snapshot of `target_id`, or a new one.
    fn take_entry(&mut self, target_id: i32) -> (r: (TargetMetadataSnapshot, Option<usize>))
        ensures
            r.0.target_id == target_id,
            meta_of(r.0) == meta_or_fresh(old(self)@.0, target_id),
            final(self)@ == old(self)@,
            final(self).targets@ == old(self).targets@,
            final(self).limbo@ == old(self).limbo@,
            match r.1 {
                Some(j) => j < old(self).targets@.len() && old(self).targets@[j as int].target_id
                    == target_id,
                None => forall|m: int| 0 <= m < old(self).targets@.len() ==> (
                #[trigger] old(self).targets@[m]).target_id != target_id,
            },
    {
        proof {
            use_type_invariant(&*self);
        }
        match self.position(target_id) {
            Some(j) => {
                proof {
                    lemma_targets_map_has(self.targets@, j as int);
                }
                let t = &self.targets[j];
                let mut keys: Vec<DocumentKey> = Vec::new();
                copy_keys_into(&mut keys, &t.remote_keys);
                proof {
                    assert(key_set(Seq::<DocumentKey>::empty()) =~= Set::<Seq<Seq<char>>>::empty());
                    assert(key_set(keys@) =~= key_set(t.remote_keys@));
                }
                let token = match &t.resume_token {
                    Some(v) => Some(v.clone()),
                    None => None,
                };
                (
                    TargetMetadataSnapshot {
                        target_id,
                        resume_token: token,
                        snapshot_version: t.snapshot_version,
                        current: t.current,
                        remote_keys: keys,
                    },
                    Some(j),
                )
            },
            None => {
                proof {
                    lemma_targets_map_domain(self.targets@);
                }
                (TargetMetadataSnapshot::new(target_id), None)
            },
        }
    }

    /// Puts back the snapshot of a target.
    fn put_entry(&mut self, entry: TargetMetadataSnapshot, position: Option<usize>)
        requires
            match position {
                Some(j) => j < old(self).targets@.len() && old(self).targets@[j as int].target_id
                    == entry.target_id,
                None => forall|m: int| 0 <= m < old(self).targets@.len() ==> (
                #[trigger] old(self).targets@[m]).target_id != entry.target_id,
            },
        ensures
            final(self)@.0 == old(self)@.0.insert(entry.target_id, meta_of(entry)),
            final(self).limbo@ == old(self).limbo@,
    {
        proof {
            use_type_invariant(&*self);
        }
        let ghost e = entry;
        let mut targets = Vec::new();
        std::mem::swap(&mut targets, &mut self.targets);
        match position {
            Some(j) => {
                proof {
                    lemma_targets_map_update(targets@, j as int, e);
                }
                targets.set(j, entry);
            },
            None => {
                proof {
                    lemma_targets_map_push(targets@, e);
                }
                targets.push(entry);
            },
        }
        self.targets = targets;
    }

    /// Applies a watch update to the metadata of `target_id`; returns the new
    /// metadata.
    pub fn update_target_metadata(&mut self, target_id: i32, update: TargetMetadataUpdate) -> (r: TargetMetadataSnapshot)
        ensures
            final(self)@.0 == old(self)@.0.insert(
                target_id,
                updated_meta(meta_or_fresh(old(self)@.0, target_id), update),
            ),
            final(self)@.1 == old(self)@.1,
            r.target_id == target_id,
            meta_of(r) == updated_meta(meta_or_fresh(old(self)@.0, target_id), update),
    {
        let (mut entry, position) = self.take_entry(target_id);
        let ghost m = meta_of(entry);
        if let Some(token) = &update.resume_token {
            if token.len() > 0 {
                entry.resume_token = Some(token.clone());
            }
        }
        if let Some(version) = update.snapshot_version {
            entry.snapshot_version = Some(version);
        }
        entry.current = update.current;
        remove_keys(&mut entry.remote_keys, &update.removed_documents);
        copy_keys_into(&mut entry.remote_keys, &update.added_documents);
        copy_keys_into(&mut entry.remote_keys, &update.modified_documents);
        let saved = TargetMetadataSnapshot {
            target_id,
            resume_token: match &entry.resume_token {
                Some(v) => Some(v.clone()),
                None => None,
            },
            snapshot_version: entry.snapshot_version,
            current: entry.current,
            remote_keys: {
                let mut ks: Vec<DocumentKey> = Vec::new();
                copy_keys_into(&mut ks, &entry.remote_keys);
                proof {
                    assert(key_set(Seq::<DocumentKey>::empty()) =~= Set::<Seq<Seq<char>>>::empty());
                    assert(key_set(ks@) =~= key_set(entry.remote_keys@));
                }
                ks
            },
        };
        assert(meta_of(entry) == updated_meta(m, update));
        self.put_entry(entry, position);
        saved
    }

    /// Whether some target other than `target_id` has `key` among its remote
    /// keys.
    fn held_by_other(&self, target_id: i32, key: &DocumentKey) -> (r: bool)
        ensures
            r == other_remote_keys(self@.0, target_id).contains(key@),
    {
        proof {
            use_type_invariant(self);
            lemma_targets_map_domain(self.targets@);
        }
        let mut i: usize = 0;
        while i < self.targets.len()
            invariant
                i <= self.targets@.len(),
                distinct_targets(self.targets@),
                forall|j: int| 0 <= j < i && (#[trigger] self.targets@[j]).target_id != target_id
                    ==> !key_set(self.targets@[j].remote_keys@).contains(key@),
            decreases self.targets@.len() - i,
        {
            if self.targets[i].target_id != target_id && holds_key(&self.targets[i].remote_keys, key) {
                proof {
                    lemma_targets_map_has(self.targets@, i as int);
                    let t = self.targets@[i as int].target_id;
                    assert(self@.0.dom().contains(t));
                }
                return true;
            }
            i = i + 1;
        }
        proof {
            if other_remote_keys(self@.0, target_id).contains(key@) {
                let t = choose|t: i32| t != target_id && #[trigger] self@.0.dom().contains(t) && self@.0[t].remote_keys.contains(key@);
                let j = choose|j: int| 0 <= j < self.targets@.len() && self.targets@[j].target_id == t;
                lemma_targets_map_has(self.targets@, j);
            }
        }
        false
    }

    /// Forgets what is known of `target_id`: its metadata becomes fresh, and
    /// its former remote keys that no other target holds go into limbo.
    /// Returns the fresh metadata.
    pub fn reset_target_metadata(&mut self, target_id: i32) -> (r: TargetMetadataSnapshot)
        ensures
            final(self)@.0 == old(self)@.0.insert(target_id, fresh_meta()),
            final(self)@.1 == old(self)@.1.union(
                meta_or_fresh(old(self)@.0, target_id).remote_keys.difference(
                    other_remote_keys(old(self)@.0, target_id),
                ),
            ),
            r.target_id == target_id,
            meta_of(r) == fresh_meta(),
    {
        proof {
            use_type_invariant(&*self);
        }
        let (entry, position) = self.take_entry(target_id);
        let prior = entry.remote_keys;
        let ghost old_limbo = key_set(self.limbo@);
        let ghost others = other_remote_keys(self@.0, target_id);
        let mut i: usize = 0;
        while i < prior.len()
            invariant
                i <= prior@.len(),
                self@.0 == old(self)@.0,
                self.targets@ == old(self).targets@,
                distinct_targets(self.targets@),
                others == other_remote_keys(self@.0, target_id),
                key_set(self.limbo@) == old_limbo.union(key_set(prior@.take(i as int)).difference(others)),
            decreases prior@.len() - i,
        {
            let k = &prior[i];
            let held = self.held_by_other(target_id, k);
            if !held {
                let mut limbo = Vec::new();
                std::mem::swap(&mut limbo, &mut self.limbo);
                insert_key(&mut limbo, k);
                self.limbo = limbo;
            }
            proof {
                assert forall|p: Seq<Seq<char>>| #[trigger] key_set(prior@.take(i + 1)).contains(p) == key_set(
                    prior@.take(i as int),
                ).insert(prior@[i as int]@).contains(p) by {
                    if key_set(prior@.take(i + 1)).contains(p) {
                        let m = choose|m: int| 0 <= m < i + 1 && (#[trigger] prior@.take(i + 1)[m])@ == p;
                        if m < i {
                            assert(prior@.take(i as int)[m] == prior@.take(i + 1)[m]);
                        }
                    }
                    if key_set(prior@.take(i as int)).contains(p) {
                        let m = choose|m: int| 0 <= m < i && (#[trigger] prior@.take(i as int)[m])@ == p;
                        assert(prior@.take(i + 1)[m] == prior@.take(i as int)[m]);
                    }
                    if p == prior@[i as int]@ {
                        assert(prior@.take(i + 1)[i as int] == prior@[i as int]);
                    }
                }
                assert(key_set(prior@.take(i + 1)) =~= key_set(prior@.take(i as int)).insert(prior@[i as int]@));
                assert(key_set(self.limbo@) =~= old_limbo.union(key_set(prior@.take(i + 1)).difference(others)));
            }
            i = i + 1;
        }
        assert(prior@.take(i as int) =~= prior@);
        let fresh = TargetMetadataSnapshot::new(target_id);
        self.put_entry(TargetMetadataSnapshot::new(target_id), position);
        fresh
    }

    /// Takes resolved documents out of limbo.
    pub fn record_resolved_limbo_documents(&mut self, documents: &Vec<DocumentKey>)
        ensures
            final(self)@.0 == old(self)@.0,
            final(self)@.1 == old(self)@.1.difference(key_set(documents@)),
    {
        proof {
            use_type_invariant(&*self);
        }
        let mut limbo = Vec::new();
        std::mem::swap(&mut limbo, &mut self.limbo);
        remove_keys(&mut limbo, documents);
        self.limbo = limbo;
    }

    /// Puts a document into limbo.
    pub fn track_limbo_document(&mut self, key: DocumentKey)
        ensures
            final(self)@.0 == old(self)@.0,
            final(self)@.1 == old(self)@.1.insert(key@),
    {
        proof {
            use_type_invariant(&*self);
        }
        let mut limbo = Vec::new();
        std::mem::swap(&mut limbo, &mut self.limbo);
        insert_key(&mut limbo, &key);
        self.limbo = limbo;
    }

    /// Whether a document is in limbo.
    pub fn is_in_limbo(&self, key: &DocumentKey) -> (r: bool)
        ensures
            r == self@.1.contains(key@),
    {
        holds_key(&self.limbo, key)
    }

    /// Whether metadata is recorded for `target_id`.
    pub fn has_target_metadata(&self, target_id: i32) -> (r: bool)
        ensures
            r == self@.0.dom().contains(target_id),
    {
        proof {
            use_type_invariant(self);
            lemma_targets_map_domain(self.targets@);
        }
        match self.position(target_id) {
            Some(j) => {
                proof {
                    lemma_targets_map_has(self.targets@, j as int);
                }
                true
            },
            None => false,
        }
    }
}

/// A copy of a target's snapshot.
fn copy_snapshot(t: &TargetMetadataSnapshot) -> (r: TargetMetadataSnapshot)
    ensures
        r.target_id == t.target_id,
        meta_of(r) == meta_of(*t),
{
    let mut keys: Vec<DocumentKey> = Vec::new();
    copy_keys_into(&mut keys, &t.remote_keys);
    proof {
        assert(key_set(Seq::<DocumentKey>::empty()) =~= Set::<Seq<Seq<char>>>::empty());
        assert(key_set(keys@) =~= key_set(t.remote_keys@));
    }
    TargetMetadataSnapshot {
        target_id: t.target_id,
        resume_token: match &t.resume_token {
            Some(v) => Some(v.clone()),
            None => None,
        },
        snapshot_version: t.snapshot_version,
        current: t.current,
        remote_keys: keys,
    }
}

/// The metadata of a target once an event at `version` reached it: the
/// version is recorded, and the target becomes current if the event says so.
pub open spec fn versioned_meta(m: TargetMeta, version: Timestamp, current: bool) -> TargetMeta {
    TargetMeta { snapshot_version: Some(version), current: m.current || current, ..m }
}

/// The ids of a list of target ids, as a set.
pub open spec fn id_set(ids: Seq<i32>) -> Set<i32> {
    Set::new(|t: i32| ids.contains(t))
}

impl TargetMetadataStore {
    /// The metadata of `target_id`, if any is recorded.
    pub fn target_metadata_snapshot(&self, target_id: i32) -> (r: Option<TargetMetadataSnapshot>)
        ensures
            match r {
                Some(s) => self@.0.dom().contains(target_id) && s.target_id == target_id && meta_of(s)
                    == self@.0[target_id],
                None => !self@.0.dom().contains(target_id),
            },
    {
        proof {
            use_type_invariant(self);
            lemma_targets_map_domain(self.targets@);
        }
        match self.position(target_id) {
            Some(j) => {
                proof {
                    lemma_targets_map_has(self.targets@, j as int);
                }
                Some(copy_snapshot(&self.targets[j]))
            },
            None => None,
        }
    }

    /// Records `snapshot` as the metadata of its target.
    pub fn restore_target_snapshot(&mut self, snapshot: TargetMetadataSnapshot)
        ensures
            final(self)@.0 == old(self)@.0.insert(snapshot.target_id, meta_of(snapshot)),
            final(self)@.1 == old(self)@.1,
    {
        let (_, position) = self.take_entry(snapshot.target_id);
        self.put_entry(snapshot, position);
    }

    /// The remote keys of `target_id` become `keys`; returns the new
    /// metadata.
    pub fn replace_remote_keys(&mut self, target_id: i32, keys: &Vec<DocumentKey>) -> (r: TargetMetadataSnapshot)
        ensures
            final(self)@.0 == old(self)@.0.insert(
                target_id,
                TargetMeta { remote_keys: key_set(keys@), ..meta_or_fresh(old(self)@.0, target_id) },
            ),
            final(self)@.1 == old(self)@.1,
            r.target_id == target_id,
            meta_of(r) == final(self)@.0[target_id],
    {
        let (mut entry, position) = self.take_entry(target_id);
        let mut ks: Vec<DocumentKey> = Vec::new();
        copy_keys_into(&mut ks, keys);
        proof {
            assert(key_set(Seq::<DocumentKey>::empty()) =~= Set::<Seq<Seq<char>>>::empty());
            assert(key_set(ks@) =~= key_set(keys@));
        }
        entry.remote_keys = ks;
        let saved = copy_snapshot(&entry);
        self.put_entry(entry, position);
        saved
    }

    /// Records that an event at `version` reached `target_id`; the target
    /// becomes current if `current`. Returns the new metadata, to be
    /// persisted.
    pub fn record_snapshot_version(&mut self, target_id: i32, version: Timestamp, current: bool) -> (r: TargetMetadataSnapshot)
        ensures
            final(self)@.0 == old(self)@.0.insert(
                target_id,
                versioned_meta(meta_or_fresh(old(self)@.0, target_id), version, current),
            ),
            final(self)@.1 == old(self)@.1,
            r.target_id == target_id,
            meta_of(r) == final(self)@.0[target_id],
    {
        let (mut entry, position) = self.take_entry(target_id);
        entry.snapshot_version = Some(version);
        if current {
            entry.current = true;
        }
        let saved = copy_snapshot(&entry);
        self.put_entry(entry, position);
        saved
    }

    /// The ids of the targets with recorded metadata.
    pub fn target_ids(&self) -> (r: Vec<i32>)
        ensures
            id_set(r@) == self@.0.dom(),
            r@.no_duplicates(),
    {
        proof {
            use_type_invariant(self);
            lemma_targets_map_domain(self.targets@);
        }
        let mut ids: Vec<i32> = Vec::new();
        let mut i: usize = 0;
        while i < self.targets.len()
            invariant
                i <= self.targets@.len(),
                ids@ == self.targets@.take(i as int).map_values(|t: TargetMetadataSnapshot| t.target_id),
            decreases self.targets@.len() - i,
        {
            ids.push(self.targets[i].target_id);
            assert(self.targets@.take(i + 1).map_values(|t: TargetMetadataSnapshot| t.target_id) =~= ids@);
            i = i + 1;
        }
        assert(self.targets@.take(i as int) =~= self.targets@);
        assert forall|t: i32| #[trigger] id_set(ids@).contains(t) == self@.0.dom().contains(t) by {
            if ids@.contains(t) {
                let j = choose|j: int| 0 <= j < ids@.len() && ids@[j] == t;
                lemma_targets_map_has(self.targets@, j);
            }
            if self@.0.dom().contains(t) {
                let j = choose|j: int| 0 <= j < self.targets@.len() && self.targets@[j].target_id == t;
                assert(ids@[j] == t);
            }
        }
        assert(id_set(ids@) =~= self@.0.dom());
        assert forall|a: int, b: int| 0 <= a < b < ids@.len() implies ids@[a] != ids@[b] by {
            assert(ids@[a] == self.targets@[a].target_id && ids@[b] == self.targets@[b].target_id);
        }
        ids
    }

    /// The documents in limbo.
    pub fn limbo_documents_snapshot(&self) -> (r: Vec<DocumentKey>)
        ensures
            key_set(r@) == self@.1,
    {
        let mut ks: Vec<DocumentKey> = Vec::new();
        copy_keys_into(&mut ks, &self.limbo);
        proof {
            assert(key_set(Seq::<DocumentKey>::empty()) =~= Set::<Seq<Seq<char>>>::empty());
            assert(key_set(ks@) =~= key_set(self.limbo@));
        }
        ks
    }

    /// Forgets every target and every document in limbo; returns the ids of
    /// the targets forgotten.
    pub fn clear(&mut self) -> (r: Vec<i32>)
        ensures
            id_set(r@) == old(self)@.0.dom(),
            r@.no_duplicates(),
            final(self)@.0 == Map::<i32, TargetMeta>::empty(),
            final(self)@.1 == Set::<Seq<Seq<char>>>::empty(),
    {
        let ids = self.target_ids();
        self.targets = Vec::new();
        self.limbo = Vec::new();
        assert(key_set(self.limbo@) =~= Set::<Seq<Seq<char>>>::empty());
        assert(targets_map(self.targets@) =~= Map::<i32, TargetMeta>::empty());
        ids
    }
}

/// The document path a write model targets.
pub open spec fn model_key(w: WriteModel) -> Seq<Seq<char>> {
    match w {
        WriteModel::SetData { key, .. } => key,
        WriteModel::Update { key, .. } => key,
        WriteModel::Delete { key } => key,
    }
}

/// The pending writes recorded for a document, or none.
pub open spec fn pending_at(m: Map<Seq<Seq<char>>, Seq<WriteModel>>, k: Seq<Seq<char>>) -> Seq<WriteModel> {
    if m.dom().contains(k) {
        m[k]
    } else {
        Seq::empty()
    }
}

/// The pending writes after `ws` are queued: each write joins the end of the
/// list of its document.
pub open spec fn queued_overlays(m: Map<Seq<Seq<char>>, Seq<WriteModel>>, ws: Seq<WriteModel>) -> Map<
    Seq<Seq<char>>,
    Seq<WriteModel>,
>
    decreases ws.len(),
{
    if ws.len() == 0 {
        m
    } else {
        let before = queued_overlays(m, ws.drop_last());
        let k = model_key(ws.last());
        before.insert(k, pending_at(before, k).push(ws.last()))
    }
}

/// The requests to keep each document's pending writes as each write of
/// `ws` joins them, in order.
pub open spec fn overlay_saves(m: Map<Seq<Seq<char>>, Seq<WriteModel>>, ws: Seq<WriteModel>) -> Seq<PersistModel>
    decreases ws.len(),
{
    if ws.len() == 0 {
        Seq::empty()
    } else {
        let k = model_key(ws.last());
        overlay_saves(m, ws.drop_last()).push(PersistModel::SaveOverlay(k, pending_at(queued_overlays(m, ws), k)))
    }
}

/// The pending writes held by a map of write lists, by their models.
pub open spec fn overlay_view(o: KeyMap<Vec<WriteOperation>>) -> Map<Seq<Seq<char>>, Seq<WriteModel>> {
    o@.map_values(|v: Vec<WriteOperation>| write_models(v@))
}

/// The documents held by a map, by their models.
pub open spec fn document_view(d: KeyMap<Option<WatchDocument>>) -> Map<Seq<Seq<char>>, Option<WatchModel>> {
    d@.map_values(|w: Option<WatchDocument>| watch_view(w))
}

/// A request of the store to its persistence layer.
pub enum PersistenceAction {
    /// Keep this metadata for its target.
    SaveTargetMetadata(TargetMetadataSnapshot),
    /// Forget the metadata of a target.
    ClearTargetMetadata(i32),
    /// Keep these pending writes for a document.
    SaveDocumentOverlay(DocumentKey, Vec<WriteOperation>),
    /// Forget the pending writes of a document.
    ClearDocumentOverlay(DocumentKey),
}

/// The content of a persistence request.
pub enum PersistModel {
    SaveTarget(i32, TargetMeta),
    ClearTarget(i32),
    SaveOverlay(Seq<Seq<char>>, Seq<WriteModel>),
    ClearOverlay(Seq<Seq<char>>),
}

/// The content of a persistence request.
pub open spec fn persist_model(a: PersistenceAction) -> PersistModel {
    match a {
        PersistenceAction::SaveTargetMetadata(s) => PersistModel::SaveTarget(s.target_id, meta_of(s)),
        PersistenceAction::ClearTargetMetadata(id) => PersistModel::ClearTarget(id),
        PersistenceAction::SaveDocumentOverlay(k, ws) => PersistModel::SaveOverlay(k@, write_models(ws@)),
        PersistenceAction::ClearDocumentOverlay(k) => PersistModel::ClearOverlay(k@),
    }
}

/// The contents of persistence requests.
pub open spec fn persist_models(s: Seq<PersistenceAction>) -> Seq<PersistModel> {
    s.map_values(|a: PersistenceAction| persist_model(a))
}

/// The journal after the store asks for `requests`: they are appended when a
/// persistence layer is attached, and dropped otherwise.
pub open spec fn logged(s: LocalStoreModel, requests: Seq<PersistModel>) -> Seq<PersistModel> {
    if s.persisting {
        s.journal + requests
    } else {
        s.journal
    }
}

/// The requests to forget the pending writes of the documents in `ks`, in
/// order: one for each document that has some (in `dom`) and is not named
/// earlier in `ks`.
pub open spec fn overlay_clears(dom: Set<Seq<Seq<char>>>, ks: Seq<Seq<Seq<char>>>) -> Seq<PersistModel>
    decreases ks.len(),
{
    if ks.len() == 0 {
        Seq::empty()
    } else {
        let k = ks.last();
        overlay_clears(dom, ks.drop_last()) + if dom.contains(k) && !ks.drop_last().contains(k) {
            seq![PersistModel::ClearOverlay(k)]
        } else {
            Seq::empty()
        }
    }
}

/// A key is among the keys of a list exactly when its path is among their
/// paths.
pub proof fn lemma_key_set_views_contains(ks: Seq<DocumentKey>, p: Seq<Seq<char>>)
    ensures
        key_set(ks).contains(p) == key_views(ks).contains(p),
{
    if key_set(ks).contains(p) {
        let i = choose|i: int| 0 <= i < ks.len() && (#[trigger] ks[i])@ == p;
        assert(key_views(ks)[i] == p);
    }
    if key_views(ks).contains(p) {
        let i = choose|i: int| 0 <= i < key_views(ks).len() && key_views(ks)[i] == p;
        assert(ks[i]@ == p);
    }
}

/// The requests to forget the metadata of the targets in `ids`, in order.
pub open spec fn target_clears(ids: Seq<i32>) -> Seq<PersistModel> {
    ids.map_values(|t: i32| PersistModel::ClearTarget(t))
}

/// Everything the local store holds.
pub struct LocalStoreModel {
    /// Documents as the backend last reported them (`None`: deleted).
    pub documents: Map<Seq<Seq<char>>, Option<WatchModel>>,
    /// Writes not yet acknowledged, by document, in the order queued.
    pub overlays: Map<Seq<Seq<char>>, Seq<WriteModel>>,
    /// Ids of the batches awaiting acknowledgement, in the order queued.
    pub outstanding: Seq<i32>,
    /// Acknowledged batches, in order.
    pub successful: Seq<MutationBatchResult>,
    /// Rejected batches with their errors, in order.
    pub failed: Seq<(i32, FirestoreError)>,
    /// Rejected listens with their errors, in order.
    pub rejected: Seq<(i32, FirestoreError)>,
    /// Remote events applied, in order.
    pub events: Seq<RemoteEvent>,
    /// The id the next batch gets.
    pub next_batch_id: i32,
    /// The last token of the write stream.
    pub last_stream_token: Option<Seq<u8>>,
    /// Write results recorded per batch, in order.
    pub write_results: Seq<(i32, Vec<WriteResult>)>,
    /// Target metadata by target id.
    pub targets: Map<i32, TargetMeta>,
    /// Documents in limbo.
    pub limbo: Set<Seq<Seq<char>>>,
    /// Whether a persistence layer keeps what the store changes.
    pub persisting: bool,
    /// What the store has asked its persistence layer to do, in order, since
    /// the requests were last taken.
    pub journal: Seq<PersistModel>,
}

/// Documents, pending writes and target metadata kept in memory.
pub struct MemoryLocalStore {
    documents: KeyMap<Option<WatchDocument>>,
    remote_events: Vec<RemoteEvent>,
    rejected_targets: Vec<(i32, FirestoreError)>,
    successful_writes: Vec<MutationBatchResult>,
    failed_writes: Vec<(i32, FirestoreError)>,
    outstanding_batches: Vec<i32>,
    overlays: KeyMap<Vec<WriteOperation>>,
    next_batch_id: i32,
    last_stream_token: Option<Vec<u8>>,
    write_results: Vec<(i32, Vec<WriteResult>)>,
    targets: TargetMetadataStore,
    persisting: bool,
    journal: Vec<PersistenceAction>,
}

impl View for MemoryLocalStore {
    type V = LocalStoreModel;

    closed spec fn view(&self) -> LocalStoreModel {
        LocalStoreModel {
            documents: document_view(self.documents),
            overlays: overlay_view(self.overlays),
            outstanding: self.outstanding_batches@,
            successful: self.successful_writes@,
            failed: self.failed_writes@,
            rejected: self.rejected_targets@,
            events: self.remote_events@,
            next_batch_id: self.next_batch_id,
            last_stream_token: token_view(self.last_stream_token),
            write_results: self.write_results@,
            targets: self.targets@.0,
            limbo: self.targets@.1,
            persisting: self.persisting,
            journal: persist_models(self.journal@),
        }
    }
}

/// The store as it starts: empty, with batch ids counted from 1.
pub open spec fn empty_store() -> LocalStoreModel {
    LocalStoreModel {
        documents: Map::empty(),
        overlays: Map::empty(),
        outstanding: Seq::empty(),
        successful: Seq::empty(),
        failed: Seq::empty(),
        rejected: Seq::empty(),
        events: Seq::empty(),
        next_batch_id: 1,
        last_stream_token: None,
        write_results: Seq::empty(),
        targets: Map::empty(),
        limbo: Set::empty(),
        persisting: false,
        journal: Seq::empty(),
    }
}

/// Copies of writes.
fn clone_writes(ws: &Vec<WriteOperation>) -> (r: Vec<WriteOperation>)
    ensures
        write_models(r@) == write_models(ws@),
{
    let mut r: Vec<WriteOperation> = Vec::new();
    let mut i: usize = 0;
    while i < ws.len()
        invariant
            i <= ws@.len(),
            write_models(r@) == write_models(ws@.take(i as int)),
        decreases ws@.len() - i,
    {
        let c = ws[i].clone();
        let ghost before = r@;
        r.push(c);
        assert(ws@.take(i + 1) =~= ws@.take(i as int).push(ws@[i as int]));
        assert(r@ =~= before.push(c));
        assert(write_models(r@) =~= write_models(before).push(write_model(c)));
        assert(write_models(ws@.take(i + 1)) =~= write_models(ws@.take(i as int)).push(write_model(ws@[i as int])));
        i = i + 1;
    }
    assert(ws@.take(i as int) =~= ws@);
    r
}

/// Appends a copy of `w` to the pending writes of its document.
fn push_overlay(overlays: &mut KeyMap<Vec<WriteOperation>>, w: &WriteOperation) -> (r: (DocumentKey, Vec<WriteOperation>))
    ensures
        overlay_view(*final(overlays)) == overlay_view(*old(overlays)).insert(
            write_key(*w)@,
            pending_at(overlay_view(*old(overlays)), write_key(*w)@).push(write_model(*w)),
        ),
        r.0@ == write_key(*w)@,
        write_models(r.1@) == pending_at(overlay_view(*old(overlays)), write_key(*w)@).push(write_model(*w)),
{
    let key = w.key().clone();
    let ghost before = *overlays;
    let mut list = match overlays.remove(&key) {
        Some(v) => v,
        None => Vec::new(),
    };
    let ghost prior = list@;
    assert(write_models(prior) == pending_at(overlay_view(before), key@)) by {
        if !before@.dom().contains(key@) {
            assert(write_models(prior) =~= Seq::<WriteModel>::empty());
        }
    }
    let c = w.clone();
    list.push(c);
    assert(write_models(list@) =~= write_models(prior).push(write_model(*w)));
    let ghost pushed = list;
    let saved = clone_writes(&list);
    let saved_key = key.clone();
    overlays.insert(key, list);
    assert(overlays@ =~= before@.insert(key@, pushed));
    assert(overlay_view(*overlays) =~= overlay_view(before).insert(
        key@,
        pending_at(overlay_view(before), key@).push(write_model(*w)),
    ));
    (saved_key, saved)
}

impl MemoryLocalStore {
    /// An empty store.
    pub fn new() -> (s: Self)
        ensures
            s@ == empty_store(),
    {
        let s = MemoryLocalStore {
            documents: KeyMap::new(),
            remote_events: Vec::new(),
            rejected_targets: Vec::new(),
            successful_writes: Vec::new(),
            failed_writes: Vec::new(),
            outstanding_batches: Vec::new(),
            overlays: KeyMap::new(),
            next_batch_id: 1,
            last_stream_token: None,
            write_results: Vec::new(),
            targets: TargetMetadataStore::new(),
            persisting: false,
            journal: Vec::new(),
        };
        assert(document_view(s.documents) =~= Map::<Seq<Seq<char>>, Option<WatchModel>>::empty());
        assert(overlay_view(s.overlays) =~= Map::<Seq<Seq<char>>, Seq<WriteModel>>::empty());
        assert(persist_models(s.journal@) =~= Seq::<PersistModel>::empty());
        assert(s@ =~= empty_store());
        s
    }

    /// An empty store with a persistence layer attached: from now on it
    /// journals what that layer must keep or forget.
    pub fn with_persistence() -> (s: Self)
        ensures
            s@ == (LocalStoreModel { persisting: true, ..empty_store() }),
    {
        let mut s = Self::new();
        s.persisting = true;
        s
    }

    /// The persistence requests not yet taken, in order.
    pub fn persistence_actions(&self) -> (r: &Vec<PersistenceAction>)
        ensures
            persist_models(r@) == self@.journal,
    {
        &self.journal
    }

    /// Takes the persistence requests made so far, in order, for the runner
    /// to hand to the persistence layer.
    pub fn take_persistence_actions(&mut self) -> (r: Vec<PersistenceAction>)
        ensures
            persist_models(r@) == old(self)@.journal,
            final(self)@ == (LocalStoreModel { journal: Seq::empty(), ..old(self)@ }),
    {
        let mut r = Vec::new();
        std::mem::swap(&mut r, &mut self.journal);
        assert(persist_models(self.journal@) =~= Seq::<PersistModel>::empty());
        r
    }

    /// Removes the pending writes of the documents in `keys`, asking the
    /// persistence layer, if any, to forget each list removed.
    fn clear_overlays(&mut self, keys: &Vec<DocumentKey>)
        ensures
            final(self)@ == (LocalStoreModel {
                overlays: old(self)@.overlays.remove_keys(key_set(keys@)),
                journal: logged(old(self)@, overlay_clears(old(self)@.overlays.dom(), key_views(keys@))),
                ..old(self)@
            }),
    {
        let ghost dom = old(self)@.overlays.dom();
        let mut i: usize = 0;
        assert(key_set(keys@.take(0)) =~= Set::<Seq<Seq<char>>>::empty());
        assert(old(self)@.overlays.remove_keys(key_set(keys@.take(0))) =~= old(self)@.overlays);
        assert(logged(old(self)@, overlay_clears(dom, key_views(keys@.take(0)))) =~= old(self)@.journal);
        while i < keys.len()
            invariant
                i <= keys@.len(),
                dom == old(self)@.overlays.dom(),
                self@ == (LocalStoreModel {
                    overlays: old(self)@.overlays.remove_keys(key_set(keys@.take(i as int))),
                    journal: logged(old(self)@, overlay_clears(dom, key_views(keys@.take(i as int)))),
                    ..old(self)@
                }),
            decreases keys@.len() - i,
        {
            let ghost before = self@;
            let ghost k = keys@[i as int]@;
            let ghost t = keys@.take(i + 1);
            proof {
                assert(t.drop_last() =~= keys@.take(i as int));
                assert(t.last() == keys@[i as int]);
                assert(key_set(t) =~= key_set(keys@.take(i as int)).insert(k)) by {
                    assert forall|p: Seq<Seq<char>>| #[trigger] key_set(t).contains(p) == key_set(keys@.take(i as int)).insert(k).contains(p) by {
                        if key_set(t).contains(p) {
                            let m = choose|m: int| 0 <= m < t.len() && (#[trigger] t[m])@ == p;
                            if m < i {
                                assert(keys@.take(i as int)[m] == t[m]);
                            }
                        }
                        if key_set(keys@.take(i as int)).contains(p) {
                            let m = choose|m: int| 0 <= m < i && (#[trigger] keys@.take(i as int)[m])@ == p;
                            assert(t[m] == keys@.take(i as int)[m]);
                        }
                        if p == k {
                            assert(t[i as int]@ == k);
                        }
                    }
                }
            }
            proof {
                assert(key_views(t).drop_last() =~= key_views(keys@.take(i as int)));
                assert(key_views(t).last() == k);
                lemma_key_set_views_contains(keys@.take(i as int), k);
            }
            let ghost present = before.overlays.dom().contains(k);
            assert(present == (dom.contains(k) && !key_set(keys@.take(i as int)).contains(k)));
            let removed = self.overlays.remove(&keys[i]);
            match removed {
                Some(_) => {
                    self.record(PersistenceAction::ClearDocumentOverlay(keys[i].clone()));
                },
                None => {},
            }
            proof {
                assert(overlay_view(self.overlays) =~= before.overlays.remove(k));
                assert(before.overlays.remove(k) =~= old(self)@.overlays.remove_keys(key_set(t)));
                if old(self)@.persisting {
                    if present {
                        assert(logged(old(self)@, overlay_clears(dom, key_views(t))) =~= before.journal + seq![PersistModel::ClearOverlay(k)]);
                    } else {
                        assert(logged(old(self)@, overlay_clears(dom, key_views(t))) =~= before.journal);
                    }
                }
            }
            i = i + 1;
        }
        assert(keys@.take(i as int) =~= keys@);
    }

    /// Asks the persistence layer, if any, for `action`.
    fn record(&mut self, action: PersistenceAction)
        ensures
            final(self)@ == (LocalStoreModel { journal: logged(old(self)@, seq![persist_model(action)]), ..old(self)@ }),
    {
        if self.persisting {
            let ghost before = self.journal@;
            let ghost m = persist_model(action);
            self.journal.push(action);
            assert(persist_models(self.journal@) =~= persist_models(before) + seq![m]);
        }
    }

    /// Queues `writes` as one batch, created at `local_write_time`: the batch
    /// gets the next batch id and enters the queue of `bridge`, its id joins the
    /// outstanding ones, and each write joins the pending writes of its
    /// document. An empty batch is refused and consumes no id; a batch whose
    /// id that queue already holds is refused after the id is consumed.
    pub fn queue_mutation_batch_at(
        &mut self,
        bridge: &mut RemoteSyncerBridge,
        writes: Vec<WriteOperation>,
        local_write_time: Timestamp,
    ) -> (r: FirestoreResult<i32>)
        ensures
            writes@.len() == 0 ==> r is Err && r->Err_0.code == FirestoreErrorCode::InvalidArgument
                && r->Err_0.message@ == "mutation batch must contain at least one write"@ && final(self)@
                == old(self)@ && final(bridge)@ == old(bridge)@,
            writes@.len() > 0 && has_batch(old(bridge)@.1, old(self)@.next_batch_id) ==> r is Err
                && r->Err_0.code == FirestoreErrorCode::Internal && r->Err_0.message@
                == "Duplicate mutation batch id "@ + int_text(old(self)@.next_batch_id as int) + " queued"@
                && final(bridge)@ == old(bridge)@ && final(self)@ == (LocalStoreModel {
                next_batch_id: old(self)@.next_batch_id.wrapping_add(1),
                ..old(self)@
            }),
            writes@.len() > 0 && !has_batch(old(bridge)@.1, old(self)@.next_batch_id) ==> r == Ok::<
                i32,
                FirestoreError,
            >(old(self)@.next_batch_id) && (exists|b: MutationBatch|
                #![trigger old(bridge)@.1.insert(count_below(old(bridge)@.1, b.batch_id as int), b)]
                b.batch_id == old(self)@.next_batch_id && b.local_write_time == local_write_time
                    && b.base_writes@.len() == 0 && b.writes == writes && final(bridge)@.0 == old(bridge)@.0
                    && final(bridge)@.1 == old(bridge)@.1.insert(count_below(old(bridge)@.1, b.batch_id as int), b)) && final(self)@ == (LocalStoreModel {
                next_batch_id: old(self)@.next_batch_id.wrapping_add(1),
                outstanding: old(self)@.outstanding.push(old(self)@.next_batch_id),
                overlays: queued_overlays(old(self)@.overlays, write_models(writes@)),
                journal: logged(old(self)@, overlay_saves(old(self)@.overlays, write_models(writes@))),
                ..old(self)@
            }),
    {
        if writes.len() == 0 {
            return Err(invalid_argument("mutation batch must contain at least one write"));
        }
        let batch_id = self.next_batch_id;
        self.next_batch_id = batch_id.wrapping_add(1);
        let copies = clone_writes(&writes);
        let ghost ws = writes;
        let batch = MutationBatch::from_writes(batch_id, local_write_time, writes);
        let ghost b = batch;
        match bridge.enqueue_batch(batch) {
            Err(e) => {
                return Err(e);
            },
            Ok(()) => {},
        }
        self.outstanding_batches.push(batch_id);
        let mut overlays = KeyMap::new();
        std::mem::swap(&mut overlays, &mut self.overlays);
        let ghost start = overlay_view(overlays);
        let ghost mid = self@;
        let mut i: usize = 0;
        assert(write_models(copies@.take(0)) =~= Seq::<WriteModel>::empty());
        assert(logged(mid, overlay_saves(start, write_models(copies@.take(0)))) =~= mid.journal);
        while i < copies.len()
            invariant
                i <= copies@.len(),
                write_models(copies@) == write_models(ws@),
                overlay_view(overlays) == queued_overlays(start, write_models(copies@.take(i as int))),
                self@ == (LocalStoreModel {
                    journal: logged(mid, overlay_saves(start, write_models(copies@.take(i as int)))),
                    ..mid
                }),
            decreases copies@.len() - i,
        {
            let ghost jb = self@.journal;
            let (key, list) = push_overlay(&mut overlays, &copies[i]);
            self.record(PersistenceAction::SaveDocumentOverlay(key, list));
            proof {
                let t = write_models(copies@.take(i + 1));
                assert(t.drop_last() =~= write_models(copies@.take(i as int)));
                assert(t.last() == write_model(copies@[i as int]));
                assert(model_key(write_model(copies@[i as int])) == write_key(copies@[i as int])@);
                let k = model_key(t.last());
                assert(pending_at(queued_overlays(start, t), k) == pending_at(queued_overlays(start, t.drop_last()), k).push(t.last()));
                if mid.persisting {
                    assert(logged(mid, overlay_saves(start, t)) =~= jb + seq![PersistModel::SaveOverlay(k, pending_at(queued_overlays(start, t), k))]);
                }
            }
            i = i + 1;
        }
        assert(copies@.take(i as int) =~= copies@);
        self.overlays = overlays;
        assert(self@.overlays == queued_overlays(old(self)@.overlays, write_models(ws@)));
        Ok(batch_id)
    }

    /// Queues `writes` as one batch created now; see
    /// [`MemoryLocalStore::queue_mutation_batch_at`], which says what happens
    /// for every creation time.
    pub fn queue_mutation_batch(&mut self, bridge: &mut RemoteSyncerBridge, writes: Vec<WriteOperation>) -> (r:
        FirestoreResult<i32>)
        ensures
            writes@.len() == 0 ==> r is Err && r->Err_0.code == FirestoreErrorCode::InvalidArgument
                && final(self)@ == old(self)@ && final(bridge)@ == old(bridge)@,
            writes@.len() > 0 && !has_batch(old(bridge)@.1, old(self)@.next_batch_id) ==> r == Ok::<
                i32,
                FirestoreError,
            >(old(self)@.next_batch_id) && final(bridge)@.0 == old(bridge)@.0 && final(self)@ == (LocalStoreModel {
                next_batch_id: old(self)@.next_batch_id.wrapping_add(1),
                outstanding: old(self)@.outstanding.push(old(self)@.next_batch_id),
                overlays: queued_overlays(old(self)@.overlays, write_models(writes@)),
                journal: logged(old(self)@, overlay_saves(old(self)@.overlays, write_models(writes@))),
                ..old(self)@
            }),
            writes@.len() > 0 && has_batch(old(bridge)@.1, old(self)@.next_batch_id) ==> r is Err
                && final(bridge)@ == old(bridge)@,
    {
        let now = Timestamp::now();
        self.queue_mutation_batch_at(bridge, writes, now)
    }
}

/// The documents after the updates of an event are applied in order.
pub open spec fn updated_documents(
    m: Map<Seq<Seq<char>>, Option<WatchModel>>,
    us: Seq<(DocumentKey, Option<WatchDocument>)>,
) -> Map<Seq<Seq<char>>, Option<WatchModel>>
    decreases us.len(),
{
    if us.len() == 0 {
        m
    } else {
        updated_documents(m, us.drop_last()).insert(us.last().0@, watch_view(us.last().1))
    }
}

/// The paths of the documents an event updates.
pub open spec fn update_keys(us: Seq<(DocumentKey, Option<WatchDocument>)>) -> Set<Seq<Seq<char>>> {
    Set::new(|p: Seq<Seq<char>>| exists|i: int| 0 <= i < us.len() && (#[trigger] us[i]).0@ == p)
}

/// The paths a target change names as added, modified or removed.
pub open spec fn change_key_set(c: TargetChange) -> Set<Seq<Seq<char>>> {
    key_set(c.added_documents@).union(key_set(c.modified_documents@)).union(key_set(c.removed_documents@))
}

/// The paths the target changes of an event name.
pub open spec fn change_keys(cs: Seq<(i32, TargetChange)>) -> Set<Seq<Seq<char>>> {
    Set::new(|p: Seq<Seq<char>>| exists|i: int| 0 <= i < cs.len() && change_key_set((#[trigger] cs[i]).1).contains(p))
}

/// Target metadata after an event at `version` reached the changed targets,
/// in order.
pub open spec fn versioned_targets(m: Map<i32, TargetMeta>, cs: Seq<(i32, TargetChange)>, version: Timestamp) -> Map<
    i32,
    TargetMeta,
>
    decreases cs.len(),
{
    if cs.len() == 0 {
        m
    } else {
        let before = versioned_targets(m, cs.drop_last(), version);
        before.insert(cs.last().0, versioned_meta(meta_or_fresh(before, cs.last().0), version, cs.last().1.current))
    }
}

/// The store after a remote event: updated documents take their new state
/// and lose their pending writes, resolved limbo documents are forgotten,
/// every document the event names leaves limbo, the changed targets record
/// the snapshot version, and the event is logged.
pub open spec fn after_remote_event(s: LocalStoreModel, e: RemoteEvent) -> LocalStoreModel {
    LocalStoreModel {
        documents: updated_documents(s.documents, e.document_updates@).remove_keys(
            key_set(e.resolved_limbo_documents@),
        ),
        overlays: s.overlays.remove_keys(update_keys(e.document_updates@)),
        limbo: s.limbo.difference(update_keys(e.document_updates@)).difference(
            change_keys(e.target_changes@),
        ).difference(key_set(e.resolved_limbo_documents@)),
        targets: match e.snapshot_version {
            Some(v) => versioned_targets(s.targets, e.target_changes@, v),
            None => s.targets,
        },
        events: s.events.push(e),
        journal: logged(
            s,
            overlay_clears(s.overlays.dom(), update_key_views(e.document_updates@)) + match e.snapshot_version {
                Some(v) => version_saves(s.targets, e.target_changes@, v),
                None => Seq::empty(),
            },
        ),
        ..s
    }
}

/// The paths of the documents an event updates, in order.
pub open spec fn update_key_views(us: Seq<(DocumentKey, Option<WatchDocument>)>) -> Seq<Seq<Seq<char>>> {
    us.map_values(|u: (DocumentKey, Option<WatchDocument>)| u.0@)
}

/// The requests to keep the metadata of each changed target after it
/// records the snapshot version, in the order of the changes.
pub open spec fn version_saves(m: Map<i32, TargetMeta>, cs: Seq<(i32, TargetChange)>, version: Timestamp) -> Seq<
    PersistModel,
>
    decreases cs.len(),
{
    if cs.len() == 0 {
        Seq::empty()
    } else {
        version_saves(m, cs.drop_last(), version).push(
            PersistModel::SaveTarget(cs.last().0, versioned_targets(m, cs, version)[cs.last().0]),
        )
    }
}

/// A sequence without the first occurrence of `x`.
pub open spec fn without_first(s: Seq<i32>, x: i32) -> Seq<i32> {
    if s.contains(x) {
        let i = choose|i: int| 0 <= i < s.len() && s[i] == x && forall|j: int| 0 <= j < i ==> s[j] != x;
        s.remove(i)
    } else {
        s
    }
}

/// The paths of the documents a batch writes.
pub open spec fn batch_keys(b: MutationBatch) -> Set<Seq<Seq<char>>> {
    Set::new(|p: Seq<Seq<char>>| write_keys(b.writes@).contains(p))
}

/// The fields of the document stored at `k`, if it exists.
pub open spec fn base_fields(docs: Map<Seq<Seq<char>>, Option<WatchModel>>, k: Seq<Seq<char>>) -> Option<
    Seq<(Seq<char>, ValueModel)>,
> {
    if docs.dom().contains(k) {
        match docs[k] {
            Some(w) => Some(w.fields),
            None => None,
        }
    } else {
        None
    }
}

/// Whether `d` is what the store shows of the document at `k`: the document
/// the backend last reported with the pending writes laid over it in order
/// (`stamps` being the server times their transforms saw); it has pending
/// writes exactly when its list of pending writes is not empty.
pub open spec fn shown_document(
    s: LocalStoreModel,
    k: Seq<Seq<char>>,
    from_cache: bool,
    sum: spec_fn(u64, u64) -> u64,
    d: DocModel,
) -> bool {
    &&& d.key == k
    &&& d.metadata == SnapshotMetadata { from_cache, has_pending_writes: pending_at(s.overlays, k).len() > 0 }
    &&& exists|ops: Seq<WriteOperation>, stamps: Seq<Seq<Timestamp>>|
        #![trigger overlays_result(base_fields(s.documents, k), ops, stamps, sum)]
        write_models(ops) == pending_at(s.overlays, k) && stamps.len() == ops.len() && overlays_result(
            base_fields(s.documents, k),
            ops,
            stamps,
            sum,
        ) == Some(d.data)
}

/// Whether some pending write of the document at `k` cannot apply.
pub open spec fn unshowable(s: LocalStoreModel, k: Seq<Seq<char>>, sum: spec_fn(u64, u64) -> u64) -> bool {
    exists|ops: Seq<WriteOperation>, stamps: Seq<Seq<Timestamp>>|
        #![trigger overlays_result(base_fields(s.documents, k), ops, stamps, sum)]
        write_models(ops) == pending_at(s.overlays, k) && stamps.len() == ops.len() && overlays_result(
            base_fields(s.documents, k),
            ops,
            stamps,
            sum,
        ) is None
}

/// Removes the first occurrence of `x`.
fn remove_first(v: &mut Vec<i32>, x: i32)
    ensures
        final(v)@ == without_first(old(v)@, x),
{
    let ghost s = v@;
    let mut i: usize = 0;
    let mut found = false;
    while i < v.len()
        invariant_except_break
            i <= v@.len(),
            v@ == s,
            !found,
            forall|j: int| 0 <= j < i ==> s[j] != x,
        ensures
            v@ == s,
            found ==> i < s.len() && s[i as int] == x && forall|j: int| 0 <= j < i ==> s[j] != x,
            !found ==> forall|j: int| 0 <= j < s.len() ==> s[j] != x,
        decreases v@.len() - i,
    {
        if v[i] == x {
            found = true;
            break;
        }
        i = i + 1;
    }
    if found {
        proof {
            let k = i as int;
            assert(s.contains(x));
            let c = choose|c: int| 0 <= c < s.len() && s[c] == x && forall|j: int| 0 <= j < c ==> s[j] != x;
            if c < k {
                assert(s[c] != x);
            }
            if c > k {
                assert(s[k] != x);
            }
            assert(c == k);
        }
        v.remove(i);
    } else {
        assert(!s.contains(x));
    }
}

/// The paths in `keys` equal those of a list whose views are `ps`.
proof fn lemma_key_set_of_views(keys: Seq<DocumentKey>, ps: Seq<Seq<Seq<char>>>)
    requires
        keys.map_values(|k: DocumentKey| k@) == ps,
    ensures
        key_set(keys) == Set::new(|p: Seq<Seq<char>>| ps.contains(p)),
{
    assert(keys.len() == ps.len());
    assert forall|p: Seq<Seq<char>>| #[trigger] key_set(keys).contains(p) == ps.contains(p) by {
        if key_set(keys).contains(p) {
            let i = choose|i: int| 0 <= i < keys.len() && (#[trigger] keys[i])@ == p;
            assert(ps[i] == keys[i]@);
        }
        if ps.contains(p) {
            let i = choose|i: int| 0 <= i < ps.len() && ps[i] == p;
            assert(ps[i] == keys[i]@);
        }
    }
    assert(key_set(keys) =~= Set::new(|p: Seq<Seq<char>>| ps.contains(p)));
}

impl MemoryLocalStore {
    /// Applies a remote event; see [`after_remote_event`].
    pub fn handle_remote_event(&mut self, event: RemoteEvent)
        ensures
            final(self)@ == after_remote_event(old(self)@, event),
    {
        let ghost e = event;
        let ups = &event.document_updates;
        let mut documents = KeyMap::new();
        std::mem::swap(&mut documents, &mut self.documents);
        let ghost start_docs = document_view(documents);
        let mut updated: Vec<DocumentKey> = Vec::new();
        let mut i: usize = 0;
        while i < ups.len()
            invariant
                i <= ups@.len(),
                document_view(documents) == updated_documents(start_docs, ups@.take(i as int)),
                key_set(updated@) == update_keys(ups@.take(i as int)),
                key_views(updated@) == update_key_views(ups@.take(i as int)),
            decreases ups@.len() - i,
        {
            let entry = &ups[i];
            let k = entry.0.clone();
            let d = clone_watch(&entry.1);
            let ghost before = documents;
            let ghost kept = updated@;
            documents.insert(k, d);
            updated.push(entry.0.clone());
            proof {
                let t = ups@.take(i + 1);
                assert(t.drop_last() =~= ups@.take(i as int));
                assert(t.last() == ups@[i as int]);
                assert(document_view(documents) =~= document_view(before).insert(ups@[i as int].0@, watch_view(ups@[i as int].1)));
                assert forall|p: Seq<Seq<char>>| #[trigger] key_set(updated@).contains(p) == update_keys(t).contains(p) by {
                    if key_set(updated@).contains(p) {
                        let m = choose|m: int| 0 <= m < updated@.len() && (#[trigger] updated@[m])@ == p;
                        if m < kept.len() {
                            assert(updated@[m] == kept[m]);
                            assert(key_set(kept).contains(p));
                            let n = choose|n: int| 0 <= n < i && (#[trigger] ups@.take(i as int)[n]).0@ == p;
                            assert(t[n] == ups@.take(i as int)[n]);
                        } else {
                            assert(t[i as int].0@ == p);
                        }
                    }
                    if update_keys(t).contains(p) {
                        let n = choose|n: int| 0 <= n < t.len() && (#[trigger] t[n]).0@ == p;
                        if n < i {
                            assert(ups@.take(i as int)[n] == t[n]);
                            assert(update_keys(ups@.take(i as int)).contains(p));
                            let m = choose|m: int| 0 <= m < kept.len() && (#[trigger] kept[m])@ == p;
                            assert(updated@[m] == kept[m]);
                        } else {
                            assert(updated@[kept.len() as int]@ == p);
                        }
                    }
                }
                assert(key_set(updated@) =~= update_keys(t));
                assert(updated@ =~= kept.push(updated@[kept.len() as int]));
                assert(key_views(updated@) =~= key_views(kept).push(ups@[i as int].0@));
                assert(update_key_views(t) =~= update_key_views(ups@.take(i as int)).push(ups@[i as int].0@));
                assert(key_views(updated@) =~= update_key_views(t));
            }
            i = i + 1;
        }
        assert(ups@.take(i as int) =~= ups@);
        let resolved = &event.resolved_limbo_documents;
        let ghost mid_docs = document_view(documents);
        let mut j: usize = 0;
        while j < resolved.len()
            invariant
                j <= resolved@.len(),
                document_view(documents) == mid_docs.remove_keys(key_set(resolved@.take(j as int))),
            decreases resolved@.len() - j,
        {
            let ghost before = documents;
            let _ = documents.remove(&resolved[j]);
            proof {
                assert(key_set(resolved@.take(j + 1)) =~= key_set(resolved@.take(j as int)).insert(resolved@[j as int]@)) by {
                    assert forall|p: Seq<Seq<char>>| #[trigger] key_set(resolved@.take(j + 1)).contains(p) == key_set(
                        resolved@.take(j as int),
                    ).insert(resolved@[j as int]@).contains(p) by {
                        if key_set(resolved@.take(j + 1)).contains(p) {
                            let m = choose|m: int| 0 <= m < j + 1 && (#[trigger] resolved@.take(j + 1)[m])@ == p;
                            if m < j {
                                assert(resolved@.take(j as int)[m] == resolved@.take(j + 1)[m]);
                            }
                        }
                        if key_set(resolved@.take(j as int)).contains(p) {
                            let m = choose|m: int| 0 <= m < j && (#[trigger] resolved@.take(j as int)[m])@ == p;
                            assert(resolved@.take(j + 1)[m] == resolved@.take(j as int)[m]);
                        }
                        if p == resolved@[j as int]@ {
                            assert(resolved@.take(j + 1)[j as int] == resolved@[j as int]);
                        }
                    }
                }
                assert(document_view(documents) =~= document_view(before).remove(resolved@[j as int]@));
                assert(document_view(documents) =~= mid_docs.remove_keys(key_set(resolved@.take(j + 1))));
            }
            j = j + 1;
        }
        assert(resolved@.take(j as int) =~= resolved@);
        self.documents = documents;
        self.clear_overlays(&updated);
        let ghost cleared = self@;
        let mut targets = TargetMetadataStore::new();
        std::mem::swap(&mut targets, &mut self.targets);
        let ghost start_limbo = targets@.1;
        targets.record_resolved_limbo_documents(&updated);
        let changes = &event.target_changes;
        let ghost limbo_after_updates = targets@.1;
        let mut c: usize = 0;
        while c < changes.len()
            invariant
                c <= changes@.len(),
                targets@.0 == old(self)@.targets,
                targets@.1 == limbo_after_updates.difference(change_keys(changes@.take(c as int))),
            decreases changes@.len() - c,
        {
            let ghost before = targets@.1;
            let change = &changes[c].1;
            targets.record_resolved_limbo_documents(&change.added_documents);
            targets.record_resolved_limbo_documents(&change.modified_documents);
            targets.record_resolved_limbo_documents(&change.removed_documents);
            proof {
                let t = changes@.take(c + 1);
                assert forall|p: Seq<Seq<char>>| #[trigger] change_keys(t).contains(p) == (change_keys(
                    changes@.take(c as int),
                ).contains(p) || change_key_set(changes@[c as int].1).contains(p)) by {
                    if change_keys(t).contains(p) {
                        let n = choose|n: int| 0 <= n < t.len() && change_key_set((#[trigger] t[n]).1).contains(p);
                        if n < c {
                            assert(changes@.take(c as int)[n] == t[n]);
                        }
                    }
                    if change_keys(changes@.take(c as int)).contains(p) {
                        let n = choose|n: int| 0 <= n < c && change_key_set((#[trigger] changes@.take(c as int)[n]).1).contains(p);
                        assert(t[n] == changes@.take(c as int)[n]);
                    }
                    if change_key_set(changes@[c as int].1).contains(p) {
                        assert(t[c as int] == changes@[c as int]);
                    }
                }
                assert(targets@.1 =~= limbo_after_updates.difference(change_keys(t)));
            }
            c = c + 1;
        }
        assert(changes@.take(c as int) =~= changes@);
        targets.record_resolved_limbo_documents(resolved);
        assert(targets@.1 =~= old(self)@.limbo.difference(update_keys(e.document_updates@)).difference(
            change_keys(e.target_changes@),
        ).difference(key_set(e.resolved_limbo_documents@)));
        let ghost before_saves = self@;
        if let Some(version) = event.snapshot_version {
            let ghost limbo_now = targets@.1;
            let mut c: usize = 0;
            assert(logged(before_saves, version_saves(old(self)@.targets, changes@.take(0), version)) =~= before_saves.journal);
            while c < changes.len()
                invariant
                    c <= changes@.len(),
                    targets@.0 == versioned_targets(old(self)@.targets, changes@.take(c as int), version),
                    targets@.1 == limbo_now,
                    self@ == (LocalStoreModel {
                        journal: logged(before_saves, version_saves(old(self)@.targets, changes@.take(c as int), version)),
                        ..before_saves
                    }),
                decreases changes@.len() - c,
            {
                let id = changes[c].0;
                let current = changes[c].1.current;
                let ghost jb = self@.journal;
                let snapshot = targets.record_snapshot_version(id, version, current);
                self.record(PersistenceAction::SaveTargetMetadata(snapshot));
                proof {
                    let t = changes@.take(c + 1);
                    assert(t.drop_last() =~= changes@.take(c as int));
                    assert(t.last() == changes@[c as int]);
                    if before_saves.persisting {
                        assert(logged(before_saves, version_saves(old(self)@.targets, t, version)) =~= jb + seq![
                            PersistModel::SaveTarget(id, targets@.0[id]),
                        ]);
                    }
                }
                c = c + 1;
            }
            assert(changes@.take(c as int) =~= changes@);
        } else {
            assert(logged(before_saves, Seq::<PersistModel>::empty()) =~= before_saves.journal);
        }
        proof {
            if old(self)@.persisting {
                let v = match e.snapshot_version {
                    Some(v) => version_saves(old(self)@.targets, e.target_changes@, v),
                    None => Seq::<PersistModel>::empty(),
                };
                assert(old(self)@.journal + overlay_clears(old(self)@.overlays.dom(), update_key_views(e.document_updates@)) + v
                    =~= old(self)@.journal + (overlay_clears(old(self)@.overlays.dom(), update_key_views(e.document_updates@)) + v));
            }
        }
        self.targets = targets;
        self.remote_events.push(event);
        assert(self@ == after_remote_event(old(self)@, e));
    }
}

/// The store after the metadata of `target_id` is forgotten: it becomes
/// fresh, and its former remote keys that no other target holds go into
/// limbo.
pub open spec fn reset_model(s: LocalStoreModel, target_id: i32) -> LocalStoreModel {
    LocalStoreModel {
        targets: s.targets.insert(target_id, fresh_meta()),
        limbo: s.limbo.union(
            meta_or_fresh(s.targets, target_id).remote_keys.difference(other_remote_keys(s.targets, target_id)),
        ),
        journal: logged(
            s,
            seq![PersistModel::ClearTarget(target_id), PersistModel::SaveTarget(target_id, fresh_meta())],
        ),
        ..s
    }
}

/// Resetting a target asks an attached persistence layer to forget the
/// target's metadata and then to keep the fresh metadata, after everything
/// asked before; without a persistence layer nothing is asked.
pub proof fn lemma_reset_is_persisted(s: LocalStoreModel, target_id: i32)
    ensures
        s.persisting ==> reset_model(s, target_id).journal == s.journal + seq![
            PersistModel::ClearTarget(target_id),
            PersistModel::SaveTarget(target_id, fresh_meta()),
        ],
        !s.persisting ==> reset_model(s, target_id).journal == s.journal,
        reset_model(s, target_id).targets[target_id] == fresh_meta(),
{
}

/// The writes of `ws` that target `k`, in order.
pub open spec fn writes_to(ws: Seq<WriteModel>, k: Seq<Seq<char>>) -> Seq<WriteModel> {
    ws.filter(|w: WriteModel| model_key(w) == k)
}

/// Queueing writes appends to the pending writes of each document exactly
/// the queued writes that target it, in the order queued; other documents
/// keep theirs.
pub proof fn lemma_queued_overlays(m: Map<Seq<Seq<char>>, Seq<WriteModel>>, ws: Seq<WriteModel>, k: Seq<Seq<char>>)
    ensures
        pending_at(queued_overlays(m, ws), k) == pending_at(m, k) + writes_to(ws, k),
        queued_overlays(m, ws).dom().contains(k) == (m.dom().contains(k) || writes_to(ws, k).len() > 0),
    decreases ws.len(),
{
    reveal(Seq::filter);
    if ws.len() == 0 {
        assert(writes_to(ws, k) =~= Seq::<WriteModel>::empty());
        assert(pending_at(m, k) + writes_to(ws, k) =~= pending_at(m, k));
    } else {
        lemma_queued_overlays(m, ws.drop_last(), k);
        let before = queued_overlays(m, ws.drop_last());
        if model_key(ws.last()) == k {
            assert(writes_to(ws, k) =~= writes_to(ws.drop_last(), k).push(ws.last()));
            assert(pending_at(m, k) + writes_to(ws, k) =~= (pending_at(m, k) + writes_to(ws.drop_last(), k)).push(ws.last()));
        } else {
            assert(writes_to(ws, k) =~= writes_to(ws.drop_last(), k));
        }
    }
}

impl MemoryLocalStore {
    /// Records an acknowledged batch: its id leaves the outstanding ones,
    /// the result is logged, and the documents it wrote lose their pending
    /// writes; the persistence layer, if any, is asked to forget each list
    /// of pending writes removed.
    pub fn handle_successful_write(&mut self, result: MutationBatchResult)
        ensures
            exists|ks: Seq<DocumentKey>|
                #![trigger overlay_clears(old(self)@.overlays.dom(), key_views(ks))]
                key_set(ks) == batch_keys(result.batch) && final(self)@ == (LocalStoreModel {
                    outstanding: without_first(old(self)@.outstanding, result.batch.batch_id),
                    successful: old(self)@.successful.push(result),
                    overlays: old(self)@.overlays.remove_keys(batch_keys(result.batch)),
                    journal: logged(old(self)@, overlay_clears(old(self)@.overlays.dom(), key_views(ks))),
                    ..old(self)@
                }),
    {
        let ghost res = result;
        remove_first(&mut self.outstanding_batches, result.batch.batch_id);
        let keys = result.batch.document_keys();
        proof {
            lemma_key_set_of_views(keys@, write_keys(res.batch.writes@));
            assert(key_set(keys@) == batch_keys(res.batch));
        }
        self.successful_writes.push(result);
        self.clear_overlays(&keys);
        assert(overlay_clears(old(self)@.overlays.dom(), key_views(keys@)) == overlay_clears(old(self)@.overlays.dom(), key_views(keys@)));
    }

    /// Records a rejected batch: its id leaves the outstanding ones, the
    /// error is logged, and every pending write is dropped; the persistence
    /// layer, if any, is asked to forget each document's list.
    pub fn handle_failed_write(&mut self, batch_id: i32, error: FirestoreError)
        ensures
            exists|ks: Seq<DocumentKey>|
                #![trigger overlay_clears(old(self)@.overlays.dom(), key_views(ks))]
                key_set(ks) == old(self)@.overlays.dom() && final(self)@ == (LocalStoreModel {
                    outstanding: without_first(old(self)@.outstanding, batch_id),
                    failed: old(self)@.failed.push((batch_id, error)),
                    overlays: Map::empty(),
                    journal: logged(old(self)@, overlay_clears(old(self)@.overlays.dom(), key_views(ks))),
                    ..old(self)@
                }),
    {
        remove_first(&mut self.outstanding_batches, batch_id);
        self.failed_writes.push((batch_id, error));
        let keys = self.overlay_keys();
        self.clear_overlays(&keys);
        assert(self@.overlays =~= Map::<Seq<Seq<char>>, Seq<WriteModel>>::empty());
        assert(overlay_clears(old(self)@.overlays.dom(), key_views(keys@)) == overlay_clears(old(self)@.overlays.dom(), key_views(keys@)));
    }

    /// Records a rejected listen.
    pub fn handle_rejected_listen(&mut self, target_id: i32, error: FirestoreError)
        ensures
            final(self)@ == (LocalStoreModel { rejected: old(self)@.rejected.push((target_id, error)), ..old(self)@ }),
    {
        self.rejected_targets.push((target_id, error));
    }

    /// After a change of credentials nothing local can be trusted: the store
    /// forgets everything but the next batch id (and whether it persists).
    /// The persistence layer, if any, is asked to forget each document's
    /// pending writes and then each target's metadata.
    pub fn handle_credential_change(&mut self)
        ensures
            exists|ks: Seq<DocumentKey>, ids: Seq<i32>|
                #![trigger overlay_clears(old(self)@.overlays.dom(), key_views(ks)), target_clears(ids)]
                key_set(ks) == old(self)@.overlays.dom() && id_set(ids) == old(self)@.targets.dom()
                    && ids.no_duplicates() && final(self)@ == (LocalStoreModel {
                    next_batch_id: old(self)@.next_batch_id,
                    persisting: old(self)@.persisting,
                    journal: logged(
                        old(self)@,
                        overlay_clears(old(self)@.overlays.dom(), key_views(ks)) + target_clears(ids),
                    ),
                    ..empty_store()
                }),
    {
        let keys = self.overlay_keys();
        let ghost ks = keys@;
        let ghost dom = self@.overlays.dom();
        self.clear_overlays(&keys);
        let ghost mid = self@;
        let ids = self.targets.clear();
        let ghost idv = ids@;
        let mut i: usize = 0;
        while i < ids.len()
            invariant
                i <= ids@.len(),
                ids@ == idv,
                self@ == (LocalStoreModel {
                    targets: Map::empty(),
                    limbo: Set::empty(),
                    journal: logged(mid, target_clears(idv.take(i as int))),
                    ..mid
                }),
            decreases ids@.len() - i,
        {
            let ghost before = self@;
            self.record(PersistenceAction::ClearTargetMetadata(ids[i]));
            proof {
                assert(target_clears(idv.take(i + 1)) =~= target_clears(idv.take(i as int)) + seq![PersistModel::ClearTarget(idv[i as int])]);
                if mid.persisting {
                    assert(logged(mid, target_clears(idv.take(i + 1))) =~= before.journal + seq![PersistModel::ClearTarget(idv[i as int])]);
                }
            }
            i = i + 1;
        }
        assert(idv.take(i as int) =~= idv);
        proof {
            if old(self)@.persisting {
                assert(logged(mid, target_clears(idv)) =~= old(self)@.journal + (overlay_clears(dom, key_views(ks)) + target_clears(idv)));
            }
        }
        self.documents = KeyMap::new();
        self.remote_events = Vec::new();
        self.rejected_targets = Vec::new();
        self.successful_writes = Vec::new();
        self.failed_writes = Vec::new();
        self.outstanding_batches = Vec::new();
        self.overlays = KeyMap::new();
        self.last_stream_token = None;
        self.write_results = Vec::new();
        assert(document_view(self.documents) =~= Map::<Seq<Seq<char>>, Option<WatchModel>>::empty());
        assert(overlay_view(self.overlays) =~= Map::<Seq<Seq<char>>, Seq<WriteModel>>::empty());
        assert(self@ =~= (LocalStoreModel {
            next_batch_id: old(self)@.next_batch_id,
            persisting: old(self)@.persisting,
            journal: logged(old(self)@, overlay_clears(dom, key_views(ks)) + target_clears(idv)),
            ..empty_store()
        }));
    }

    /// Records the write stream's latest token.
    pub fn notify_stream_token_change(&mut self, token: Option<Vec<u8>>)
        ensures
            final(self)@ == (LocalStoreModel { last_stream_token: token_view(token), ..old(self)@ }),
    {
        self.last_stream_token = token;
    }

    /// Records the write results of a batch.
    pub fn record_write_results(&mut self, batch_id: i32, results: Vec<WriteResult>)
        ensures
            final(self)@ == (LocalStoreModel {
                write_results: old(self)@.write_results.push((batch_id, results)),
                ..old(self)@
            }),
    {
        self.write_results.push((batch_id, results));
    }

    /// Applies a watch update to a target's metadata and asks the persistence
    /// layer, if any, to keep the new metadata; returns it.
    pub fn update_target_metadata(&mut self, target_id: i32, update: TargetMetadataUpdate) -> (r: TargetMetadataSnapshot)
        ensures
            final(self)@ == (LocalStoreModel {
                targets: old(self)@.targets.insert(
                    target_id,
                    updated_meta(meta_or_fresh(old(self)@.targets, target_id), update),
                ),
                journal: logged(
                    old(self)@,
                    seq![PersistModel::SaveTarget(target_id, updated_meta(meta_or_fresh(old(self)@.targets, target_id), update))],
                ),
                ..old(self)@
            }),
            r.target_id == target_id,
            meta_of(r) == final(self)@.targets[target_id],
    {
        let r = self.targets.update_target_metadata(target_id, update);
        self.record(PersistenceAction::SaveTargetMetadata(copy_snapshot(&r)));
        r
    }

    /// Forgets what is known of a target; its former remote keys that no
    /// other target holds go into limbo. The persistence layer, if any, is
    /// asked to forget the target's metadata and then to keep the fresh one.
    /// Returns the fresh metadata.
    pub fn reset_target_metadata(&mut self, target_id: i32) -> (r: TargetMetadataSnapshot)
        ensures
            final(self)@ == reset_model(old(self)@, target_id),
            r.target_id == target_id,
            meta_of(r) == fresh_meta(),
    {
        let r = self.targets.reset_target_metadata(target_id);
        self.record(PersistenceAction::ClearTargetMetadata(target_id));
        self.record(PersistenceAction::SaveTargetMetadata(copy_snapshot(&r)));
        proof {
            assert(seq![PersistModel::ClearTarget(target_id)] + seq![PersistModel::SaveTarget(target_id, fresh_meta())]
                =~= seq![PersistModel::ClearTarget(target_id), PersistModel::SaveTarget(target_id, fresh_meta())]);
            if old(self)@.persisting {
                assert(old(self)@.journal + seq![PersistModel::ClearTarget(target_id)] + seq![PersistModel::SaveTarget(target_id, fresh_meta())]
                    =~= old(self)@.journal + seq![PersistModel::ClearTarget(target_id), PersistModel::SaveTarget(target_id, fresh_meta())]);
            }
        }
        r
    }

    /// Takes resolved documents out of limbo.
    pub fn record_resolved_limbo_documents(&mut self, documents: &Vec<DocumentKey>)
        ensures
            final(self)@ == (LocalStoreModel { limbo: old(self)@.limbo.difference(key_set(documents@)), ..old(self)@ }),
    {
        self.targets.record_resolved_limbo_documents(documents);
    }

    /// The remote keys of a target become `keys`; the persistence layer, if
    /// any, is asked to keep the new metadata. Returns it.
    pub fn replace_remote_keys(&mut self, target_id: i32, keys: &Vec<DocumentKey>) -> (r: TargetMetadataSnapshot)
        ensures
            final(self)@ == (LocalStoreModel {
                targets: old(self)@.targets.insert(
                    target_id,
                    TargetMeta { remote_keys: key_set(keys@), ..meta_or_fresh(old(self)@.targets, target_id) },
                ),
                journal: logged(
                    old(self)@,
                    seq![PersistModel::SaveTarget(target_id, TargetMeta { remote_keys: key_set(keys@), ..meta_or_fresh(old(self)@.targets, target_id) })],
                ),
                ..old(self)@
            }),
            r.target_id == target_id,
            meta_of(r) == final(self)@.targets[target_id],
    {
        let r = self.targets.replace_remote_keys(target_id, keys);
        self.record(PersistenceAction::SaveTargetMetadata(copy_snapshot(&r)));
        r
    }

    /// Records `snapshot` as the metadata of its target.
    pub fn restore_target_snapshot(&mut self, snapshot: TargetMetadataSnapshot)
        ensures
            final(self)@ == (LocalStoreModel {
                targets: old(self)@.targets.insert(snapshot.target_id, meta_of(snapshot)),
                ..old(self)@
            }),
    {
        self.targets.restore_target_snapshot(snapshot);
    }

    /// Puts a document into limbo.
    pub fn track_limbo_document(&mut self, key: DocumentKey)
        ensures
            final(self)@ == (LocalStoreModel { limbo: old(self)@.limbo.insert(key@), ..old(self)@ }),
    {
        self.targets.track_limbo_document(key);
    }

    /// Makes sure a document has a (possibly empty) list of pending writes.
    pub fn restore_overlay_key(&mut self, key: DocumentKey)
        ensures
            final(self)@ == (LocalStoreModel {
                overlays: if old(self)@.overlays.dom().contains(key@) {
                    old(self)@.overlays
                } else {
                    old(self)@.overlays.insert(key@, Seq::empty())
                },
                ..old(self)@
            }),
    {
        if self.overlays.get(&key).is_none() {
            let ghost k = key@;
            let ghost before = self.overlays;
            let empty: Vec<WriteOperation> = Vec::new();
            self.overlays.insert(key, empty);
            assert(write_models(empty@) =~= Seq::<WriteModel>::empty());
            assert(overlay_view(self.overlays) =~= overlay_view(before).insert(k, Seq::empty()));
        }
    }

    /// The last remote event applied.
    pub fn last_remote_event(&self) -> (r: Option<&RemoteEvent>)
        ensures
            match r {
                Some(e) => self@.events.len() > 0 && *e == self@.events.last(),
                None => self@.events.len() == 0,
            },
    {
        if self.remote_events.len() == 0 {
            None
        } else {
            Some(&self.remote_events[self.remote_events.len() - 1])
        }
    }

    /// The state of a document as the backend last reported it, if any.
    pub fn document(&self, key: &DocumentKey) -> (r: Option<&Option<WatchDocument>>)
        ensures
            match r {
                Some(d) => self@.documents.dom().contains(key@) && self@.documents[key@] == watch_view(*d),
                None => !self@.documents.dom().contains(key@),
            },
    {
        self.documents.get(key)
    }

    /// The ids of the acknowledged batches, in order.
    pub fn successful_batch_ids(&self) -> (r: Vec<i32>)
        ensures
            r@ == self@.successful.map_values(|b: MutationBatchResult| b.batch.batch_id),
    {
        let mut ids: Vec<i32> = Vec::new();
        let mut i: usize = 0;
        while i < self.successful_writes.len()
            invariant
                i <= self.successful_writes@.len(),
                ids@ == self.successful_writes@.take(i as int).map_values(|b: MutationBatchResult| b.batch.batch_id),
            decreases self.successful_writes@.len() - i,
        {
            ids.push(self.successful_writes[i].batch.batch_id);
            assert(self.successful_writes@.take(i + 1).map_values(|b: MutationBatchResult| b.batch.batch_id) =~= ids@);
            i = i + 1;
        }
        assert(self.successful_writes@.take(i as int) =~= self.successful_writes@);
        ids
    }

    /// The ids of the rejected batches, in order.
    pub fn failed_batch_ids(&self) -> (r: Vec<i32>)
        ensures
            r@ == self@.failed.map_values(|f: (i32, FirestoreError)| f.0),
    {
        let mut ids: Vec<i32> = Vec::new();
        let mut i: usize = 0;
        while i < self.failed_writes.len()
            invariant
                i <= self.failed_writes@.len(),
                ids@ == self.failed_writes@.take(i as int).map_values(|f: (i32, FirestoreError)| f.0),
            decreases self.failed_writes@.len() - i,
        {
            ids.push(self.failed_writes[i].0);
            assert(self.failed_writes@.take(i + 1).map_values(|f: (i32, FirestoreError)| f.0) =~= ids@);
            i = i + 1;
        }
        assert(self.failed_writes@.take(i as int) =~= self.failed_writes@);
        ids
    }

    /// The ids of the batches awaiting acknowledgement, in the order queued.
    pub fn outstanding_batch_ids(&self) -> (r: Vec<i32>)
        ensures
            r@ == self@.outstanding,
    {
        let mut ids: Vec<i32> = Vec::new();
        let mut i: usize = 0;
        while i < self.outstanding_batches.len()
            invariant
                i <= self.outstanding_batches@.len(),
                ids@ == self.outstanding_batches@.take(i as int),
            decreases self.outstanding_batches@.len() - i,
        {
            ids.push(self.outstanding_batches[i]);
            assert(self.outstanding_batches@.take(i + 1) =~= ids@);
            i = i + 1;
        }
        assert(self.outstanding_batches@.take(i as int) =~= self.outstanding_batches@);
        ids
    }

    /// The write stream's latest token.
    pub fn last_stream_token(&self) -> (r: Option<Vec<u8>>)
        ensures
            token_view(r) == self@.last_stream_token,
    {
        match &self.last_stream_token {
            Some(t) => Some(t.clone()),
            None => None,
        }
    }

    /// The write results recorded per batch, in order.
    pub fn recorded_write_results(&self) -> (r: &Vec<(i32, Vec<WriteResult>)>)
        ensures
            r@ == self@.write_results,
    {
        &self.write_results
    }

    /// The metadata of a target, if any is recorded.
    pub fn target_metadata_snapshot(&self, target_id: i32) -> (r: Option<TargetMetadataSnapshot>)
        ensures
            match r {
                Some(s) => self@.targets.dom().contains(target_id) && s.target_id == target_id && meta_of(s)
                    == self@.targets[target_id],
                None => !self@.targets.dom().contains(target_id),
            },
    {
        self.targets.target_metadata_snapshot(target_id)
    }

    /// The documents in limbo.
    pub fn limbo_documents_snapshot(&self) -> (r: Vec<DocumentKey>)
        ensures
            key_set(r@) == self@.limbo,
    {
        self.targets.limbo_documents_snapshot()
    }

    /// The pending writes, by document.
    pub fn overlays_snapshot(&self) -> (r: &KeyMap<Vec<WriteOperation>>)
        ensures
            overlay_view(*r) == self@.overlays,
    {
        &self.overlays
    }

    /// The documents with a list of pending writes.
    pub fn overlay_keys(&self) -> (r: Vec<DocumentKey>)
        ensures
            key_set(r@) == self@.overlays.dom(),
    {
        let n = self.overlays.len();
        let mut ks: Vec<DocumentKey> = Vec::new();
        let mut i: usize = 0;
        while i < n
            invariant
                i <= n,
                n == self.overlays.key_order().len(),
                key_set(ks@) == Set::new(|p: Seq<Seq<char>>| self.overlays.key_order().take(i as int).contains(p)),
                forall|p: Seq<Seq<char>>| #[trigger] key_set(ks@).contains(p) ==> self.overlays@.dom().contains(p),
            decreases n - i,
        {
            let (k, _) = self.overlays.entry_at(i);
            let ghost before = ks@;
            ks.push(k.clone());
            proof {
                let order = self.overlays.key_order();
                assert forall|p: Seq<Seq<char>>| #[trigger] key_set(ks@).contains(p) == order.take(i + 1).contains(p) by {
                    if key_set(ks@).contains(p) {
                        let m = choose|m: int| 0 <= m < ks@.len() && (#[trigger] ks@[m])@ == p;
                        if m < before.len() {
                            assert(ks@[m] == before[m]);
                            assert(key_set(before).contains(p));
                            let q = choose|q: int| 0 <= q < i && #[trigger] order.take(i as int)[q] == p;
                            assert(order.take(i + 1)[q] == p);
                        } else {
                            assert(order.take(i + 1)[i as int] == p);
                        }
                    }
                    if order.take(i + 1).contains(p) {
                        let q = choose|q: int| 0 <= q < i + 1 && #[trigger] order.take(i + 1)[q] == p;
                        if q < i {
                            assert(order.take(i as int)[q] == p);
                            assert(key_set(before).contains(p));
                            let m = choose|m: int| 0 <= m < before.len() && (#[trigger] before[m])@ == p;
                            assert(ks@[m] == before[m]);
                        } else {
                            assert(ks@[before.len() as int]@ == p);
                        }
                    }
                }
                assert(key_set(ks@) =~= Set::new(|p: Seq<Seq<char>>| order.take(i + 1).contains(p)));
                assert forall|p: Seq<Seq<char>>| #[trigger] key_set(ks@).contains(p) implies self.overlays@.dom().contains(p) by {
                    let m = choose|m: int| 0 <= m < ks@.len() && (#[trigger] ks@[m])@ == p;
                    if m < before.len() {
                        assert(ks@[m] == before[m]);
                        assert(key_set(before).contains(p));
                    }
                }
            }
            i = i + 1;
        }
        proof {
            let order = self.overlays.key_order();
            assert(order.take(i as int) =~= order);
            assert forall|p: Seq<Seq<char>>| #[trigger] key_set(ks@).contains(p) == self.overlays@.dom().contains(p) by {
                if self.overlays@.dom().contains(p) {
                    assert(order.contains(p));
                }
            }
            assert(key_set(ks@) =~= self@.overlays.dom());
        }
        ks
    }

    /// The snapshot of a document as the store shows it: the document the
    /// backend last reported, with the pending writes laid over it in order.
    /// It has pending writes exactly when its list of pending writes is not
    /// empty. Fails when a pending write cannot apply.
    pub fn document_snapshot_for_key<F: Fn(u64, u64) -> u64>(&self, key: &DocumentKey, from_cache: bool, adder: &F) -> (r:
        FirestoreResult<DocumentSnapshot>)
        requires
            is_adder(*adder),
        ensures
            match r {
                Ok(snap) => shown_document(self@, key@, from_cache, adder_sum(*adder), snap@),
                Err(e) => unshowable(self@, key@, adder_sum(*adder)) && e.code == FirestoreErrorCode::InvalidArgument,
            },
    {
        let base: Option<MapValue> = match self.documents.get(key) {
            Some(Some(doc)) => Some(doc.fields.clone()),
            _ => None,
        };
        assert(crate::firestore::local::overlay::doc_model(base) == base_fields(self@.documents, key@));
        let empty: Vec<WriteOperation> = Vec::new();
        let ops = match self.overlays.get(key) {
            Some(ops) => ops,
            None => &empty,
        };
        assert(write_models(ops@) == pending_at(self@.overlays, key@)) by {
            if !self@.overlays.dom().contains(key@) {
                assert(write_models(ops@) =~= Seq::<WriteModel>::empty());
            }
        }
        let has_overlay = ops.len() > 0;
        let data = apply_document_overlays(base, ops, adder)?;
        let metadata = SnapshotMetadata::new(from_cache, has_overlay);
        Ok(DocumentSnapshot::new(key.clone(), data, metadata))
    }
}

/// The remote keys by target once every target with remote keys hands them
/// over.
pub open spec fn seeded_keys(m: Map<i32, Set<Seq<Seq<char>>>>, targets: Map<i32, TargetMeta>) -> Map<
    i32,
    Set<Seq<Seq<char>>>,
> {
    Map::new(
        |t: i32| m.dom().contains(t) || (targets.dom().contains(t) && !targets[t].remote_keys.is_empty()),
        |t: i32|
            if targets.dom().contains(t) && !targets[t].remote_keys.is_empty() {
                targets[t].remote_keys
            } else {
                m[t]
            },
    )
}

impl MemoryLocalStore {
    /// The ids of the targets whose listens were rejected, in order.
    pub fn rejected_target_ids(&self) -> (r: Vec<i32>)
        ensures
            r@ == self@.rejected.map_values(|f: (i32, FirestoreError)| f.0),
    {
        let mut ids: Vec<i32> = Vec::new();
        let mut i: usize = 0;
        while i < self.rejected_targets.len()
            invariant
                i <= self.rejected_targets@.len(),
                ids@ == self.rejected_targets@.take(i as int).map_values(|f: (i32, FirestoreError)| f.0),
            decreases self.rejected_targets@.len() - i,
        {
            ids.push(self.rejected_targets[i].0);
            assert(self.rejected_targets@.take(i + 1).map_values(|f: (i32, FirestoreError)| f.0) =~= ids@);
            i = i + 1;
        }
        assert(self.rejected_targets@.take(i as int) =~= self.rejected_targets@);
        ids
    }

    /// Hands the bridge the remote keys of every target that has some.
    #[verifier::spinoff_prover]
    pub fn synchronize_remote_keys(&self, bridge: &mut RemoteSyncerBridge)
        ensures
            final(bridge)@.1 == old(bridge)@.1,
            final(bridge)@.0 == seeded_keys(old(bridge)@.0, self@.targets),
    {
        let ids = self.targets.target_ids();
        let ghost idv = ids@;
        let ghost targets = self@.targets;
        let ghost start = bridge@;
        let mut i: usize = 0;
        while i < ids.len()
            invariant
                i <= ids@.len(),
                ids@ == idv,
                id_set(idv) == targets.dom(),
                targets == self@.targets,
                bridge@.1 == start.1,
                forall|t: i32|
                    #![trigger bridge@.0.dom().contains(t)]
                    if idv.take(i as int).contains(t) && targets.dom().contains(t) && !targets[t].remote_keys.is_empty() {
                        bridge@.0.dom().contains(t) && bridge@.0[t] == targets[t].remote_keys
                    } else {
                        bridge@.0.dom().contains(t) == start.0.dom().contains(t) && (start.0.dom().contains(t) ==> bridge@.0[t] == start.0[t])
                    },
            decreases ids@.len() - i,
        {
            let id = ids[i];
            proof {
                assert(idv.contains(id));
                assert(id_set(idv).contains(id));
            }
            match self.targets.target_metadata_snapshot(id) {
                Some(snapshot) => {
                    if snapshot.remote_keys.len() > 0 {
                        proof {
                            assert(key_set(snapshot.remote_keys@).contains(snapshot.remote_keys@[0]@));
                        }
                        bridge.seed_remote_keys(id, snapshot.remote_keys);
                    } else {
                        assert(key_set(snapshot.remote_keys@) =~= Set::<Seq<Seq<char>>>::empty());
                    }
                },
                None => {},
            }
            proof {
                assert forall|t: i32| #[trigger] idv.take(i + 1).contains(t) == (idv.take(i as int).contains(t) || t == id) by {
                    if idv.take(i + 1).contains(t) {
                        let m = choose|m: int| 0 <= m < i + 1 && #[trigger] idv.take(i + 1)[m] == t;
                        if m < i {
                            assert(idv.take(i as int)[m] == t);
                        }
                    }
                    if idv.take(i as int).contains(t) {
                        let m = choose|m: int| 0 <= m < i && #[trigger] idv.take(i as int)[m] == t;
                        assert(idv.take(i + 1)[m] == t);
                    }
                    if t == id {
                        assert(idv.take(i + 1)[i as int] == t);
                    }
                }
            }
            i = i + 1;
        }
        proof {
            assert(idv.take(i as int) =~= idv);
            assert forall|t: i32| #![trigger bridge@.0.dom().contains(t)] (if targets.dom().contains(t)
                && !targets[t].remote_keys.is_empty() {
                bridge@.0.dom().contains(t) && bridge@.0[t] == targets[t].remote_keys
            } else {
                bridge@.0.dom().contains(t) == start.0.dom().contains(t) && (start.0.dom().contains(t)
                    ==> bridge@.0[t] == start.0[t])
            }) by {
                if targets.dom().contains(t) {
                    assert(id_set(idv).contains(t));
                    assert(idv.contains(t));
                    assert(idv.take(i as int) == idv);
                    assert(idv.take(i as int).contains(t));
                }
            }
            assert(bridge@.0 =~= seeded_keys(start.0, targets));
        }
    }
}

/// Paths strictly increasing in path order.
pub open spec fn paths_increasing(ps: Seq<Seq<Seq<char>>>) -> bool {
    forall|i: int, j: int| 0 <= i < j < ps.len() ==> path_lt(#[trigger] ps[i], #[trigger] ps[j])
}

/// Adds a key to a list of keys in path order, unless its path is there.
fn insert_key_sorted(ks: &mut Vec<DocumentKey>, k: &DocumentKey)
    requires
        paths_increasing(key_views(old(ks)@)),
    ensures
        paths_increasing(key_views(final(ks)@)),
        key_set(final(ks)@) == key_set(old(ks)@).insert(k@),
{
    let ghost before = ks@;
    let mut p: usize = 0;
    loop
        invariant_except_break
            p <= ks@.len(),
            ks@ == before,
            forall|j: int| 0 <= j < p ==> path_lt((#[trigger] before[j])@, k@),
        ensures
            p <= ks@.len(),
            ks@ == before,
            forall|j: int| 0 <= j < p ==> path_lt((#[trigger] before[j])@, k@),
            p == ks@.len() || !path_lt(before[p as int]@, k@),
        decreases ks@.len() - p,
    {
        if p >= ks.len() {
            break;
        }
        if !ks[p].comes_before(k) {
            break;
        }
        p = p + 1;
    }
    assert(forall|j: int| 0 <= j < before.len() ==> #[trigger] key_views(before)[j] == before[j]@);
    if p < ks.len() && ks[p].equals(k) {
        assert(key_set(before).contains(k@));
        assert(key_set(before) =~= key_set(before).insert(k@));
        return;
    }
    proof {
        if p < before.len() {
            lemma_path_lt_total(before[p as int]@, k@);
        }
        assert forall|j: int| p <= j < before.len() implies path_lt(k@, (#[trigger] before[j])@) by {
            if j > p {
                assert(path_lt(key_views(before)[p as int], key_views(before)[j]));
                lemma_path_lt_transitive(k@, before[p as int]@, before[j]@);
            }
        }
    }
    ks.insert(p, k.clone());
    proof {
        let after = ks@;
        assert forall|j: int| 0 <= j < after.len() implies #[trigger] after[j] == if j < p {
            before[j]
        } else if j == p {
            after[p as int]
        } else {
            before[j - 1]
        } by {}
        assert(after[p as int]@ == k@);
        assert forall|a: int, b: int| 0 <= a < b < after.len() implies path_lt(
            #[trigger] key_views(after)[a],
            #[trigger] key_views(after)[b],
        ) by {
            assert(key_views(after)[a] == after[a]@);
            assert(key_views(after)[b] == after[b]@);
            if b < p {
                assert(path_lt(key_views(before)[a], key_views(before)[b]));
            } else if b == p {
            } else if a < p {
                assert(path_lt(before[a]@, k@));
                assert(path_lt(k@, before[b - 1]@));
                lemma_path_lt_transitive(before[a]@, k@, before[b - 1]@);
            } else if a == p {
            } else {
                assert(path_lt(key_views(before)[a - 1], key_views(before)[b - 1]));
            }
        }
        assert forall|q: Seq<Seq<char>>| #[trigger] key_set(after).contains(q) == key_set(before).insert(k@).contains(q) by {
            if key_set(after).contains(q) {
                let m = choose|m: int| 0 <= m < after.len() && (#[trigger] after[m])@ == q;
                if m < p {
                    assert(after[m] == before[m]);
                } else if m > p {
                    assert(after[m] == before[m - 1]);
                }
            }
            if key_set(before).contains(q) {
                let m = choose|m: int| 0 <= m < before.len() && (#[trigger] before[m])@ == q;
                if m < p {
                    assert(after[m] == before[m]);
                } else {
                    assert(after[m + 1] == before[m]);
                }
            }
        }
        assert(key_set(after) =~= key_set(before).insert(k@));
    }
}

/// The paths of `src` in the queried collection.
pub open spec fn matching_paths(src: Set<Seq<Seq<char>>>, d: QueryDefinition) -> Set<Seq<Seq<char>>> {
    src.filter(|p: Seq<Seq<char>>| p.drop_last() == d.collection_path@)
}

/// Adds, in path order, the keys of `src` in the queried collection.
fn add_matching_keys(ks: &mut Vec<DocumentKey>, src: &Vec<DocumentKey>, definition: &QueryDefinition)
    requires
        paths_increasing(key_views(old(ks)@)),
    ensures
        paths_increasing(key_views(final(ks)@)),
        key_set(final(ks)@) == key_set(old(ks)@).union(matching_paths(key_set(src@), *definition)),
{
    let ghost start = ks@;
    let mut i: usize = 0;
    while i < src.len()
        invariant
            i <= src@.len(),
            paths_increasing(key_views(ks@)),
            key_set(ks@) == key_set(start).union(matching_paths(key_set(src@.take(i as int)), *definition)),
        decreases src@.len() - i,
    {
        let ghost before = ks@;
        if definition.matches(&src[i]) {
            insert_key_sorted(ks, &src[i]);
        }
        proof {
            let t = src@.take(i + 1);
            assert forall|q: Seq<Seq<char>>| #[trigger] key_set(t).contains(q) == (key_set(src@.take(i as int)).contains(q)
                || q == src@[i as int]@) by {
                if key_set(t).contains(q) {
                    let m = choose|m: int| 0 <= m < t.len() && (#[trigger] t[m])@ == q;
                    if m < i {
                        assert(src@.take(i as int)[m] == t[m]);
                    }
                }
                if key_set(src@.take(i as int)).contains(q) {
                    let m = choose|m: int| 0 <= m < i && (#[trigger] src@.take(i as int)[m])@ == q;
                    assert(t[m] == src@.take(i as int)[m]);
                }
                if q == src@[i as int]@ {
                    assert(t[i as int] == src@[i as int]);
                }
            }
            assert(key_set(ks@) =~= key_set(start).union(matching_paths(key_set(t), *definition)));
        }
        i = i + 1;
    }
    assert(src@.take(i as int) =~= src@);
}

/// The documents a query on `target_id` considers: the target's remote keys
/// and the documents with pending writes, those in the queried collection.
pub open spec fn candidate_paths(s: LocalStoreModel, target_id: i32, d: QueryDefinition) -> Set<Seq<Seq<char>>> {
    matching_paths(meta_or_fresh(s.targets, target_id).remote_keys, d).union(matching_paths(s.overlays.dom(), d))
}

/// Whether `state` is what a query on `target_id` shows of the store `s`:
/// the candidate documents, in path order, each as the store shows it, with
/// the query applied; served from the cache unless the target is current,
/// with the target's resume token and snapshot version, and with pending
/// writes exactly when one of its documents has some.
pub open spec fn query_state_shown(
    s: LocalStoreModel,
    target_id: i32,
    definition: QueryDefinition,
    sum: spec_fn(u64, u64) -> u64,
    state: QueryViewState,
) -> bool {
    let known = s.targets.dom().contains(target_id);
    let from_cache = !(known && s.targets[target_id].current);
    &&& state.from_cache == from_cache
    &&& token_view(state.resume_token) == (if known {
        s.targets[target_id].resume_token
    } else {
        None
    })
    &&& state.snapshot_version == (if known {
        s.targets[target_id].snapshot_version
    } else {
        None
    })
    &&& exists|paths: Seq<Seq<Seq<char>>>, shown: Seq<DocModel>|
        #![trigger query_outcome(shown, definition, doc_views(state.documents@)), paths_increasing(paths)]
        paths_increasing(paths) && Set::new(|p: Seq<Seq<char>>| paths.contains(p)) == candidate_paths(
            s,
            target_id,
            definition,
        ) && shown.len() == paths.len() && (forall|i: int|
            0 <= i < paths.len() ==> shown_document(s, #[trigger] paths[i], from_cache, sum, shown[i]))
            && query_outcome(shown, definition, doc_views(state.documents@))
    &&& state.has_pending_writes == exists|i: int|
        0 <= i < state.documents@.len() && (#[trigger] state.documents@[i])@.metadata.has_pending_writes
}

/// Whether a query on `target_id` fails on the store `s`: a pending write of
/// one of its candidate documents cannot apply.
pub open spec fn query_state_fails(
    s: LocalStoreModel,
    target_id: i32,
    definition: QueryDefinition,
    sum: spec_fn(u64, u64) -> u64,
) -> bool {
    exists|p: Seq<Seq<char>>| candidate_paths(s, target_id, definition).contains(p) && #[trigger] unshowable(s, p, sum)
}

/// What a query on a target shows: its documents, whether any of them has
/// pending writes, and the target's resume token, snapshot version and
/// whether it is served from the cache.
pub struct QueryViewState {
    pub documents: Vec<DocumentSnapshot>,
    pub has_pending_writes: bool,
    pub resume_token: Option<Vec<u8>>,
    pub snapshot_version: Option<Timestamp>,
    pub from_cache: bool,
}

impl MemoryLocalStore {
    /// The keys a query on `target_id` considers, in path order.
    fn candidate_keys(&self, target_id: i32, definition: &QueryDefinition) -> (r: Vec<DocumentKey>)
        ensures
            paths_increasing(key_views(r@)),
            key_set(r@) == candidate_paths(self@, target_id, *definition),
    {
        let mut keys: Vec<DocumentKey> = Vec::new();
        proof {
            assert(key_set(keys@) =~= Set::<Seq<Seq<char>>>::empty());
        }
        let ghost remote = meta_or_fresh(self@.targets, target_id).remote_keys;
        match self.targets.target_metadata_snapshot(target_id) {
            Some(snapshot) => {
                add_matching_keys(&mut keys, &snapshot.remote_keys, definition);
            },
            None => {
                assert(matching_paths(remote, *definition) =~= Set::<Seq<Seq<char>>>::empty());
            },
        }
        let ghost after_remote = key_set(keys@);
        assert(after_remote =~= matching_paths(remote, *definition));
        let pending = self.overlay_keys();
        add_matching_keys(&mut keys, &pending, definition);
        assert(key_set(keys@) =~= candidate_paths(self@, target_id, *definition));
        keys
    }

    /// What a query on `target_id` shows now: the candidate documents, in path
    /// order, each as the store shows it, with the query applied. Served from
    /// the cache unless the target is current. Fails when a pending write of
    /// a candidate cannot apply.
    pub fn compute_query_state<F: Fn(u64, u64) -> u64>(&self, target_id: i32, definition: &QueryDefinition, adder: &F) -> (r:
        FirestoreResult<QueryViewState>)
        requires
            is_adder(*adder),
        ensures
            match r {
                Ok(state) => query_state_shown(self@, target_id, *definition, adder_sum(*adder), state),
                Err(e) => query_state_fails(self@, target_id, *definition, adder_sum(*adder)) && e.code
                    == FirestoreErrorCode::InvalidArgument,
            },
    {
        let target = self.targets.target_metadata_snapshot(target_id);
        let (from_cache, resume_token, snapshot_version) = match &target {
            Some(t) => (
                !t.current,
                match &t.resume_token {
                    Some(v) => Some(v.clone()),
                    None => None,
                },
                t.snapshot_version,
            ),
            None => (true, None, None),
        };
        let keys = self.candidate_keys(target_id, definition);
        let ghost sum = adder_sum(*adder);
        let mut docs: Vec<DocumentSnapshot> = Vec::new();
        let mut i: usize = 0;
        while i < keys.len()
            invariant
                i <= keys@.len(),
                docs@.len() == i,
                is_adder(*adder),
                sum == adder_sum(*adder),
                key_set(keys@) == candidate_paths(self@, target_id, *definition),
                forall|j: int| 0 <= j < i ==> shown_document(self@, keys@[j]@, from_cache, sum, #[trigger] docs@[j]@),
            decreases keys@.len() - i,
        {
            match self.document_snapshot_for_key(&keys[i], from_cache, adder) {
                Ok(d) => {
                    docs.push(d);
                },
                Err(e) => {
                    proof {
                        assert(key_set(keys@).contains(keys@[i as int]@));
                    }
                    return Err(e);
                },
            }
            i = i + 1;
        }
        let ghost shown = doc_views(docs@);
        let ghost paths = key_views(keys@);
        proof {
            assert(paths.len() == keys@.len());
            assert forall|j: int| 0 <= j < paths.len() implies shown_document(
                self@,
                #[trigger] paths[j],
                from_cache,
                sum,
                shown[j],
            ) by {
                assert(paths[j] == keys@[j]@);
                assert(shown[j] == docs@[j]@);
            }
            assert forall|p: Seq<Seq<char>>| #[trigger] paths.contains(p) == key_set(keys@).contains(p) by {
                if paths.contains(p) {
                    let m = choose|m: int| 0 <= m < paths.len() && paths[m] == p;
                    assert(keys@[m]@ == p);
                }
                if key_set(keys@).contains(p) {
                    let m = choose|m: int| 0 <= m < keys@.len() && (#[trigger] keys@[m])@ == p;
                    assert(paths[m] == p);
                }
            }
            assert(Set::new(|p: Seq<Seq<char>>| paths.contains(p)) =~= candidate_paths(self@, target_id, *definition));
        }
        let documents = apply_query_to_documents(docs, definition);
        let mut has_pending_writes = false;
        let mut j: usize = 0;
        while j < documents.len()
            invariant
                j <= documents@.len(),
                has_pending_writes == exists|m: int| 0 <= m < j && (#[trigger] documents@[m])@.metadata.has_pending_writes,
            decreases documents@.len() - j,
        {
            if documents[j].has_pending_writes() {
                has_pending_writes = true;
            }
            j = j + 1;
        }
        Ok(QueryViewState { documents, has_pending_writes, resume_token, snapshot_version, from_cache })
    }
}

/// The last write queued for a document ends its list of pending writes.
proof fn lemma_last_queued(m: Map<Seq<Seq<char>>, Seq<WriteModel>>, ws: Seq<WriteModel>, i: int)
    requires
        0 <= i < ws.len(),
        forall|j: int| i < j < ws.len() ==> model_key(#[trigger] ws[j]) != model_key(ws[i]),
    ensures
        pending_at(queued_overlays(m, ws), model_key(ws[i])).len() > 0,
        pending_at(queued_overlays(m, ws), model_key(ws[i])).last() == ws[i],
    decreases ws.len(),
{
    if i < ws.len() - 1 {
        assert forall|j: int| i < j < ws.drop_last().len() implies model_key(#[trigger] ws.drop_last()[j]) != model_key(
            ws.drop_last()[i],
        ) by {
            assert(ws.drop_last()[j] == ws[j]);
        }
        lemma_last_queued(m, ws.drop_last(), i);
        assert(ws.drop_last()[i] == ws[i]);
        assert(model_key(ws[ws.len() - 1]) != model_key(ws[i]));
    }
}

/// With no pending writes, a document shows exactly what the backend last
/// reported, and has no pending writes.
pub proof fn lemma_no_pending_shows_remote(
    s: LocalStoreModel,
    k: Seq<Seq<char>>,
    from_cache: bool,
    sum: spec_fn(u64, u64) -> u64,
    d: DocModel,
)
    requires
        pending_at(s.overlays, k).len() == 0,
        shown_document(s, k, from_cache, sum, d),
    ensures
        d.data == base_fields(s.documents, k),
        !d.metadata.has_pending_writes,
{
    let (ops, stamps) = choose|ops: Seq<WriteOperation>, stamps: Seq<Seq<Timestamp>>|
        #![trigger overlays_result(base_fields(s.documents, k), ops, stamps, sum)]
        write_models(ops) == pending_at(s.overlays, k) && stamps.len() == ops.len() && overlays_result(
            base_fields(s.documents, k),
            ops,
            stamps,
            sum,
        ) == Some(d.data);
    assert(ops.len() == write_models(ops).len());
}

/// A queued set without mask or transforms, the last write queued for its
/// document, is what that document shows while it is pending, whatever the
/// backend reported and whatever was pending before.
pub proof fn lemma_pending_set_is_read(
    s: LocalStoreModel,
    ws: Seq<WriteOperation>,
    i: int,
    from_cache: bool,
    sum: spec_fn(u64, u64) -> u64,
    d: DocModel,
)
    requires
        0 <= i < ws.len(),
        ws[i] matches WriteOperation::SetData { mask, transforms, .. } && mask is None && transforms@.len() == 0,
        forall|j: int| i < j < ws.len() ==> write_key(#[trigger] ws[j])@ != write_key(ws[i])@,
        shown_document(
            LocalStoreModel { overlays: queued_overlays(s.overlays, write_models(ws)), ..s },
            write_key(ws[i])@,
            from_cache,
            sum,
            d,
        ),
    ensures
        d.data == Some(ws[i]->SetData_data@),
        d.metadata.has_pending_writes,
{
    let wm = write_models(ws);
    let k = write_key(ws[i])@;
    assert(wm[i] == write_model(ws[i]));
    assert(model_key(wm[i]) == k);
    assert forall|j: int| i < j < wm.len() implies model_key(#[trigger] wm[j]) != model_key(wm[i]) by {
        assert(wm[j] == write_model(ws[j]));
        assert(model_key(wm[j]) == write_key(ws[j])@);
    }
    lemma_last_queued(s.overlays, wm, i);
    let t = LocalStoreModel { overlays: queued_overlays(s.overlays, wm), ..s };
    let pending = pending_at(t.overlays, k);
    let (ops, stamps) = choose|ops: Seq<WriteOperation>, stamps: Seq<Seq<Timestamp>>|
        #![trigger overlays_result(base_fields(t.documents, k), ops, stamps, sum)]
        write_models(ops) == pending && stamps.len() == ops.len() && overlays_result(
            base_fields(t.documents, k),
            ops,
            stamps,
            sum,
        ) == Some(d.data);
    assert(ops.len() == write_models(ops).len());
    let last = ops.last();
    assert(write_model(last) == write_models(ops)[ops.len() - 1]);
    assert(write_model(last) == write_model(ws[i]));
    assert(transform_models(last->SetData_transforms@).len() == last->SetData_transforms@.len());
    let cur = overlays_result(base_fields(t.documents, k), ops.drop_last(), stamps.drop_last(), sum);
    assert(cur is Some);
    lemma_set_overlay_replaces(cur->Some_0, last, stamps.last(), sum);
}

/// A registered query listener: its id, the target it follows, its query,
/// and whether the last state shown to it came from the cache and had
/// pending writes.
pub struct QueryListener {
    id: u64,
    target_id: i32,
    definition: QueryDefinition,
    last: Option<(bool, bool)>,
}

/// The content of a query listener.
pub struct ListenerModel {
    pub id: u64,
    pub target_id: i32,
    pub definition: QueryDefinition,
    pub last: Option<(bool, bool)>,
}

/// The content of a listener.
pub closed spec fn listener_model(l: QueryListener) -> ListenerModel {
    ListenerModel { id: l.id, target_id: l.target_id, definition: l.definition, last: l.last }
}

/// The contents of listeners.
pub closed spec fn listener_models(ls: Seq<QueryListener>) -> Seq<ListenerModel> {
    ls.map_values(|l: QueryListener| listener_model(l))
}

/// How many of the first `n` listeners follow `target_id`.
pub open spec fn count_target(ls: Seq<ListenerModel>, target_id: i32, n: int) -> int
    decreases n,
{
    if n <= 0 {
        0
    } else {
        count_target(ls, target_id, n - 1) + if ls[n - 1].target_id == target_id {
            1int
        } else {
            0int
        }
    }
}

proof fn lemma_count_target_monotone(ls: Seq<ListenerModel>, target_id: i32, i: int, n: int)
    requires
        0 <= i <= n,
    ensures
        0 <= count_target(ls, target_id, i) <= count_target(ls, target_id, n),
    decreases n,
{
    if i < n {
        lemma_count_target_monotone(ls, target_id, i, n - 1);
    } else if n > 0 {
        lemma_count_target_monotone(ls, target_id, 0, n - 1);
    }
}

/// Whether the sync state shown to a listener changes: always for its first
/// state, else when whether it comes from the cache or has pending writes
/// changes.
pub open spec fn sync_changed(last: Option<(bool, bool)>, state: QueryViewState) -> bool {
    match last {
        None => true,
        Some((from_cache, pending)) => from_cache != state.from_cache || pending != state.has_pending_writes,
    }
}

/// Whether a new listener of `target_id` starts from the state the store
/// shows: the store holds the target as current with a resume token.
pub open spec fn seeded_from_store(s: LocalStoreModel, target_id: i32) -> bool {
    &&& s.targets.dom().contains(target_id)
    &&& s.targets[target_id].current
    &&& s.targets[target_id].resume_token is Some
}

/// The sync state a new listener of `definition` on `target_id` starts from:
/// that of the state its query shows now where the store seeds it, else none.
pub open spec fn listener_seed(
    s: LocalStoreModel,
    target_id: i32,
    definition: QueryDefinition,
    sum: spec_fn(u64, u64) -> u64,
    seed: Option<(bool, bool)>,
) -> bool {
    if seeded_from_store(s, target_id) {
        exists|state: QueryViewState|
            #[trigger] query_state_shown(s, target_id, definition, sum, state) && seed == Some(
                (state.from_cache, state.has_pending_writes),
            )
    } else {
        seed is None
    }
}

/// Whether the ids increase strictly along the list.
pub open spec fn strictly_increasing_ids(ids: Seq<i32>) -> bool {
    forall|i: int, j: int| 0 <= i < j < ids.len() ==> ids[i] < ids[j]
}

/// Adds `id` to a strictly increasing list of ids, keeping it so.
fn insert_id(ids: &mut Vec<i32>, id: i32)
    requires
        strictly_increasing_ids(old(ids)@),
    ensures
        strictly_increasing_ids(final(ids)@),
        id_set(final(ids)@) == id_set(old(ids)@).insert(id),
{
    let mut p: usize = 0;
    while p < ids.len() && ids[p] < id
        invariant
            p <= ids@.len(),
            ids@ == old(ids)@,
            forall|k: int| 0 <= k < p ==> ids@[k] < id,
        decreases ids@.len() - p,
    {
        p = p + 1;
    }
    if p < ids.len() && ids[p] == id {
        assert(id_set(ids@) =~= id_set(ids@).insert(id)) by {
            assert(ids@.contains(id)) by {
                assert(ids@[p as int] == id);
            }
        }
        return;
    }
    let ghost before = ids@;
    ids.insert(p, id);
    proof {
        assert(ids@ == before.insert(p as int, id));
        assert forall|i: int, j: int| 0 <= i < j < ids@.len() implies ids@[i] < ids@[j] by {
            if j < p {
                assert(ids@[i] == before[i] && ids@[j] == before[j]);
            } else if j == p {
                assert(ids@[i] == before[i]);
            } else if i == p {
                assert(ids@[j] == before[j - 1]);
                assert(before[j - 1] >= id);
                assert(before[j - 1] != id) by {
                    if j - 1 == p {
                        assert(before[p as int] != id);
                    } else {
                        assert(before[p as int] < before[j - 1]);
                    }
                }
            } else if i < p {
                assert(ids@[i] == before[i] && ids@[j] == before[j - 1]);
            } else {
                assert(ids@[i] == before[i - 1] && ids@[j] == before[j - 1]);
            }
        }
        assert forall|t: i32| #[trigger] id_set(ids@).contains(t) == id_set(before).insert(id).contains(t) by {
            if ids@.contains(t) {
                let k = choose|k: int| 0 <= k < ids@.len() && ids@[k] == t;
                if k < p {
                    assert(before[k] == t);
                } else if k > p {
                    assert(before[k - 1] == t);
                }
            }
            if before.contains(t) {
                let k = choose|k: int| 0 <= k < before.len() && before[k] == t;
                if k < p {
                    assert(ids@[k] == t);
                } else {
                    assert(ids@[k + 1] == t);
                }
            }
            if t == id {
                assert(ids@[p as int] == t);
            }
        }
        assert(id_set(ids@) =~= id_set(before).insert(id));
    }
}

/// Adding an id to a list adds it to the set of its ids.
proof fn lemma_id_set_push(s: Seq<i32>, x: i32)
    ensures
        id_set(s.push(x)) == id_set(s).insert(x),
{
    assert forall|t: i32| #[trigger] id_set(s.push(x)).contains(t) == id_set(s).insert(x).contains(t) by {
        if s.push(x).contains(t) {
            let k = choose|k: int| 0 <= k < s.push(x).len() && s.push(x)[k] == t;
            if k < s.len() {
                assert(s[k] == t);
            }
        }
        if s.contains(t) {
            let k = choose|k: int| 0 <= k < s.len() && s[k] == t;
            assert(s.push(x)[k] == t);
        }
        if t == x {
            assert(s.push(x)[s.len() as int] == t);
        }
    }
    assert(id_set(s.push(x)) =~= id_set(s).insert(x));
}

/// The ids of the targets an event changes.
pub open spec fn changed_target_ids(cs: Seq<(i32, TargetChange)>) -> Seq<i32> {
    cs.map_values(|c: (i32, TargetChange)| c.0)
}

/// The targets whose listeners hear of a remote event: those it changes and
/// those it resets, each once, in increasing order.
pub fn targets_to_notify(event: &RemoteEvent) -> (r: Vec<i32>)
    ensures
        strictly_increasing_ids(r@),
        id_set(r@) == id_set(changed_target_ids(event.target_changes@)).union(id_set(event.target_resets@)),
{
    let mut r: Vec<i32> = Vec::new();
    let changes = &event.target_changes;
    let ghost ids = changed_target_ids(changes@);
    assert(id_set(r@) =~= id_set(ids.take(0)));
    let mut i: usize = 0;
    while i < changes.len()
        invariant
            i <= changes@.len(),
            ids == changed_target_ids(changes@),
            strictly_increasing_ids(r@),
            id_set(r@) == id_set(ids.take(i as int)),
        decreases changes@.len() - i,
    {
        insert_id(&mut r, changes[i].0);
        assert(ids.take(i + 1) =~= ids.take(i as int).push(ids[i as int]));
        proof {
            lemma_id_set_push(ids.take(i as int), ids[i as int]);
        }
        i = i + 1;
    }
    assert(ids.take(i as int) =~= ids);
    let resets = &event.target_resets;
    let ghost base = id_set(ids);
    let mut j: usize = 0;
    assert(id_set(resets@.take(0)) =~= Set::<i32>::empty());
    assert(id_set(r@) =~= base.union(id_set(resets@.take(0))));
    while j < resets.len()
        invariant
            j <= resets@.len(),
            strictly_increasing_ids(r@),
            id_set(r@) == base.union(id_set(resets@.take(j as int))),
        decreases resets@.len() - j,
    {
        insert_id(&mut r, resets[j]);
        assert(resets@.take(j + 1) =~= resets@.take(j as int).push(resets@[j as int]));
        proof {
            lemma_id_set_push(resets@.take(j as int), resets@[j as int]);
        }
        assert(id_set(r@) =~= base.union(id_set(resets@.take(j + 1))));
        j = j + 1;
    }
    assert(resets@.take(j as int) =~= resets@);
    r
}

/// A state shown to one listener.
pub struct EmittedSnapshot {
    pub listener_id: u64,
    pub state: QueryViewState,
    pub sync_state_changed: bool,
}

/// What a query view state holds, by its models.
pub struct ViewStateContent {
    pub documents: Seq<DocModel>,
    pub has_pending_writes: bool,
    pub resume_token: Option<Seq<u8>>,
    pub snapshot_version: Option<Timestamp>,
    pub from_cache: bool,
}

/// What a query view state holds.
pub open spec fn view_state_content(s: QueryViewState) -> ViewStateContent {
    ViewStateContent {
        documents: doc_views(s.documents@),
        has_pending_writes: s.has_pending_writes,
        resume_token: token_view(s.resume_token),
        snapshot_version: s.snapshot_version,
        from_cache: s.from_cache,
    }
}

/// A request to the persistence layer about the view of a target.
pub enum ViewStateRequest {
    /// Keep this view of the target, the first listener's.
    SaveQueryViewState(i32, QueryViewState),
    /// Forget the view of the target: it has no listener left.
    ClearQueryViewState(i32),
}

/// The content of a view-state request.
pub enum ViewStateModel {
    Save(i32, ViewStateContent),
    Clear(i32),
}

/// The content of a view-state request.
pub open spec fn view_request_model(r: ViewStateRequest) -> ViewStateModel {
    match r {
        ViewStateRequest::SaveQueryViewState(t, s) => ViewStateModel::Save(t, view_state_content(s)),
        ViewStateRequest::ClearQueryViewState(t) => ViewStateModel::Clear(t),
    }
}

/// The contents of view-state requests.
pub open spec fn view_request_models(rs: Seq<ViewStateRequest>) -> Seq<ViewStateModel> {
    rs.map_values(|r: ViewStateRequest| view_request_model(r))
}

/// Whether some listener follows the target.
pub open spec fn has_target(ls: Seq<ListenerModel>, target_id: i32) -> bool {
    exists|i: int| 0 <= i < ls.len() && (#[trigger] ls[i]).target_id == target_id
}

/// The view-state requests after listeners `before` become `after`: the
/// target's view is to be forgotten when it had listeners and has none left
/// (and a persistence layer is attached).
pub open spec fn removal_requests(
    requests: Seq<ViewStateModel>,
    persisting: bool,
    before: Seq<ListenerModel>,
    after: Seq<ListenerModel>,
    target_id: i32,
) -> Seq<ViewStateModel> {
    if persisting && has_target(before, target_id) && !has_target(after, target_id) {
        requests.push(ViewStateModel::Clear(target_id))
    } else {
        requests
    }
}

/// A copy of a view state.
fn copy_view_state(s: &QueryViewState) -> (r: QueryViewState)
    ensures
        view_state_content(r) == view_state_content(*s),
{
    let mut documents: Vec<DocumentSnapshot> = Vec::new();
    let mut i: usize = 0;
    while i < s.documents.len()
        invariant
            i <= s.documents@.len(),
            doc_views(documents@) == doc_views(s.documents@.take(i as int)),
        decreases s.documents@.len() - i,
    {
        let ghost before = documents@;
        documents.push(s.documents[i].clone());
        assert(doc_views(documents@) =~= doc_views(s.documents@.take(i + 1))) by {
            assert(s.documents@.take(i + 1) =~= s.documents@.take(i as int).push(s.documents@[i as int]));
            assert(documents@ =~= before.push(documents@[before.len() as int]));
            assert(documents@[before.len() as int]@ == s.documents@[i as int]@);
            assert(doc_views(documents@) =~= doc_views(before).push(s.documents@[i as int]@));
            assert(doc_views(s.documents@.take(i + 1)) =~= doc_views(s.documents@.take(i as int)).push(
                s.documents@[i as int]@,
            ));
        }
        i = i + 1;
    }
    assert(s.documents@.take(i as int) =~= s.documents@);
    QueryViewState {
        documents,
        has_pending_writes: s.has_pending_writes,
        resume_token: crate::firestore::remote::syncer_bridge::copy_token(&s.resume_token),
        snapshot_version: s.snapshot_version,
        from_cache: s.from_cache,
    }
}

/// The query listeners of the local store, in the order registered, with
/// the requests about target views for a persistence layer, if one is
/// attached.
pub struct ListenerRegistry {
    listeners: Vec<QueryListener>,
    next_id: u64,
    persisting: bool,
    requests: Vec<ViewStateRequest>,
    restored: Vec<(i32, QueryViewState)>,
}

impl View for ListenerRegistry {
    type V = (Seq<ListenerModel>, u64);

    closed spec fn view(&self) -> (Seq<ListenerModel>, u64) {
        (listener_models(self.listeners@), self.next_id)
    }
}

impl ListenerRegistry {
    /// Whether a persistence layer keeps the views of the targets.
    pub closed spec fn persists_views(&self) -> bool {
        self.persisting
    }

    /// The view-state requests not yet taken, in order.
    pub closed spec fn view_requests(&self) -> Seq<ViewStateModel> {
        view_request_models(self.requests@)
    }

    /// No listeners, ids counted from 1, with a persistence layer attached
    /// for the views of the targets.
    pub fn with_persistence() -> (r: Self)
        ensures
            r@.0 == Seq::<ListenerModel>::empty(),
            r@.1 == 1,
            r.persists_views(),
            r.view_requests() == Seq::<ViewStateModel>::empty(),
            r.restored_entries() == Seq::<(i32, ViewStateContent)>::empty(),
    {
        let mut r = Self::new();
        r.persisting = true;
        r
    }

    /// Takes the view-state requests made so far, in order, for the runner
    /// to hand to the persistence layer.
    pub fn take_view_state_requests(&mut self) -> (r: Vec<ViewStateRequest>)
        ensures
            view_request_models(r@) == old(self).view_requests(),
            final(self)@ == old(self)@,
            final(self).persists_views() == old(self).persists_views(),
            final(self).view_requests() == Seq::<ViewStateModel>::empty(),
            final(self).restored_entries() == old(self).restored_entries(),
    {
        let mut r = Vec::new();
        std::mem::swap(&mut r, &mut self.requests);
        assert(view_request_models(self.requests@) =~= Seq::<ViewStateModel>::empty());
        r
    }

    /// Whether some listener follows `target_id`.
    fn has_listener_for(&self, target_id: i32) -> (b: bool)
        ensures
            b == has_target(self@.0, target_id),
    {
        let mut i: usize = 0;
        while i < self.listeners.len()
            invariant
                i <= self.listeners@.len(),
                forall|k: int| 0 <= k < i ==> (#[trigger] self.listeners@[k]).target_id != target_id,
            decreases self.listeners@.len() - i,
        {
            if self.listeners[i].target_id == target_id {
                assert(self@.0[i as int] == listener_model(self.listeners@[i as int]));
                return true;
            }
            i = i + 1;
        }
        proof {
            if has_target(self@.0, target_id) {
                let k = choose|k: int| 0 <= k < self@.0.len() && (#[trigger] self@.0[k]).target_id == target_id;
                assert(self@.0[k] == listener_model(self.listeners@[k]));
            }
        }
        false
    }

    /// Asks the persistence layer, if any, for `request`.
    fn request(&mut self, request: ViewStateRequest)
        ensures
            final(self)@ == old(self)@,
            final(self).restored_entries() == old(self).restored_entries(),
            final(self).persists_views() == old(self).persists_views(),
            final(self).view_requests() == if old(self).persists_views() {
                old(self).view_requests().push(view_request_model(request))
            } else {
                old(self).view_requests()
            },
    {
        if self.persisting {
            let ghost before = self.requests@;
            let ghost m = view_request_model(request);
            self.requests.push(request);
            assert(view_request_models(self.requests@) =~= view_request_models(before).push(m));
        }
    }

    /// The targets that have listeners, each once, in increasing order.
    pub fn listened_targets(&self) -> (r: Vec<i32>)
        ensures
            strictly_increasing_ids(r@),
            id_set(r@) == Set::new(|t: i32| exists|i: int| 0 <= i < self@.0.len() && (#[trigger] self@.0[i]).target_id == t),
    {
        let mut r: Vec<i32> = Vec::new();
        let mut i: usize = 0;
        while i < self.listeners.len()
            invariant
                i <= self.listeners@.len(),
                strictly_increasing_ids(r@),
                forall|t: i32| #[trigger] id_set(r@).contains(t) == exists|k: int| 0 <= k < i && (#[trigger] self.listeners@[k]).target_id == t,
            decreases self.listeners@.len() - i,
        {
            let ghost before = r@;
            insert_id(&mut r, self.listeners[i].target_id);
            proof {
                assert forall|t: i32| #[trigger] id_set(r@).contains(t) == exists|k: int| 0 <= k < i + 1 && (#[trigger] self.listeners@[k]).target_id == t by {
                    if exists|k: int| 0 <= k < i + 1 && (#[trigger] self.listeners@[k]).target_id == t {
                        let k = choose|k: int| 0 <= k < i + 1 && (#[trigger] self.listeners@[k]).target_id == t;
                        if k < i {
                            assert(id_set(before).contains(t));
                        }
                    }
                    if id_set(before).contains(t) {
                        let k = choose|k: int| 0 <= k < i && (#[trigger] self.listeners@[k]).target_id == t;
                        assert(0 <= k < i + 1);
                    }
                }
            }
            i = i + 1;
        }
        proof {
            let m = self@.0;
            assert forall|t: i32| #[trigger] id_set(r@).contains(t) == Set::new(|t: i32| exists|i: int| 0 <= i < m.len() && (#[trigger] m[i]).target_id == t).contains(t) by {
                if exists|k: int| 0 <= k < self.listeners@.len() && (#[trigger] self.listeners@[k]).target_id == t {
                    let k = choose|k: int| 0 <= k < self.listeners@.len() && (#[trigger] self.listeners@[k]).target_id == t;
                    assert(m[k] == listener_model(self.listeners@[k]));
                }
                if exists|k: int| 0 <= k < m.len() && (#[trigger] m[k]).target_id == t {
                    let k = choose|k: int| 0 <= k < m.len() && (#[trigger] m[k]).target_id == t;
                    assert(m[k] == listener_model(self.listeners@[k]));
                }
            }
            assert(id_set(r@) =~= Set::new(|t: i32| exists|i: int| 0 <= i < m.len() && (#[trigger] m[i]).target_id == t));
        }
        r
    }

    /// No listeners; ids are counted from 1.
    pub fn new() -> (r: Self)
        ensures
            r@.0 == Seq::<ListenerModel>::empty(),
            r@.1 == 1,
            !r.persists_views(),
            r.view_requests() == Seq::<ViewStateModel>::empty(),
            r.restored_entries() == Seq::<(i32, ViewStateContent)>::empty(),
    {
        let r = ListenerRegistry {
            listeners: Vec::new(),
            next_id: 1,
            persisting: false,
            requests: Vec::new(),
            restored: Vec::new(),
        };
        assert(view_request_models(r.requests@) =~= Seq::<ViewStateModel>::empty());
        assert(listener_models(r.listeners@) =~= Seq::<ListenerModel>::empty());
        r
    }

    /// Registers a listener for the query `definition` on `target_id` and
    /// returns its id, the next one counted (an id is used up even when
    /// registering fails). Where the store holds the target as current with
    /// a resume token, the listener starts from the sync state that its
    /// query shows now, and registering fails when that query fails; else it
    /// has been shown nothing yet.
    pub fn register<F: Fn(u64, u64) -> u64>(
        &mut self,
        store: &MemoryLocalStore,
        target_id: i32,
        definition: QueryDefinition,
        adder: &F,
    ) -> (r: FirestoreResult<u64>)
        requires
            is_adder(*adder),
        ensures
            final(self)@.1 == old(self)@.1.wrapping_add(1),
            final(self).persists_views() == old(self).persists_views(),
            final(self).view_requests() == old(self).view_requests(),
            final(self).restored_entries() == old(self).restored_entries(),
            match r {
                Ok(id) => {
                    &&& id == old(self)@.1
                    &&& final(self)@.0 == old(self)@.0.push(
                        ListenerModel { id, target_id, definition, last: final(self)@.0.last().last },
                    )
                    &&& if old(self).restored_views().dom().contains(target_id) {
                        final(self)@.0.last().last == Some(
                            (
                                old(self).restored_views()[target_id].from_cache,
                                old(self).restored_views()[target_id].has_pending_writes,
                            ),
                        )
                    } else {
                        listener_seed(store@, target_id, definition, adder_sum(*adder), final(self)@.0.last().last)
                    }
                },
                Err(e) => {
                    &&& final(self)@.0 == old(self)@.0
                    &&& !old(self).restored_views().dom().contains(target_id)
                    &&& seeded_from_store(store@, target_id)
                    &&& query_state_fails(store@, target_id, definition, adder_sum(*adder))
                    &&& e.code == FirestoreErrorCode::InvalidArgument
                },
            },
    {
        let id = self.next_id;
        self.next_id = id.wrapping_add(1);
        let restored = self.restored_view_state(target_id);
        let seed = if let Some(state) = restored {
            Some((state.from_cache, state.has_pending_writes))
        } else { match store.target_metadata_snapshot(target_id) {
            Some(meta) => {
                if meta.current && meta.resume_token.is_some() {
                    match store.compute_query_state(target_id, &definition, adder) {
                        Ok(state) => Some((state.from_cache, state.has_pending_writes)),
                        Err(e) => {
                            return Err(e);
                        },
                    }
                } else {
                    None
                }
            },
            None => None,
        } };
        let ghost before = self.listeners@;
        self.listeners.push(QueryListener { id, target_id, definition, last: seed });
        assert(listener_models(self.listeners@) =~= listener_models(before).push(
            ListenerModel { id, target_id, definition, last: seed },
        ));
        Ok(id)
    }

    /// Removes the listeners of `target_id` with the given id, and, when the
    /// target had listeners and has none left, asks the persistence layer, if
    /// any, to forget its view. Returns whether the target has no listener
    /// left.
    pub fn remove_query_listener(&mut self, target_id: i32, listener_id: u64) -> (r: bool)
        ensures
            final(self)@.1 == old(self)@.1,
            final(self)@.0 == old(self)@.0.filter(
                |l: ListenerModel| !(l.target_id == target_id && l.id == listener_id),
            ),
            r == !has_target(final(self)@.0, target_id),
            final(self).persists_views() == old(self).persists_views(),
            final(self).view_requests() == removal_requests(
                old(self).view_requests(),
                old(self).persists_views(),
                old(self)@.0,
                final(self)@.0,
                target_id,
            ),
            final(self).restored_views() == if has_target(old(self)@.0, target_id) && r {
                old(self).restored_views().remove(target_id)
            } else {
                old(self).restored_views()
            },
    {
        let had = self.has_listener_for(target_id);
        let r = self.retain_others(target_id, listener_id);
        if had && r {
            self.drop_view(target_id);
            self.request(ViewStateRequest::ClearQueryViewState(target_id));
        }
        r
    }

    /// Removes the listeners of `target_id` with the given id; returns
    /// whether the target has no listener left.
    fn retain_others(&mut self, target_id: i32, listener_id: u64) -> (r: bool)
        ensures
            final(self).persists_views() == old(self).persists_views(),
            final(self).view_requests() == old(self).view_requests(),
            final(self).restored_entries() == old(self).restored_entries(),
            final(self)@.1 == old(self)@.1,
            final(self)@.0 == old(self)@.0.filter(
                |l: ListenerModel| !(l.target_id == target_id && l.id == listener_id),
            ),
            r == !exists|i: int| 0 <= i < final(self)@.0.len() && (#[trigger] final(self)@.0[i]).target_id == target_id,
    {
        let mut rest = Vec::new();
        std::mem::swap(&mut rest, &mut self.listeners);
        let ghost all = listener_models(rest@);
        let mut kept: Vec<QueryListener> = Vec::new();
        let mut left = false;
        let mut i: usize = 0;
        let n = rest.len();
        while i < n
            invariant
                n == all.len(),
                i <= n,
                rest@.len() == n - i,
                forall|j: int| 0 <= j < rest@.len() ==> listener_model(#[trigger] rest@[j]) == all[i + j],
                listener_models(kept@) == all.take(i as int).filter(
                    |l: ListenerModel| !(l.target_id == target_id && l.id == listener_id),
                ),
                left == exists|j: int| 0 <= j < kept@.len() && (#[trigger] kept@[j]).target_id == target_id,
            decreases n - i,
        {
            reveal(Seq::filter);
            let l = rest.remove(0);
            let ghost lm = listener_model(l);
            assert(lm == all[i as int]);
            assert(all.take(i + 1).drop_last() =~= all.take(i as int));
            if !(l.target_id == target_id && l.id == listener_id) {
                let ghost old_left = left;
                if l.target_id == target_id {
                    left = true;
                }
                let ghost before = kept@;
                let ghost lt = l.target_id;
                kept.push(l);
                assert(listener_models(kept@) =~= listener_models(before).push(lm));
                assert(left == exists|j: int| 0 <= j < kept@.len() && (#[trigger] kept@[j]).target_id == target_id) by {
                    assert(kept@[before.len() as int].target_id == lt);
                    if old_left {
                        let j = choose|j: int| 0 <= j < before.len() && (#[trigger] before[j]).target_id == target_id;
                        assert(kept@[j] == before[j]);
                    }
                    if exists|j: int| 0 <= j < kept@.len() && (#[trigger] kept@[j]).target_id == target_id {
                        let j = choose|j: int| 0 <= j < kept@.len() && (#[trigger] kept@[j]).target_id == target_id;
                        if j < before.len() {
                            assert(kept@[j] == before[j]);
                        }
                    }
                }
            }
            i = i + 1;
        }
        assert(all.take(i as int) =~= all);
        let ghost kv = kept@;
        self.listeners = kept;
        proof {
            let m = listener_models(kv);
            assert forall|j: int| 0 <= j < m.len() implies #[trigger] m[j] == listener_model(kv[j]) by {}
            if exists|j: int| 0 <= j < m.len() && (#[trigger] m[j]).target_id == target_id {
                let j = choose|j: int| 0 <= j < m.len() && (#[trigger] m[j]).target_id == target_id;
                assert(kv[j].target_id == target_id);
            }
            if left {
                let j = choose|j: int| 0 <= j < kv.len() && (#[trigger] kv[j]).target_id == target_id;
                assert(m[j].target_id == target_id);
            }
        }
        !left
    }

    /// The states shown to the listeners of `target_id`, in the order they
    /// were registered: each is what its query shows of `store` now, with
    /// whether its sync state changed since the last state it was shown;
    /// each listener then remembers the state. Fails, changing nothing, when
    /// the query of one of them fails.
    pub fn emit_query_snapshots<F: Fn(u64, u64) -> u64>(
        &mut self,
        store: &MemoryLocalStore,
        target_id: i32,
        adder: &F,
    ) -> (r: FirestoreResult<Vec<EmittedSnapshot>>)
        requires
            is_adder(*adder),
        ensures
            final(self)@.1 == old(self)@.1,
            final(self).persists_views() == old(self).persists_views(),
            match r {
                Ok(out) => final(self).view_requests() == if old(self).persists_views() && out@.len() > 0 {
                    old(self).view_requests().push(ViewStateModel::Save(target_id, view_state_content(out@[0].state)))
                } else {
                    old(self).view_requests()
                },
                Err(_) => final(self).view_requests() == old(self).view_requests(),
            },
            match r {
                Ok(out) => final(self).restored_views() == if out@.len() > 0 {
                    old(self).restored_views().insert(target_id, view_state_content(out@[0].state))
                } else {
                    old(self).restored_views()
                },
                Err(_) => final(self).restored_entries() == old(self).restored_entries(),
            },
            match r {
                Ok(out) => {
                    let ls = old(self)@.0;
                    &&& final(self)@.0.len() == ls.len()
                    &&& out@.len() == count_target(ls, target_id, ls.len() as int)
                    &&& forall|i: int|
                        #![trigger final(self)@.0[i]]
                        0 <= i < ls.len() ==> {
                            let k = count_target(ls, target_id, i);
                            &&& final(self)@.0[i].id == ls[i].id
                            &&& final(self)@.0[i].target_id == ls[i].target_id
                            &&& final(self)@.0[i].definition == ls[i].definition
                            &&& if ls[i].target_id == target_id {
                                &&& out@[k].listener_id == ls[i].id
                                &&& query_state_shown(store@, target_id, ls[i].definition, adder_sum(*adder), out@[k].state)
                                &&& out@[k].sync_state_changed == sync_changed(ls[i].last, out@[k].state)
                                &&& final(self)@.0[i].last == Some((out@[k].state.from_cache, out@[k].state.has_pending_writes))
                            } else {
                                final(self)@.0[i].last == ls[i].last
                            }
                        }
                },
                Err(e) => final(self)@ == old(self)@ && e.code == FirestoreErrorCode::InvalidArgument && exists|i: int|
                    0 <= i < old(self)@.0.len() && (#[trigger] old(self)@.0[i]).target_id == target_id
                        && query_state_fails(store@, target_id, old(self)@.0[i].definition, adder_sum(*adder)),
            },
    {
        let ghost ls = old(self)@.0;
        let ghost sum = adder_sum(*adder);
        let mut out: Vec<EmittedSnapshot> = Vec::new();
        let mut i: usize = 0;
        while i < self.listeners.len()
            invariant
                self@ == old(self)@,
                ls == self@.0,
                ls.len() == self.listeners@.len(),
                sum == adder_sum(*adder),
                is_adder(*adder),
                i <= ls.len(),
                out@.len() == count_target(ls, target_id, i as int),
                forall|j: int|
                    #![trigger ls[j]]
                    0 <= j < i && ls[j].target_id == target_id ==> {
                        let k = count_target(ls, target_id, j);
                        &&& 0 <= k < out@.len()
                        &&& out@[k].listener_id == ls[j].id
                        &&& query_state_shown(store@, target_id, ls[j].definition, sum, out@[k].state)
                        &&& out@[k].sync_state_changed == sync_changed(ls[j].last, out@[k].state)
                    },
            decreases ls.len() - i,
        {
            proof {
                assert(ls[i as int] == listener_model(self.listeners@[i as int]));
                lemma_count_target_monotone(ls, target_id, 0, i as int);
            }
            let l = &self.listeners[i];
            if l.target_id == target_id {
                let state = match store.compute_query_state(target_id, &l.definition, adder) {
                    Ok(state) => state,
                    Err(e) => {
                        return Err(e);
                    },
                };
                let changed = match l.last {
                    None => true,
                    Some((from_cache, pending)) => from_cache != state.from_cache || pending
                        != state.has_pending_writes,
                };
                out.push(EmittedSnapshot { listener_id: l.id, state, sync_state_changed: changed });
            }
            proof {
                assert forall|j: int|
                    #![trigger ls[j]]
                    0 <= j < i + 1 && ls[j].target_id == target_id implies {
                        let k = count_target(ls, target_id, j);
                        &&& 0 <= k < out@.len()
                        &&& out@[k].listener_id == ls[j].id
                        &&& query_state_shown(store@, target_id, ls[j].definition, sum, out@[k].state)
                        &&& out@[k].sync_state_changed == sync_changed(ls[j].last, out@[k].state)
                    } by {
                    lemma_count_target_monotone(ls, target_id, j, i as int);
                }
            }
            i = i + 1;
        }
        let mut rest = Vec::new();
        std::mem::swap(&mut rest, &mut self.listeners);
        let mut updated: Vec<QueryListener> = Vec::new();
        let n = rest.len();
        let emitted = out.len();
        let mut j: usize = 0;
        let mut k: usize = 0;
        while j < n
            invariant
                n == ls.len(),
                j <= n,
                rest@.len() == n - j,
                forall|m: int| 0 <= m < rest@.len() ==> listener_model(#[trigger] rest@[m]) == ls[j + m],
                out@.len() == count_target(ls, target_id, ls.len() as int),
                emitted == out@.len(),
                k == count_target(ls, target_id, j as int),
                updated@.len() == j,
                forall|m: int|
                    #![trigger updated@[m]]
                    0 <= m < j ==> {
                        let c = count_target(ls, target_id, m);
                        &&& updated@[m].id == ls[m].id
                        &&& updated@[m].target_id == ls[m].target_id
                        &&& updated@[m].definition == ls[m].definition
                        &&& if ls[m].target_id == target_id {
                            updated@[m].last == Some((out@[c].state.from_cache, out@[c].state.has_pending_writes))
                        } else {
                            updated@[m].last == ls[m].last
                        }
                    },
            decreases n - j,
        {
            proof {
                lemma_count_target_monotone(ls, target_id, j as int + 1, ls.len() as int);
            }
            let l = rest.remove(0);
            assert(listener_model(l) == ls[j as int]);
            let QueryListener { id, target_id: t, definition, last } = l;
            if t == target_id {
                assert(count_target(ls, target_id, j as int + 1) == k + 1);
                let flags = (out[k].state.from_cache, out[k].state.has_pending_writes);
                updated.push(QueryListener { id, target_id: t, definition, last: Some(flags) });
                k = k + 1;
            } else {
                updated.push(QueryListener { id, target_id: t, definition, last });
            }
            j = j + 1;
        }
        self.listeners = updated;
        proof {
            assert forall|m: int| #![trigger self@.0[m]] 0 <= m < ls.len() implies self@.0[m] == listener_model(
                self.listeners@[m],
            ) by {}
        }
        if out.len() > 0 {
            let kept = copy_view_state(&out[0].state);
            self.restore_query_view_state(target_id, kept);
            let saved = copy_view_state(&out[0].state);
            self.request(ViewStateRequest::SaveQueryViewState(target_id, saved));
        }
        Ok(out)
    }
}

/// The registration of a query listener; detaching it removes the listener.
pub struct QueryListenerRegistration {
    target_id: i32,
    listener_id: u64,
    detached: bool,
}

impl QueryListenerRegistration {
    /// The target the listener follows.
    pub closed spec fn spec_target_id(&self) -> i32 {
        self.target_id
    }

    /// The listener's id.
    pub closed spec fn spec_listener_id(&self) -> u64 {
        self.listener_id
    }

    /// Whether the listener was detached.
    pub closed spec fn is_detached(&self) -> bool {
        self.detached
    }

    /// The listener's id.
    pub fn listener_id(&self) -> (r: u64)
        ensures
            r == self.spec_listener_id(),
    {
        self.listener_id
    }

    /// The target the listener follows.
    pub fn target_id(&self) -> (r: i32)
        ensures
            r == self.spec_target_id(),
    {
        self.target_id
    }

    /// Removes the listener from `listeners`, the first time only.
    pub fn detach(&mut self, listeners: &mut ListenerRegistry)
        ensures
            final(self).spec_target_id() == old(self).spec_target_id(),
            final(self).spec_listener_id() == old(self).spec_listener_id(),
            final(self).is_detached(),
            final(listeners)@.1 == old(listeners)@.1,
            final(listeners).persists_views() == old(listeners).persists_views(),
            final(listeners).view_requests() == if old(self).is_detached() {
                old(listeners).view_requests()
            } else {
                removal_requests(
                    old(listeners).view_requests(),
                    old(listeners).persists_views(),
                    old(listeners)@.0,
                    final(listeners)@.0,
                    old(self).spec_target_id(),
                )
            },
            final(listeners).restored_views() == if !old(self).is_detached() && has_target(
                old(listeners)@.0,
                old(self).spec_target_id(),
            ) && !has_target(final(listeners)@.0, old(self).spec_target_id()) {
                old(listeners).restored_views().remove(old(self).spec_target_id())
            } else {
                old(listeners).restored_views()
            },
            final(listeners)@.0 == if old(self).is_detached() {
                old(listeners)@.0
            } else {
                old(listeners)@.0.filter(
                    |l: ListenerModel|
                        !(l.target_id == old(self).spec_target_id() && l.id == old(self).spec_listener_id()),
                )
            },
    {
        if !self.detached {
            let _ = listeners.remove_query_listener(self.target_id, self.listener_id);
            self.detached = true;
        }
    }
}

impl MemoryLocalStore {
    /// Registers a listener for the query `definition` on `target_id` in
    /// `listeners` (see [`ListenerRegistry::register`]) and returns its
    /// registration.
    pub fn register_query_listener<F: Fn(u64, u64) -> u64>(
        &self,
        listeners: &mut ListenerRegistry,
        target_id: i32,
        definition: QueryDefinition,
        adder: &F,
    ) -> (r: FirestoreResult<QueryListenerRegistration>)
        requires
            is_adder(*adder),
        ensures
            final(listeners)@.1 == old(listeners)@.1.wrapping_add(1),
            final(listeners).persists_views() == old(listeners).persists_views(),
            final(listeners).view_requests() == old(listeners).view_requests(),
            final(listeners).restored_entries() == old(listeners).restored_entries(),
            match r {
                Ok(reg) => {
                    &&& reg.spec_listener_id() == old(listeners)@.1
                    &&& reg.spec_target_id() == target_id
                    &&& !reg.is_detached()
                    &&& final(listeners)@.0 == old(listeners)@.0.push(
                        ListenerModel {
                            id: reg.spec_listener_id(),
                            target_id,
                            definition,
                            last: final(listeners)@.0.last().last,
                        },
                    )
                    &&& if old(listeners).restored_views().dom().contains(target_id) {
                        final(listeners)@.0.last().last == Some(
                            (
                                old(listeners).restored_views()[target_id].from_cache,
                                old(listeners).restored_views()[target_id].has_pending_writes,
                            ),
                        )
                    } else {
                        listener_seed(self@, target_id, definition, adder_sum(*adder), final(listeners)@.0.last().last)
                    }
                },
                Err(e) => {
                    &&& final(listeners)@.0 == old(listeners)@.0
                    &&& !old(listeners).restored_views().dom().contains(target_id)
                    &&& seeded_from_store(self@, target_id)
                    &&& query_state_fails(self@, target_id, definition, adder_sum(*adder))
                    &&& e.code == FirestoreErrorCode::InvalidArgument
                },
            },
    {
        let listener_id = listeners.register(self, target_id, definition, adder)?;
        Ok(QueryListenerRegistration { target_id, listener_id, detached: false })
    }
}

/// The views kept for targets, by target; a later entry replaces an earlier
/// one.
pub open spec fn views_map(es: Seq<(i32, ViewStateContent)>) -> Map<i32, ViewStateContent>
    decreases es.len(),
{
    if es.len() == 0 {
        Map::empty()
    } else {
        views_map(es.drop_last()).insert(es.last().0, es.last().1)
    }
}

/// The entries of kept views, by their contents.
pub open spec fn view_entries(rs: Seq<(i32, QueryViewState)>) -> Seq<(i32, ViewStateContent)> {
    rs.map_values(|e: (i32, QueryViewState)| (e.0, view_state_content(e.1)))
}

/// The entries without those of `target_id`.
pub open spec fn entries_without(es: Seq<(i32, ViewStateContent)>, target_id: i32) -> Seq<(i32, ViewStateContent)>
    decreases es.len(),
{
    if es.len() == 0 {
        es
    } else if es.last().0 == target_id {
        entries_without(es.drop_last(), target_id)
    } else {
        entries_without(es.drop_last(), target_id).push(es.last())
    }
}

/// The requests to forget the view of each target with kept entries, in the
/// order of their first entries.
pub open spec fn view_clears(es: Seq<(i32, ViewStateContent)>) -> Seq<ViewStateModel>
    decreases es.len(),
{
    if es.len() == 0 {
        Seq::empty()
    } else {
        let earlier = es.drop_last();
        let t = es.last().0;
        view_clears(earlier) + if exists|k: int| 0 <= k < earlier.len() && (#[trigger] earlier[k]).0 == t {
            Seq::empty()
        } else {
            seq![ViewStateModel::Clear(t)]
        }
    }
}

/// Dropping the entries of a target drops it from the views.
proof fn lemma_views_without(es: Seq<(i32, ViewStateContent)>, t: i32)
    ensures
        views_map(entries_without(es, t)) == views_map(es).remove(t),
    decreases es.len(),
{
    if es.len() > 0 {
        lemma_views_without(es.drop_last(), t);
        if es.last().0 == t {
            assert(views_map(es).remove(t) =~= views_map(es.drop_last()).remove(t));
        } else {
            assert(entries_without(es, t).drop_last() =~= entries_without(es.drop_last(), t));
            assert(entries_without(es, t).last() == es.last());
            assert(views_map(es).remove(t) =~= views_map(es.drop_last()).remove(t).insert(es.last().0, es.last().1));
        }
    } else {
        assert(views_map(es).remove(t) =~= views_map(es));
    }
}

/// The view of a target is its last entry; a target without entries has
/// none.
proof fn lemma_views_at(es: Seq<(i32, ViewStateContent)>, t: i32, i: int)
    requires
        -1 <= i < es.len(),
        forall|j: int| i < j < es.len() ==> (#[trigger] es[j]).0 != t,
        0 <= i ==> es[i].0 == t,
    ensures
        i >= 0 ==> views_map(es).dom().contains(t) && views_map(es)[t] == es[i].1,
        i < 0 ==> !views_map(es).dom().contains(t),
    decreases es.len(),
{
    if es.len() > 0 {
        if i == es.len() - 1 {
        } else {
            lemma_views_at(es.drop_last(), t, i);
        }
    }
}

impl ListenerRegistry {
    /// The entries of the kept views, in the order kept.
    pub closed spec fn restored_entries(&self) -> Seq<(i32, ViewStateContent)> {
        view_entries(self.restored@)
    }

    /// The views kept for targets.
    pub closed spec fn restored_views(&self) -> Map<i32, ViewStateContent> {
        views_map(view_entries(self.restored@))
    }

    /// Removes the kept view of `target_id`, if any.
    fn drop_view(&mut self, target_id: i32)
        ensures
            final(self)@ == old(self)@,
            final(self).persists_views() == old(self).persists_views(),
            final(self).view_requests() == old(self).view_requests(),
            final(self).restored_views() == old(self).restored_views().remove(target_id),
    {
        let mut rest = Vec::new();
        std::mem::swap(&mut rest, &mut self.restored);
        let ghost all = view_entries(rest@);
        let mut kept: Vec<(i32, QueryViewState)> = Vec::new();
        let n = rest.len();
        let mut i: usize = 0;
        assert(all.take(0) =~= Seq::<(i32, ViewStateContent)>::empty());
        assert(view_entries(kept@) =~= entries_without(all.take(0), target_id));
        while i < n
            invariant
                n == all.len(),
                i <= n,
                rest@.len() == n - i,
                forall|j: int| 0 <= j < rest@.len() ==> (#[trigger] rest@[j]).0 == all[i + j].0 && view_state_content(
                    rest@[j].1,
                ) == all[i + j].1,
                view_entries(kept@) == entries_without(all.take(i as int), target_id),
            decreases n - i,
        {
            let e = rest.remove(0);
            let ghost t = all.take(i + 1);
            assert(t.drop_last() =~= all.take(i as int));
            assert(t.last() == all[i as int]);
            if e.0 != target_id {
                let ghost before = kept@;
                kept.push(e);
                assert(view_entries(kept@) =~= view_entries(before).push(all[i as int]));
            }
            i = i + 1;
        }
        assert(all.take(i as int) =~= all);
        self.restored = kept;
        proof {
            lemma_views_without(all, target_id);
        }
    }

    /// Keeps `state` as the view of `target_id`, replacing any kept before.
    pub fn restore_query_view_state(&mut self, target_id: i32, state: QueryViewState)
        ensures
            final(self)@ == old(self)@,
            final(self).persists_views() == old(self).persists_views(),
            final(self).view_requests() == old(self).view_requests(),
            final(self).restored_views() == old(self).restored_views().insert(target_id, view_state_content(state)),
    {
        self.drop_view(target_id);
        let ghost before = self.restored@;
        let ghost c = view_state_content(state);
        self.restored.push((target_id, state));
        proof {
            assert(view_entries(self.restored@) =~= view_entries(before).push((target_id, c)));
            assert(view_entries(self.restored@).drop_last() =~= view_entries(before));
            assert(views_map(view_entries(self.restored@)) =~= views_map(view_entries(before)).insert(target_id, c));
            assert(old(self).restored_views().remove(target_id).insert(target_id, c) =~= old(self).restored_views().insert(target_id, c));
        }
    }

    /// A copy of the view kept for `target_id`, if any.
    pub fn restored_view_state(&self, target_id: i32) -> (r: Option<QueryViewState>)
        ensures
            match r {
                Some(s) => self.restored_views().dom().contains(target_id) && self.restored_views()[target_id]
                    == view_state_content(s),
                None => !self.restored_views().dom().contains(target_id),
            },
    {
        let ghost es = view_entries(self.restored@);
        let mut i: usize = self.restored.len();
        while i > 0
            invariant
                i <= self.restored@.len(),
                es == view_entries(self.restored@),
                forall|j: int| i <= j < es.len() ==> (#[trigger] es[j]).0 != target_id,
            decreases i,
        {
            if self.restored[i - 1].0 == target_id {
                proof {
                    lemma_views_at(es, target_id, i - 1);
                }
                return Some(copy_view_state(&self.restored[i - 1].1));
            }
            i = i - 1;
        }
        proof {
            lemma_views_at(es, target_id, -1);
        }
        None
    }

    /// Forgets every kept view; the persistence layer, if any, is asked to
    /// forget each target's view.
    pub fn clear_view_states(&mut self)
        ensures
            final(self)@ == old(self)@,
            final(self).persists_views() == old(self).persists_views(),
            final(self).restored_views() == Map::<i32, ViewStateContent>::empty(),
            final(self).view_requests() == if old(self).persists_views() {
                old(self).view_requests() + view_clears(old(self).restored_entries())
            } else {
                old(self).view_requests()
            },
    {
        let mut entries = Vec::new();
        std::mem::swap(&mut entries, &mut self.restored);
        let ghost es = view_entries(entries@);
        let ghost start = self.view_requests();
        let mut i: usize = 0;
        assert(view_entries(self.restored@) =~= Seq::<(i32, ViewStateContent)>::empty());
        assert(es.take(0) =~= Seq::<(i32, ViewStateContent)>::empty());
        assert(start + view_clears(es.take(0)) =~= start);
        while i < entries.len()
            invariant
                i <= entries@.len(),
                es == view_entries(entries@),
                self@ == old(self)@,
                self.persists_views() == old(self).persists_views(),
                self.restored_entries() == Seq::<(i32, ViewStateContent)>::empty(),
                start == old(self).view_requests(),
                self.view_requests() == if old(self).persists_views() {
                    start + view_clears(es.take(i as int))
                } else {
                    start
                },
            decreases entries@.len() - i,
        {
            let t = entries[i].0;
            let mut seen = false;
            let mut k: usize = 0;
            while k < i
                invariant
                    k <= i,
                    i < entries@.len(),
                    es == view_entries(entries@),
                    t == es[i as int].0,
                    seen == exists|m: int| 0 <= m < k && (#[trigger] es[m]).0 == t,
                decreases i - k,
            {
                assert(es[k as int].0 == entries@[k as int].0);
                if entries[k].0 == t {
                    seen = true;
                }
                k = k + 1;
            }
            let ghost earlier = es.take(i as int);
            proof {
                assert(es.take(i + 1).drop_last() =~= earlier);
                assert(es.take(i + 1).last() == es[i as int]);
                assert((exists|m: int| 0 <= m < earlier.len() && (#[trigger] earlier[m]).0 == t) == seen) by {
                    if exists|m: int| 0 <= m < earlier.len() && (#[trigger] earlier[m]).0 == t {
                        let m = choose|m: int| 0 <= m < earlier.len() && (#[trigger] earlier[m]).0 == t;
                        assert(es[m] == earlier[m]);
                    }
                    if seen {
                        let m = choose|m: int| 0 <= m < i && (#[trigger] es[m]).0 == t;
                        assert(earlier[m] == es[m]);
                    }
                }
            }
            if !seen {
                let ghost before = self.view_requests();
                self.request(ViewStateRequest::ClearQueryViewState(t));
                proof {
                    if old(self).persists_views() {
                        assert(start + view_clears(es.take(i + 1)) =~= before + seq![ViewStateModel::Clear(t)]);
                    }
                }
            } else {
                proof {
                    if old(self).persists_views() {
                        assert(start + view_clears(es.take(i + 1)) =~= start + view_clears(earlier));
                    }
                }
            }
            i = i + 1;
        }
        assert(es.take(i as int) =~= es);
        assert(view_entries(self.restored@) =~= Seq::<(i32, ViewStateContent)>::empty());
        assert(self.restored_views() =~= Map::<i32, ViewStateContent>::empty());
    }
}

} // verus!
