//! A datastore that keeps documents in memory, keyed by their path.
//!
//! Numeric increments that need a double sum take the adder closure described
//! in the overlay module; server timestamps read the clock, so the contracts
//! hold for every sequence of clock readings.
use vstd::prelude::*;

use crate::firestore::api::operations::{
    field_views, set_at, set_value_at_field_path, value_at, value_for_field_path, FieldTransform,
};
use crate::firestore::api::query::QueryDefinition;
use crate::firestore::api::snapshot::{DocModel, DocumentSnapshot, SnapshotMetadata};
use crate::firestore::error::{internal_error, not_found, FirestoreErrorCode, FirestoreResult};
use crate::firestore::local::overlay::{
    adder_sum, apply_transform, is_adder, known_fields, opt_model, transform_models,
    transform_value, updates_applied, Entries, TransformModel,
};
use crate::firestore::model::document_key::is_document_path;
use crate::firestore::model::resource_path::{parse_resource_path, render_path};
use crate::firestore::model::{DocumentKey, FieldPath, Timestamp};
use crate::firestore::query_evaluator::{apply_query_to_documents, doc_views, query_outcome};
use crate::firestore::remote::datastore::{write_key, WriteOperation};
use crate::firestore::value::value::{
    insert_sorted, keys_sorted, lemma_insert_sorted, lemma_remove_sorted, lookup, remove_sorted,
    FirestoreValue, ValueModel,
};
use crate::firestore::value::MapValue;
use crate::text::owned;

verus! {

/// The fields stored at `path`, if a document is stored there.
pub open spec fn doc_at(store: Entries, path: Seq<char>) -> Option<Entries> {
    match lookup(store, path) {
        Some(ValueModel::Mapping(f)) => Some(f),
        _ => None,
    }
}

/// The fields after each masked path that `data` holds takes its value from
/// `data`; masked paths that `data` lacks are left alone.
pub open spec fn masked_fields(fields: Entries, data: Entries, mask: Seq<Seq<Seq<char>>>) -> Entries
    decreases mask.len(),
{
    if mask.len() == 0 {
        fields
    } else {
        let f = masked_fields(fields, data, mask.drop_last());
        match value_at(data, mask.last()) {
            Some(v) => set_at(f, mask.last(), v),
            None => f,
        }
    }
}

/// The fields after the transforms apply in order, each reading its field
/// as the earlier ones left it, the `i`-th seeing the server time
/// `stamps[i]`; `None` when one cannot apply.
pub open spec fn sequential_transforms(
    fields: Entries,
    ts: Seq<(Seq<Seq<char>>, TransformModel)>,
    stamps: Seq<Timestamp>,
    sum: spec_fn(u64, u64) -> u64,
) -> Option<Entries>
    decreases ts.len(),
{
    if ts.len() == 0 {
        Some(fields)
    } else {
        match sequential_transforms(fields, ts.drop_last(), stamps.drop_last(), sum) {
            None => None,
            Some(f) => match transform_value(ts.last().1, value_at(f, ts.last().0), stamps.last(), sum) {
                None => None,
                Some(v) => Some(set_at(f, ts.last().0, v)),
            },
        }
    }
}

/// The paths of an optional mask.
pub open spec fn mask_views(mask: Option<Vec<FieldPath>>) -> Option<Seq<Seq<Seq<char>>>> {
    match mask {
        Some(m) => Some(field_views(m@)),
        None => None,
    }
}

/// The fields a set write stores over `current`: its data, or with a mask the
/// current fields with the masked paths taken from the data; then the
/// transforms apply. `None` when a transform cannot apply.
pub open spec fn set_result(
    current: Option<Entries>,
    data: Entries,
    mask: Option<Seq<Seq<Seq<char>>>>,
    ts: Seq<(Seq<Seq<char>>, TransformModel)>,
    stamps: Seq<Timestamp>,
    sum: spec_fn(u64, u64) -> u64,
) -> Option<Entries> {
    let fields = match mask {
        Some(m) => masked_fields(known_fields(current), data, m),
        None => data,
    };
    sequential_transforms(fields, ts, stamps, sum)
}

/// The fields an update stores over `current`: it needs a stored document,
/// takes each listed path from the data (which must hold it), then applies
/// the transforms. `Err` gives the failure's code.
pub open spec fn update_result(
    current: Option<Entries>,
    data: Entries,
    paths: Seq<Seq<Seq<char>>>,
    ts: Seq<(Seq<Seq<char>>, TransformModel)>,
    stamps: Seq<Timestamp>,
    sum: spec_fn(u64, u64) -> u64,
) -> Result<Entries, FirestoreErrorCode> {
    match current {
        None => Err(FirestoreErrorCode::NotFound),
        Some(f) => match updates_applied(f, data, paths) {
            None => Err(FirestoreErrorCode::Internal),
            Some(g) => match sequential_transforms(g, ts, stamps, sum) {
                None => Err(FirestoreErrorCode::InvalidArgument),
                Some(h) => Ok(h),
            },
        },
    }
}

/// The store after one write, with `stamps` as the server times of its
/// transforms. `Err` gives the failure's code; the store is then unchanged.
pub open spec fn write_outcome(
    store: Entries,
    w: WriteOperation,
    stamps: Seq<Timestamp>,
    sum: spec_fn(u64, u64) -> u64,
) -> Result<Entries, FirestoreErrorCode> {
    let path = render_path(write_key(w)@);
    match w {
        WriteOperation::SetData { data, mask, transforms, .. } => match set_result(
            doc_at(store, path),
            data@,
            mask_views(mask),
            transform_models(transforms@),
            stamps,
            sum,
        ) {
            None => Err(FirestoreErrorCode::InvalidArgument),
            Some(f) => Ok(insert_sorted(store, path, ValueModel::Mapping(f))),
        },
        WriteOperation::Update { data, field_paths, transforms, .. } => match update_result(
            doc_at(store, path),
            data@,
            field_views(field_paths@),
            transform_models(transforms@),
            stamps,
            sum,
        ) {
            Err(code) => Err(code),
            Ok(f) => Ok(insert_sorted(store, path, ValueModel::Mapping(f))),
        },
        WriteOperation::Delete { .. } => Ok(remove_sorted(store, path)),
    }
}

/// The store after the writes apply in order, and the code of the failure
/// that stopped them, if one did (the writes before it stay applied).
pub open spec fn commit_outcome(
    store: Entries,
    ws: Seq<WriteOperation>,
    stamps: Seq<Seq<Timestamp>>,
    sum: spec_fn(u64, u64) -> u64,
) -> (Entries, Option<FirestoreErrorCode>)
    decreases ws.len(),
{
    if ws.len() == 0 {
        (store, None)
    } else {
        let (s, failed) = commit_outcome(store, ws.drop_last(), stamps.drop_last(), sum);
        if failed is Some {
            (s, failed)
        } else {
            match write_outcome(s, ws.last(), stamps.last(), sum) {
                Ok(next) => (next, None),
                Err(code) => (s, Some(code)),
            }
        }
    }
}

/// The stored documents that lie directly in the queried collection, in path
/// order; a stored path that names no document is an invalid argument.
pub open spec fn collection_docs(store: Entries, def: QueryDefinition) -> Result<Seq<DocModel>, FirestoreErrorCode>
    decreases store.len(),
{
    if store.len() == 0 {
        Ok(Seq::<DocModel>::empty())
    } else {
        match collection_docs(store.drop_last(), def) {
            Err(code) => Err(code),
            Ok(prev) => match store.last().1 {
                ValueModel::Mapping(fields) => match parse_resource_path(store.last().0) {
                    Some(p) => if is_document_path(p) {
                        if p.drop_last() == def.collection_path@ {
                            Ok(
                                prev.push(
                                    DocModel {
                                        key: p,
                                        data: Some(fields),
                                        metadata: SnapshotMetadata { from_cache: true, has_pending_writes: false },
                                    },
                                ),
                            )
                        } else {
                            Ok(prev)
                        }
                    } else {
                        Err(FirestoreErrorCode::InvalidArgument)
                    },
                    None => Err(FirestoreErrorCode::InvalidArgument),
                },
                _ => Ok(prev),
            },
        }
    }
}

/// Documents kept in memory, keyed by their path.
pub struct InMemoryDatastore {
    documents: MapValue,
}

impl View for InMemoryDatastore {
    type V = Entries;

    /// Each stored path with a map value holding the document's fields.
    closed spec fn view(&self) -> Entries {
        self.documents@
    }
}

/// Applies the transforms in order, each reading its field as the earlier
/// ones left it; also gives the server times the transforms saw.
fn apply_sequential_transforms<F: Fn(u64, u64) -> u64>(
    fields: &mut MapValue,
    transforms: &Vec<FieldTransform>,
    adder: &F,
) -> (r: (FirestoreResult<()>, Ghost<Seq<Timestamp>>))
    requires
        is_adder(*adder),
    ensures
        r.1@.len() == transforms@.len(),
        match r.0 {
            Ok(_) => sequential_transforms(old(fields)@, transform_models(transforms@), r.1@, adder_sum(*adder))
                == Some(final(fields)@),
            Err(e) => sequential_transforms(old(fields)@, transform_models(transforms@), r.1@, adder_sum(*adder))
                is None && e.code == FirestoreErrorCode::InvalidArgument,
        },
{
    let ghost start = fields@;
    let ghost tm = transform_models(transforms@);
    let ghost sum = adder_sum(*adder);
    let ghost mut stamps: Seq<Timestamp> = Seq::empty();
    assert(tm.take(0) =~= Seq::<(Seq<Seq<char>>, TransformModel)>::empty());
    let mut i: usize = 0;
    while i < transforms.len()
        invariant
            i <= transforms@.len(),
            tm == transform_models(transforms@),
            tm.len() == transforms@.len(),
            sum == adder_sum(*adder),
            is_adder(*adder),
            start == old(fields)@,
            stamps.len() == i,
            sequential_transforms(start, tm.take(i as int), stamps, sum) == Some(fields@),
        decreases transforms@.len() - i,
    {
        let transform = &transforms[i];
        let path = transform.field_path();
        let current_value = value_for_field_path(fields, path);
        let (outcome, Ghost(now)) = apply_transform(transform.operation(), current_value, adder);
        let ghost before = stamps;
        proof {
            stamps = stamps.push(now);
            let t = tm.take(i + 1);
            assert(t.drop_last() =~= tm.take(i as int));
            assert(t.last() == tm[i as int]);
            assert(stamps.drop_last() =~= before);
        }
        match outcome {
            Ok(value) => {
                set_value_at_field_path(fields, path, value);
            },
            Err(e) => {
                let ghost full = stamps + Seq::new((transforms@.len() - (i + 1)) as nat, |k: int| now);
                proof {
                    assert(full.take(i + 1) =~= stamps);
                    lemma_sequential_none_extends(start, tm, full, sum, i + 1);
                }
                return (Err(e), Ghost(full));
            },
        }
        i = i + 1;
    }
    assert(tm.take(tm.len() as int) =~= tm);
    (Ok(()), Ghost(stamps))
}

/// A transform that cannot apply makes every longer list of transforms fail.
proof fn lemma_sequential_none_extends(
    fields: Entries,
    ts: Seq<(Seq<Seq<char>>, TransformModel)>,
    stamps: Seq<Timestamp>,
    sum: spec_fn(u64, u64) -> u64,
    k: int,
)
    requires
        0 <= k <= ts.len(),
        stamps.len() == ts.len(),
        sequential_transforms(fields, ts.take(k), stamps.take(k), sum) is None,
    ensures
        sequential_transforms(fields, ts, stamps, sum) is None,
    decreases ts.len(),
{
    if k == ts.len() {
        assert(ts.take(k) =~= ts);
        assert(stamps.take(k) =~= stamps);
    } else {
        assert(ts.drop_last().take(k) =~= ts.take(k));
        assert(stamps.drop_last().take(k) =~= stamps.take(k));
        lemma_sequential_none_extends(fields, ts.drop_last(), stamps.drop_last(), sum, k);
    }
}

impl InMemoryDatastore {
    /// An empty store.
    pub fn new() -> (d: Self)
        ensures
            d@ == Seq::<(Seq<char>, ValueModel)>::empty(),
            keys_sorted(d@),
    {
        InMemoryDatastore { documents: MapValue::empty() }
    }

    /// The stored paths are in order (the map of documents keeps its keys
    /// sorted).
    fn stored_in_order(&self) -> (b: bool)
        ensures
            b,
            keys_sorted(self@),
    {
        let _ = self.documents.fields();
        true
    }

    /// A copy of the fields stored at `path`.
    fn stored_fields(&self, path: &str) -> (r: Option<MapValue>)
        ensures
            match r {
                Some(m) => doc_at(self@, path@) == Some(m@),
                None => doc_at(self@, path@) is None,
            },
    {
        match self.documents.get(path) {
            Some(v) => match v.as_map() {
                Some(m) => Some(m.clone()),
                None => None,
            },
            None => None,
        }
    }

    /// The snapshot of the document `key`, served from the cache.
    pub fn get_document(&self, key: &DocumentKey) -> (r: FirestoreResult<DocumentSnapshot>)
        ensures
            r matches Ok(s) && s@ == (DocModel {
                key: key@,
                data: doc_at(self@, render_path(key@)),
                metadata: SnapshotMetadata { from_cache: true, has_pending_writes: false },
            }),
    {
        let path = key.path().canonical_string();
        let data = self.stored_fields(path.as_str());
        Ok(DocumentSnapshot::new(key.clone(), data, SnapshotMetadata::new(true, false)))
    }

    /// Stores a set write: the data replaces the document, or with a mask the
    /// masked paths that the data holds are copied over the stored fields;
    /// then the transforms apply. On failure nothing is stored. Also gives
    /// the server times the transforms saw.
    fn apply_set<F: Fn(u64, u64) -> u64>(
        &mut self,
        key: &DocumentKey,
        data: MapValue,
        mask: Option<Vec<FieldPath>>,
        transforms: Vec<FieldTransform>,
        adder: &F,
    ) -> (r: (FirestoreResult<()>, Ghost<Seq<Timestamp>>))
        requires
            is_adder(*adder),
        ensures
            keys_sorted(final(self)@),
            r.1@.len() == transforms@.len(),
            match set_result(
                doc_at(old(self)@, render_path(key@)),
                data@,
                mask_views(mask),
                transform_models(transforms@),
                r.1@,
                adder_sum(*adder),
            ) {
                Some(f) => r.0 is Ok && final(self)@ == insert_sorted(old(self)@, render_path(key@), ValueModel::Mapping(f)),
                None => r.0 matches Err(e) && e.code == FirestoreErrorCode::InvalidArgument && final(self)@ == old(self)@,
            },
    {
        let _ = self.stored_in_order();
        let path = key.path().canonical_string();
        let ghost masks = mask_views(mask);
        let mut fields = match mask {
            Some(mask) => {
                let mut fields = match self.stored_fields(path.as_str()) {
                    Some(m) => m,
                    None => MapValue::empty(),
                };
                let ghost start = fields@;
                let ghost mv = field_views(mask@);
                assert(mv.take(0) =~= Seq::<Seq<Seq<char>>>::empty());
                let mut i: usize = 0;
                while i < mask.len()
                    invariant
                        i <= mask@.len(),
                        mv == field_views(mask@),
                        fields@ == masked_fields(start, data@, mv.take(i as int)),
                    decreases mask@.len() - i,
                {
                    let field = &mask[i];
                    proof {
                        let t = mv.take(i + 1);
                        assert(t.drop_last() =~= mv.take(i as int));
                        assert(t.last() == mask@[i as int]@);
                    }
                    match value_for_field_path(&data, field) {
                        Some(value) => set_value_at_field_path(&mut fields, field, value),
                        None => {},
                    }
                    i = i + 1;
                }
                assert(mv.take(mv.len() as int) =~= mv);
                fields
            },
            None => data,
        };
        let (outcome, stamps) = apply_sequential_transforms(&mut fields, &transforms, adder);
        match outcome {
            Ok(_) => {
                self.documents.insert(path, FirestoreValue::from_map(fields));
                (Ok(()), stamps)
            },
            Err(e) => (Err(e), stamps),
        }
    }

    /// Stores a set write (see `apply_set`).
    pub fn set_document<F: Fn(u64, u64) -> u64>(
        &mut self,
        key: &DocumentKey,
        data: MapValue,
        mask: Option<Vec<FieldPath>>,
        transforms: Vec<FieldTransform>,
        adder: &F,
    ) -> (r: FirestoreResult<()>)
        requires
            is_adder(*adder),
        ensures
            keys_sorted(final(self)@),
            exists|stamps: Seq<Timestamp>|
                #![trigger set_result(doc_at(old(self)@, render_path(key@)), data@, mask_views(mask), transform_models(transforms@), stamps, adder_sum(*adder))]
                stamps.len() == transforms@.len() && match set_result(
                    doc_at(old(self)@, render_path(key@)),
                    data@,
                    mask_views(mask),
                    transform_models(transforms@),
                    stamps,
                    adder_sum(*adder),
                ) {
                    Some(f) => r is Ok && final(self)@ == insert_sorted(old(self)@, render_path(key@), ValueModel::Mapping(f)),
                    None => r matches Err(e) && e.code == FirestoreErrorCode::InvalidArgument && final(self)@ == old(self)@,
                },
    {
        let ghost masks = mask_views(mask);
        let ghost d = data@;
        let ghost tm = transform_models(transforms@);
        let (r, Ghost(stamps)) = self.apply_set(key, data, mask, transforms, adder);
        assert(set_result(doc_at(old(self)@, render_path(key@)), d, masks, tm, stamps, adder_sum(*adder)) == set_result(doc_at(old(self)@, render_path(key@)), d, masks, tm, stamps, adder_sum(*adder)));
        r
    }

    /// Stores an update: the document must be stored, each listed path takes
    /// its value from the data (which must hold it), then the transforms
    /// apply. On failure nothing is stored. Also gives the server times the
    /// transforms saw.
    fn apply_update<F: Fn(u64, u64) -> u64>(
        &mut self,
        key: &DocumentKey,
        data: MapValue,
        field_paths: Vec<FieldPath>,
        transforms: Vec<FieldTransform>,
        adder: &F,
    ) -> (r: (FirestoreResult<()>, Ghost<Seq<Timestamp>>))
        requires
            is_adder(*adder),
        ensures
            keys_sorted(final(self)@),
            r.1@.len() == transforms@.len(),
            match update_result(
                doc_at(old(self)@, render_path(key@)),
                data@,
                field_views(field_paths@),
                transform_models(transforms@),
                r.1@,
                adder_sum(*adder),
            ) {
                Ok(f) => r.0 is Ok && final(self)@ == insert_sorted(old(self)@, render_path(key@), ValueModel::Mapping(f)),
                Err(code) => r.0 matches Err(e) && e.code == code && final(self)@ == old(self)@,
            },
    {
        let _ = self.stored_in_order();
        let path = key.path().canonical_string();
        let ghost filler = Seq::new(transforms@.len(), |k: int| Timestamp { seconds: 0, nanos: 0 });
        let mut fields = match self.stored_fields(path.as_str()) {
            Some(m) => m,
            None => {
                let mut message = owned("Document ");
                message.append(path.as_str());
                message.append(" does not exist");
                return (Err(not_found(message.as_str())), Ghost(filler));
            },
        };
        let ghost start = fields@;
        let ghost paths = field_views(field_paths@);
        assert(paths.take(0) =~= Seq::<Seq<Seq<char>>>::empty());
        let mut i: usize = 0;
        while i < field_paths.len()
            invariant
                i <= field_paths@.len(),
                paths == field_views(field_paths@),
                filler.len() == transforms@.len(),
                self@ == old(self)@,
                keys_sorted(self@),
                doc_at(old(self)@, render_path(key@)) == Some(start),
                updates_applied(start, data@, paths.take(i as int)) == Some(fields@),
            decreases field_paths@.len() - i,
        {
            let field = &field_paths[i];
            proof {
                let t = paths.take(i + 1);
                assert(t.drop_last() =~= paths.take(i as int));
                assert(t.last() == field_paths@[i as int]@);
            }
            match value_for_field_path(&data, field) {
                Some(value) => set_value_at_field_path(&mut fields, field, value),
                None => {
                    let mut message = owned("Failed to resolve value for update path ");
                    let rendered = field.canonical_string();
                    message.append(rendered.as_str());
                    proof {
                        lemma_updates_none(start, data@, paths, i + 1);
                    }
                    return (Err(internal_error(message.as_str())), Ghost(filler));
                },
            }
            i = i + 1;
        }
        assert(paths.take(paths.len() as int) =~= paths);
        let (outcome, stamps) = apply_sequential_transforms(&mut fields, &transforms, adder);
        match outcome {
            Ok(_) => {
                self.documents.insert(path, FirestoreValue::from_map(fields));
                (Ok(()), stamps)
            },
            Err(e) => (Err(e), stamps),
        }
    }

    /// Stores an update (see `apply_update`).
    pub fn update_document<F: Fn(u64, u64) -> u64>(
        &mut self,
        key: &DocumentKey,
        data: MapValue,
        field_paths: Vec<FieldPath>,
        transforms: Vec<FieldTransform>,
        adder: &F,
    ) -> (r: FirestoreResult<()>)
        requires
            is_adder(*adder),
        ensures
            keys_sorted(final(self)@),
            exists|stamps: Seq<Timestamp>|
                #![trigger update_result(doc_at(old(self)@, render_path(key@)), data@, field_views(field_paths@), transform_models(transforms@), stamps, adder_sum(*adder))]
                stamps.len() == transforms@.len() && match update_result(
                    doc_at(old(self)@, render_path(key@)),
                    data@,
                    field_views(field_paths@),
                    transform_models(transforms@),
                    stamps,
                    adder_sum(*adder),
                ) {
                    Ok(f) => r is Ok && final(self)@ == insert_sorted(old(self)@, render_path(key@), ValueModel::Mapping(f)),
                    Err(code) => r matches Err(e) && e.code == code && final(self)@ == old(self)@,
                },
    {
        let ghost d = data@;
        let ghost ps = field_views(field_paths@);
        let ghost tm = transform_models(transforms@);
        let (r, Ghost(stamps)) = self.apply_update(key, data, field_paths, transforms, adder);
        assert(update_result(doc_at(old(self)@, render_path(key@)), d, ps, tm, stamps, adder_sum(*adder)) == update_result(doc_at(old(self)@, render_path(key@)), d, ps, tm, stamps, adder_sum(*adder)));
        r
    }

    /// Removes the document `key`, if it is stored.
    pub fn delete_document(&mut self, key: &DocumentKey) -> (r: FirestoreResult<()>)
        ensures
            r is Ok,
            keys_sorted(final(self)@),
            final(self)@ == remove_sorted(old(self)@, render_path(key@)),
    {
        let path = key.path().canonical_string();
        let _ = self.documents.remove(path.as_str());
        Ok(())
    }
}

impl InMemoryDatastore {
    /// Stores one write; also gives the server times its transforms saw.
    fn apply_write<F: Fn(u64, u64) -> u64>(&mut self, write: WriteOperation, adder: &F) -> (r: (
        FirestoreResult<()>,
        Ghost<Seq<Timestamp>>,
    ))
        requires
            is_adder(*adder),
        ensures
            keys_sorted(final(self)@),
            match write_outcome(old(self)@, write, r.1@, adder_sum(*adder)) {
                Ok(s) => r.0 is Ok && final(self)@ == s,
                Err(code) => r.0 matches Err(e) && e.code == code && final(self)@ == old(self)@,
            },
    {
        match write {
            WriteOperation::SetData { key, data, mask, transforms } => self.apply_set(&key, data, mask, transforms, adder),
            WriteOperation::Update { key, data, field_paths, transforms } => self.apply_update(
                &key,
                data,
                field_paths,
                transforms,
                adder,
            ),
            WriteOperation::Delete { key } => {
                let r = self.delete_document(&key);
                (r, Ghost(Seq::empty()))
            },
        }
    }

    /// Stores the writes in order, stopping at the first that fails; the
    /// writes before it stay stored.
    pub fn commit<F: Fn(u64, u64) -> u64>(&mut self, writes: Vec<WriteOperation>, adder: &F) -> (r: FirestoreResult<()>)
        requires
            is_adder(*adder),
        ensures
            keys_sorted(final(self)@),
            exists|stamps: Seq<Seq<Timestamp>>|
                #![trigger commit_outcome(old(self)@, writes@, stamps, adder_sum(*adder))]
                stamps.len() == writes@.len() && commit_outcome(old(self)@, writes@, stamps, adder_sum(*adder)) == (
                final(self)@,
                match r {
                    Ok(_) => None,
                    Err(e) => Some(e.code),
                },
            ),
    {
        let _ = self.stored_in_order();
        let ghost all = writes@;
        let ghost start = self@;
        let ghost sum = adder_sum(*adder);
        let ghost mut stamps: Seq<Seq<Timestamp>> = Seq::empty();
        let mut rest = writes;
        let n = rest.len();
        assert(all.take(0) =~= Seq::<WriteOperation>::empty());
        let mut i: usize = 0;
        while i < n
            invariant
                i <= n,
                n == all.len(),
                all == writes@,
                rest@ == all.skip(i as int),
                stamps.len() == i,
                is_adder(*adder),
                sum == adder_sum(*adder),
                start == old(self)@,
                keys_sorted(self@),
                commit_outcome(start, all.take(i as int), stamps, sum) == (self@, None::<FirestoreErrorCode>),
            decreases n - i,
        {
            let write = rest.remove(0);
            proof {
                assert(write == all[i as int]);
                assert(rest@ =~= all.skip(i + 1));
            }
            let (outcome, Ghost(seen)) = self.apply_write(write, adder);
            let ghost before = stamps;
            proof {
                stamps = stamps.push(seen);
                let t = all.take(i + 1);
                assert(t.drop_last() =~= all.take(i as int));
                assert(t.last() == all[i as int]);
                assert(stamps.drop_last() =~= before);
            }
            match outcome {
                Ok(_) => {},
                Err(e) => {
                    let ghost full = stamps + Seq::new((n - (i + 1)) as nat, |k: int| seen);
                    proof {
                        assert(commit_outcome(start, all.take(i + 1), stamps, sum) == (self@, Some(e.code)));
                        assert(full.take(i + 1) =~= stamps);
                        lemma_commit_stops(start, all, full, sum, i + 1);
                        assert(full.len() == all.len());
                        assert(commit_outcome(old(self)@, writes@, full, adder_sum(*adder)) == (self@, Some(e.code)));
                    }
                    return Err(e);
                },
            }
            i = i + 1;
        }
        assert(all.take(n as int) =~= all);
        Ok(())
    }
}

impl InMemoryDatastore {
    /// Runs a query over the stored documents of its collection, taken in
    /// path order and served from the cache.
    pub fn run_query(&self, query: &QueryDefinition) -> (r: FirestoreResult<Vec<DocumentSnapshot>>)
        ensures
            match r {
                Ok(out) => collection_docs(self@, *query) matches Ok(input) && query_outcome(
                    input,
                    *query,
                    doc_views(out@),
                ),
                Err(e) => collection_docs(self@, *query) == Err::<Seq<DocModel>, FirestoreErrorCode>(e.code),
            },
    {
        let n = self.documents.len();
        let mut documents: Vec<DocumentSnapshot> = Vec::new();
        let ghost store = self@;
        assert(store.take(0) =~= Seq::<(Seq<char>, ValueModel)>::empty());
        assert(doc_views(documents@) =~= Seq::<DocModel>::empty());
        let mut i: usize = 0;
        while i < n
            invariant
                i <= n,
                n == store.len(),
                store == self@,
                collection_docs(store.take(i as int), *query) == Ok::<Seq<DocModel>, FirestoreErrorCode>(doc_views(documents@)),
            decreases n - i,
        {
            let (path, value) = self.documents.entry_at(i);
            proof {
                let t = store.take(i + 1);
                assert(t.drop_last() =~= store.take(i as int));
                assert(t.last() == store[i as int]);
            }
            match value.as_map() {
                None => {},
                Some(m) => {
                    let key = match DocumentKey::from_string(path) {
                        Ok(k) => k,
                        Err(e) => {
                            proof {
                                lemma_collection_err(store, *query, i + 1);
                            }
                            return Err(e);
                        },
                    };
                    if query.matches(&key) {
                        let ghost before = documents@;
                        documents.push(DocumentSnapshot::new(key, Some(m.clone()), SnapshotMetadata::new(true, false)));
                        assert(doc_views(documents@) =~= doc_views(before).push(documents@.last()@));
                    }
                },
            }
            i = i + 1;
        }
        assert(store.take(n as int) =~= store);
        Ok(apply_query_to_documents(documents, query))
    }
}

/// A path that names no document fails the whole query.
proof fn lemma_collection_err(store: Entries, def: QueryDefinition, k: int)
    requires
        0 <= k <= store.len(),
        collection_docs(store.take(k), def) is Err,
    ensures
        collection_docs(store, def) == collection_docs(store.take(k), def),
    decreases store.len(),
{
    if k == store.len() {
        assert(store.take(k) =~= store);
    } else {
        assert(store.drop_last().take(k) =~= store.take(k));
        lemma_collection_err(store.drop_last(), def, k);
    }
}

/// Once a write fails, the later writes change nothing.
proof fn lemma_commit_stops(
    store: Entries,
    ws: Seq<WriteOperation>,
    stamps: Seq<Seq<Timestamp>>,
    sum: spec_fn(u64, u64) -> u64,
    k: int,
)
    requires
        0 <= k <= ws.len(),
        stamps.len() == ws.len(),
        commit_outcome(store, ws.take(k), stamps.take(k), sum).1 is Some,
    ensures
        commit_outcome(store, ws, stamps, sum) == commit_outcome(store, ws.take(k), stamps.take(k), sum),
    decreases ws.len(),
{
    if k == ws.len() {
        assert(ws.take(k) =~= ws);
        assert(stamps.take(k) =~= stamps);
    } else {
        assert(ws.drop_last().take(k) =~= ws.take(k));
        assert(stamps.drop_last().take(k) =~= stamps.take(k));
        lemma_commit_stops(store, ws.drop_last(), stamps.drop_last(), sum, k);
    }
}

/// An update path that the data cannot resolve makes every longer list of
/// paths fail.
proof fn lemma_updates_none(fields: Entries, data: Entries, paths: Seq<Seq<Seq<char>>>, k: int)
    requires
        0 <= k <= paths.len(),
        updates_applied(fields, data, paths.take(k)) is None,
    ensures
        updates_applied(fields, data, paths) is None,
    decreases paths.len(),
{
    if k == paths.len() {
        assert(paths.take(k) =~= paths);
    } else {
        assert(paths.drop_last().take(k) =~= paths.take(k));
        lemma_updates_none(fields, data, paths.drop_last(), k);
    }
}

/// A set write without mask or transforms stores its data: the document
/// reads back the data, and every other document is as it was.
pub proof fn lemma_set_then_get(store: Entries, w: WriteOperation, stamps: Seq<Timestamp>, sum: spec_fn(u64, u64) -> u64)
    requires
        keys_sorted(store),
        w matches WriteOperation::SetData { mask, transforms, .. } && mask is None && transforms@.len() == 0,
    ensures
        write_outcome(store, w, stamps, sum) matches Ok(next) && keys_sorted(next) && doc_at(
            next,
            render_path(write_key(w)@),
        ) == Some(w->SetData_data@) && forall|p: Seq<char>|
            p != render_path(write_key(w)@) ==> #[trigger] doc_at(next, p) == doc_at(store, p),
{
    let path = render_path(write_key(w)@);
    assert(transform_models(w->SetData_transforms@).len() == 0);
    lemma_insert_sorted(store, path, ValueModel::Mapping(w->SetData_data@));
}

/// A delete removes the document and leaves every other one as it was.
pub proof fn lemma_delete_then_get(store: Entries, w: WriteOperation, stamps: Seq<Timestamp>, sum: spec_fn(u64, u64) -> u64)
    requires
        keys_sorted(store),
        w is Delete,
    ensures
        write_outcome(store, w, stamps, sum) matches Ok(next) && keys_sorted(next) && doc_at(
            next,
            render_path(write_key(w)@),
        ) is None && forall|p: Seq<char>|
            p != render_path(write_key(w)@) ==> #[trigger] doc_at(next, p) == doc_at(store, p),
{
    lemma_remove_sorted(store, render_path(write_key(w)@));
}

/// An update of a document that is not stored fails with not-found and
/// changes nothing.
pub proof fn lemma_update_needs_document(store: Entries, w: WriteOperation, stamps: Seq<Timestamp>, sum: spec_fn(u64, u64) -> u64)
    requires
        w is Update,
        doc_at(store, render_path(write_key(w)@)) is None,
    ensures
        write_outcome(store, w, stamps, sum) == Err::<Entries, FirestoreErrorCode>(FirestoreErrorCode::NotFound),
{
}

} // verus!
