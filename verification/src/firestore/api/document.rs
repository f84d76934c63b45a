//! A Firestore client over the in-memory datastore: document reads and
//! writes by path, and queries.
use vstd::prelude::*;

use crate::firestore::api::database::Firestore;
use crate::firestore::api::operations::{
    encode_set_data, encode_update_document_data, field_views, leaf_paths_entries, validate_document_path,
    value_at, SetOptions,
};
use crate::firestore::api::query::{snapshot_models, LimitType, Query, QueryDefinition, QuerySnapshot};
use crate::firestore::api::snapshot::{DocModel, DocumentSnapshot, SnapshotMetadata};
use crate::firestore::error::{internal_error, FirestoreErrorCode, FirestoreResult};
use crate::firestore::local::overlay::{adder_sum, is_adder, transform_models, Entries};
use crate::firestore::model::document_key::is_document_path;
use crate::firestore::model::resource_path::{parse_resource_path, render_path};
use crate::firestore::query_evaluator::{doc_views, query_outcome};
use crate::firestore::remote::in_memory::{collection_docs, doc_at, set_result, update_result, InMemoryDatastore};
use crate::firestore::value::value::{
    insert_sorted, keys_sorted, lookup, lemma_insert_sorted, lemma_remove_sorted, remove_sorted, ValueModel,
};
use crate::firestore::value::MapValue;
use crate::text::str_equal;

verus! {

/// The segments of a slash-separated path that names a document.
pub open spec fn document_path_of(path: Seq<char>) -> Option<Seq<Seq<char>>> {
    match parse_resource_path(path) {
        Some(p) => if is_document_path(p) {
            Some(p)
        } else {
            None
        },
        None => None,
    }
}

/// The mask a set write with `options` stores `data` under: the explicit mask
/// (every path of it present in the data), the leaf paths of the data for a
/// merge of everything (there must be some), no mask otherwise. `None` where
/// the options are refused.
pub open spec fn set_mask(data: Entries, options: SetOptions) -> Option<Option<Seq<Seq<Seq<char>>>>> {
    match options.merge_fields {
        Some(mask) => if mask@.len() > 0 && forall|i: int|
            0 <= i < mask@.len() ==> value_at(data, (#[trigger] mask@[i])@) is Some {
            Some(Some(field_views(mask@)))
        } else {
            None
        },
        None => if options.merge {
            let paths = leaf_paths_entries(data, Seq::<Seq<char>>::empty());
            if paths.len() > 0 {
                Some(Some(paths))
            } else {
                None
            }
        } else {
            Some(None)
        },
    }
}

/// The options of a set write, the default ones where none are given.
pub open spec fn options_or_default(options: Option<SetOptions>) -> SetOptions {
    match options {
        Some(o) => o,
        None => SetOptions { merge: false, merge_fields: None },
    }
}

/// The documents of a query result as the client hands them out: a query
/// limited to its last results gives them back in reverse.
pub open spec fn delivered_order(out: Seq<DocModel>, def: QueryDefinition) -> Seq<DocModel> {
    if def.limit_type == LimitType::Last {
        out.reverse()
    } else {
        out
    }
}

/// Reading back what was written: a set of `data` with the default options
/// stores exactly `data` at the document's path, and reading the path then
/// gives `data`; after a delete, reading the path gives no document. Other
/// paths read as before either way.
pub proof fn lemma_client_read_after_write(
    stored: Entries,
    p: Seq<Seq<char>>,
    data: Entries,
    sum: spec_fn(u64, u64) -> u64,
    other: Seq<char>,
)
    requires
        keys_sorted(stored),
        other != render_path(p),
    ensures
        set_mask(data, options_or_default(None)) == Some(None::<Seq<Seq<Seq<char>>>>),
        set_result(doc_at(stored, render_path(p)), data, None, Seq::empty(), Seq::empty(), sum) == Some(data),
        doc_at(insert_sorted(stored, render_path(p), ValueModel::Mapping(data)), render_path(p)) == Some(data),
        doc_at(insert_sorted(stored, render_path(p), ValueModel::Mapping(data)), other) == doc_at(stored, other),
        doc_at(remove_sorted(stored, render_path(p)), render_path(p)) is None,
        doc_at(remove_sorted(stored, render_path(p)), other) == doc_at(stored, other),
{
    lemma_insert_sorted(stored, render_path(p), ValueModel::Mapping(data));
    lemma_remove_sorted(stored, render_path(p));
    assert(lookup(insert_sorted(stored, render_path(p), ValueModel::Mapping(data)), render_path(p)) == Some(
        ValueModel::Mapping(data),
    ));
    assert(lookup(insert_sorted(stored, render_path(p), ValueModel::Mapping(data)), other) == lookup(stored, other));
    assert(lookup(remove_sorted(stored, render_path(p)), render_path(p)) is None);
    assert(lookup(remove_sorted(stored, render_path(p)), other) == lookup(stored, other));
}

/// A snapshot vector in reverse order.
fn reversed(v: Vec<DocumentSnapshot>) -> (r: Vec<DocumentSnapshot>)
    ensures
        doc_views(r@) == doc_views(v@).reverse(),
{
    let mut v = v;
    let ghost all = doc_views(v@);
    let mut r: Vec<DocumentSnapshot> = Vec::new();
    while v.len() > 0
        invariant
            doc_views(v@) == all.take(v@.len() as int),
            v@.len() <= all.len(),
            doc_views(r@) == all.skip(v@.len() as int).reverse(),
        decreases v@.len(),
    {
        let ghost before = v@;
        let ghost out_before = r@;
        let d = v.pop().unwrap();
        assert(doc_views(v@) =~= all.take(v@.len() as int)) by {
            assert(v@ =~= before.drop_last());
        }
        assert(d@ == all[v@.len() as int]) by {
            assert(doc_views(before)[before.len() - 1] == before[before.len() - 1]@);
        }
        r.push(d);
        assert(doc_views(r@) =~= all.skip(v@.len() as int).reverse()) by {
            assert(doc_views(r@) =~= doc_views(out_before).push(d@));
        }
    }
    assert(all.skip(0) =~= all);
    r
}

/// A client of one Firestore database whose documents live in memory.
pub struct FirestoreClient {
    firestore: Firestore,
    datastore: InMemoryDatastore,
}

impl FirestoreClient {
    /// The database the client serves.
    pub closed spec fn spec_firestore(&self) -> Firestore {
        self.firestore
    }

    /// The stored documents: each path with its fields, in path order.
    pub closed spec fn stored(&self) -> Entries {
        self.datastore@
    }

    /// A client of `firestore` backed by the given datastore.
    pub fn new(firestore: Firestore, datastore: InMemoryDatastore) -> (c: Self)
        ensures
            c.spec_firestore() == firestore,
            c.stored() == datastore@,
    {
        FirestoreClient { firestore, datastore }
    }

    /// A client of `firestore` with no document stored.
    pub fn with_in_memory(firestore: Firestore) -> (c: Self)
        ensures
            c.spec_firestore() == firestore,
            c.stored() == Seq::<(Seq<char>, ValueModel)>::empty(),
            keys_sorted(c.stored()),
    {
        FirestoreClient { firestore, datastore: InMemoryDatastore::new() }
    }

    /// The database the client serves.
    pub fn firestore(&self) -> (r: &Firestore)
        ensures
            *r == self.spec_firestore(),
    {
        &self.firestore
    }

    /// The document at `path`, which must name a document: its stored fields,
    /// if any, read from the cache with no pending write.
    pub fn get_doc(&self, path: &str) -> (r: FirestoreResult<DocumentSnapshot>)
        ensures
            match document_path_of(path@) {
                Some(p) => r matches Ok(s) && s@ == (DocModel {
                    key: p,
                    data: doc_at(self.stored(), render_path(p)),
                    metadata: SnapshotMetadata { from_cache: true, has_pending_writes: false },
                }),
                None => r matches Err(e) && e.code == FirestoreErrorCode::InvalidArgument,
            },
    {
        let key = validate_document_path(path)?;
        self.datastore.get_document(&key)
    }

    /// Stores `data` at the document `path` as a set write with `options`
    /// (the default ones where none are given); refused, storing nothing,
    /// when the path names no document, the options do not fit the data, or
    /// the write cannot apply.
    pub fn set_doc<F: Fn(u64, u64) -> u64>(
        &mut self,
        path: &str,
        data: MapValue,
        options: Option<SetOptions>,
        adder: &F,
    ) -> (r: FirestoreResult<()>)
        requires
            is_adder(*adder),
        ensures
            final(self).spec_firestore() == old(self).spec_firestore(),
            keys_sorted(old(self).stored()) ==> keys_sorted(final(self).stored()),
            match (document_path_of(path@), set_mask(data@, options_or_default(options))) {
                (Some(p), Some(mask)) => match set_result(
                    doc_at(old(self).stored(), render_path(p)),
                    data@,
                    mask,
                    Seq::empty(),
                    Seq::empty(),
                    adder_sum(*adder),
                ) {
                    Some(f) => r is Ok && final(self).stored() == insert_sorted(
                        old(self).stored(),
                        render_path(p),
                        ValueModel::Mapping(f),
                    ),
                    None => r matches Err(e) && e.code == FirestoreErrorCode::InvalidArgument && final(self).stored()
                        == old(self).stored(),
                },
                _ => r matches Err(e) && e.code == FirestoreErrorCode::InvalidArgument && final(self).stored()
                    == old(self).stored(),
            },
    {
        let key = validate_document_path(path)?;
        let options = match options {
            Some(o) => o,
            None => SetOptions { merge: false, merge_fields: None },
        };
        let (encoded, mask) = encode_set_data(data, &options)?;
        let transforms = Vec::new();
        let ghost ts = transforms@;
        let r = self.datastore.set_document(&key, encoded, mask, transforms, adder);
        proof {
            assert(transform_models(ts) =~= Seq::empty());
            let stamps = choose|stamps: Seq<crate::firestore::model::Timestamp>|
                #![trigger set_result(doc_at(old(self).stored(), render_path(key@)), data@, crate::firestore::remote::in_memory::mask_views(mask), transform_models(ts), stamps, adder_sum(*adder))]
                stamps.len() == ts.len() && match set_result(
                    doc_at(old(self).stored(), render_path(key@)),
                    data@,
                    crate::firestore::remote::in_memory::mask_views(mask),
                    transform_models(ts),
                    stamps,
                    adder_sum(*adder),
                ) {
                    Some(f) => r is Ok && self.stored() == insert_sorted(
                        old(self).stored(),
                        render_path(key@),
                        ValueModel::Mapping(f),
                    ),
                    None => r matches Err(e) && e.code == FirestoreErrorCode::InvalidArgument && self.stored()
                        == old(self).stored(),
                };
            assert(stamps =~= Seq::empty());
        }
        r
    }

    /// Updates the document at `path` with the leaf fields of `data`; refused,
    /// storing nothing, when the path names no document, the data is empty,
    /// or the update cannot apply (the document must be stored).
    pub fn update_doc<F: Fn(u64, u64) -> u64>(&mut self, path: &str, data: MapValue, adder: &F) -> (r:
        FirestoreResult<()>)
        requires
            is_adder(*adder),
        ensures
            final(self).spec_firestore() == old(self).spec_firestore(),
            keys_sorted(old(self).stored()) ==> keys_sorted(final(self).stored()),
            match document_path_of(path@) {
                Some(p) => if data@.len() == 0 {
                    r matches Err(e) && e.code == FirestoreErrorCode::InvalidArgument && final(self).stored()
                        == old(self).stored()
                } else {
                    match update_result(
                        doc_at(old(self).stored(), render_path(p)),
                        data@,
                        leaf_paths_entries(data@, Seq::<Seq<char>>::empty()),
                        Seq::empty(),
                        Seq::empty(),
                        adder_sum(*adder),
                    ) {
                        Ok(f) => r is Ok && final(self).stored() == insert_sorted(
                            old(self).stored(),
                            render_path(p),
                            ValueModel::Mapping(f),
                        ),
                        Err(code) => r matches Err(e) && e.code == code && final(self).stored() == old(self).stored(),
                    }
                },
                None => r matches Err(e) && e.code == FirestoreErrorCode::InvalidArgument && final(self).stored()
                    == old(self).stored(),
            },
    {
        let key = validate_document_path(path)?;
        let (encoded, field_paths) = encode_update_document_data(data)?;
        let transforms = Vec::new();
        let ghost ts = transforms@;
        let ghost ps = field_views(field_paths@);
        let r = self.datastore.update_document(&key, encoded, field_paths, transforms, adder);
        proof {
            assert(transform_models(ts) =~= Seq::empty());
            let stamps = choose|stamps: Seq<crate::firestore::model::Timestamp>|
                #![trigger update_result(doc_at(old(self).stored(), render_path(key@)), data@, ps, transform_models(ts), stamps, adder_sum(*adder))]
                stamps.len() == ts.len() && match update_result(
                    doc_at(old(self).stored(), render_path(key@)),
                    data@,
                    ps,
                    transform_models(ts),
                    stamps,
                    adder_sum(*adder),
                ) {
                    Ok(f) => r is Ok && self.stored() == insert_sorted(
                        old(self).stored(),
                        render_path(key@),
                        ValueModel::Mapping(f),
                    ),
                    Err(code) => r matches Err(e) && e.code == code && self.stored() == old(self).stored(),
                };
            assert(stamps =~= Seq::empty());
        }
        r
    }

    /// Removes the document at `path`, stored or not; refused when the path
    /// names no document.
    pub fn delete_doc(&mut self, path: &str) -> (r: FirestoreResult<()>)
        ensures
            final(self).spec_firestore() == old(self).spec_firestore(),
            keys_sorted(old(self).stored()) ==> keys_sorted(final(self).stored()),
            match document_path_of(path@) {
                Some(p) => r is Ok && final(self).stored() == remove_sorted(old(self).stored(), render_path(p)),
                None => r matches Err(e) && e.code == FirestoreErrorCode::InvalidArgument && final(self).stored()
                    == old(self).stored(),
            },
    {
        let key = validate_document_path(path)?;
        self.datastore.delete_document(&key)
    }

    /// Runs `query`, which must be on the client's database, over the stored
    /// documents; a query limited to its last results hands them out in
    /// reverse.
    pub fn get_docs(&self, query: Query) -> (r: FirestoreResult<QuerySnapshot>)
        ensures
            match r {
                Ok(s) => {
                    &&& query.spec_firestore()@ == self.spec_firestore()@
                    &&& s.query_definition() == query.spec_definition()
                    &&& collection_docs(self.stored(), query.spec_definition()) matches Ok(input)
                    &&& exists|out: Seq<DocModel>|
                        #[trigger] query_outcome(input, query.spec_definition(), out) && s.document_models()
                            == delivered_order(out, query.spec_definition())
                },
                Err(e) => if query.spec_firestore()@ != self.spec_firestore()@ {
                    e.code == FirestoreErrorCode::Internal
                } else {
                    collection_docs(self.stored(), query.spec_definition()) == Err::<Seq<DocModel>, FirestoreErrorCode>(
                        e.code,
                    )
                },
            },
    {
        let mine = self.firestore.database_id();
        let theirs = query.firestore().database_id();
        if !(str_equal(mine.project_id(), theirs.project_id()) && str_equal(mine.database(), theirs.database())) {
            return Err(internal_error("Query targets a different Firestore instance than this client"));
        }
        let definition = query.definition();
        let documents = self.datastore.run_query(definition)?;
        let ghost found = doc_views(documents@);
        let documents = if definition.limit_type() == LimitType::Last {
            reversed(documents)
        } else {
            documents
        };
        let ghost def = query.spec_definition();
        let ghost shown = documents@;
        let s = QuerySnapshot::new(query, documents);
        proof {
            assert(snapshot_models(shown) =~= doc_views(shown));
            assert(s.document_models() == delivered_order(found, def));
        }
        Ok(s)
    }
}

} // verus!
