//! Snapshots of single documents.
use vstd::prelude::*;

use std::sync::Arc;

use crate::firestore::api::converter::FirestoreDataConverter;
use crate::firestore::error::FirestoreResult;
use crate::firestore::model::document_key::is_document_path;
use crate::firestore::model::DocumentKey;
use crate::firestore::value::value::ValueModel;
use crate::firestore::value::MapValue;

verus! {

/// Cache and pending-write state of a snapshot.
#[derive(Clone, Copy, Debug, PartialEq, Eq, Structural)]
pub struct SnapshotMetadata {
    pub from_cache: bool,
    pub has_pending_writes: bool,
}

impl Default for SnapshotMetadata {
    /// Not from the cache, with no pending writes.
    fn default() -> (m: Self)
        ensures
            !m.from_cache,
            !m.has_pending_writes,
    {
        SnapshotMetadata { from_cache: false, has_pending_writes: false }
    }
}

impl SnapshotMetadata {
    pub fn new(from_cache: bool, has_pending_writes: bool) -> (m: Self)
        ensures
            m.from_cache == from_cache,
            m.has_pending_writes == has_pending_writes,
    {
        SnapshotMetadata { from_cache, has_pending_writes }
    }

    /// Whether the snapshot was served from the local cache.
    pub fn from_cache(&self) -> (b: bool)
        ensures
            b == self.from_cache,
    {
        self.from_cache
    }

    /// Whether the snapshot holds writes not yet committed.
    pub fn has_pending_writes(&self) -> (b: bool)
        ensures
            b == self.has_pending_writes,
    {
        self.has_pending_writes
    }
}

/// The content of a document snapshot: its key, its fields (absent when the
/// document does not exist) and its metadata.
pub struct DocModel {
    pub key: Seq<Seq<char>>,
    pub data: Option<Seq<(Seq<char>, ValueModel)>>,
    pub metadata: SnapshotMetadata,
}

/// A snapshot of one document.
#[derive(Debug)]
pub struct DocumentSnapshot {
    key: DocumentKey,
    data: Option<MapValue>,
    metadata: SnapshotMetadata,
}

/// The models of the fields of an optional map.
pub open spec fn opt_map_view(m: Option<MapValue>) -> Option<Seq<(Seq<char>, ValueModel)>> {
    match m {
        Some(v) => Some(v@),
        None => None,
    }
}

impl View for DocumentSnapshot {
    type V = DocModel;

    closed spec fn view(&self) -> DocModel {
        DocModel { key: self.key@, data: opt_map_view(self.data), metadata: self.metadata }
    }
}

impl DocumentSnapshot {
    pub fn new(key: DocumentKey, data: Option<MapValue>, metadata: SnapshotMetadata) -> (s: Self)
        ensures
            s@ == (DocModel { key: key@, data: opt_map_view(data), metadata }),
    {
        DocumentSnapshot { key, data, metadata }
    }

    /// Whether the document exists.
    pub fn document_exists(&self) -> (b: bool)
        ensures
            b == (self@.data is Some),
    {
        self.data.is_some()
    }

    /// The document's fields, when it exists.
    pub fn data(&self) -> (r: Option<&MapValue>)
        ensures
            opt_map_view(match r {
                Some(m) => Some(*m),
                None => None,
            }) == self@.data,
    {
        match &self.data {
            Some(m) => Some(m),
            None => None,
        }
    }

    /// The document's fields as a map value, when it exists.
    pub fn map_value(&self) -> (r: Option<&MapValue>)
        ensures
            match r {
                Some(m) => self@.data == Some(m@),
                None => self@.data is None,
            },
    {
        match &self.data {
            Some(m) => Some(m),
            None => None,
        }
    }

    pub fn metadata(&self) -> (m: &SnapshotMetadata)
        ensures
            *m == self@.metadata,
    {
        &self.metadata
    }

    pub fn from_cache(&self) -> (b: bool)
        ensures
            b == self@.metadata.from_cache,
    {
        self.metadata.from_cache()
    }

    pub fn has_pending_writes(&self) -> (b: bool)
        ensures
            b == self@.metadata.has_pending_writes,
    {
        self.metadata.has_pending_writes()
    }

    /// The document's identifier.
    pub fn id(&self) -> (r: &str)
        ensures
            r@ == self@.key.last(),
    {
        self.key.id()
    }

    /// The document's key.
    pub fn document_key(&self) -> (k: &DocumentKey)
        ensures
            k@ == self@.key,
            is_document_path(self@.key),
    {
        let _ = self.key.segment_count();
        &self.key
    }
}

impl Clone for DocumentSnapshot {
    fn clone(&self) -> (r: Self)
        ensures
            r@ == self@,
    {
        let data = match &self.data {
            Some(m) => Some(m.clone()),
            None => None,
        };
        DocumentSnapshot { key: self.key.clone(), data, metadata: self.metadata }
    }
}

impl DocumentSnapshot {
    /// This snapshot read through a converter.
    pub fn into_typed<C: FirestoreDataConverter>(self, converter: Arc<C>) -> (t: TypedDocumentSnapshot<C>)
        ensures
            t.raw_view() == self@,
    {
        TypedDocumentSnapshot { base: self, converter }
    }

    /// A copy of this snapshot read through a converter.
    pub fn to_typed<C: FirestoreDataConverter>(&self, converter: Arc<C>) -> (t: TypedDocumentSnapshot<C>)
        ensures
            t.raw_view() == self@,
    {
        TypedDocumentSnapshot { base: self.clone(), converter }
    }
}

/// A snapshot whose fields are read through a converter.
pub struct TypedDocumentSnapshot<C: FirestoreDataConverter> {
    base: DocumentSnapshot,
    converter: Arc<C>,
}

impl<C: FirestoreDataConverter> TypedDocumentSnapshot<C> {
    /// The content of the underlying snapshot.
    pub closed spec fn raw_view(&self) -> DocModel {
        self.base@
    }

    pub fn new(base: DocumentSnapshot, converter: Arc<C>) -> (t: Self)
        ensures
            t.raw_view() == base@,
    {
        TypedDocumentSnapshot { base, converter }
    }

    pub fn document_exists(&self) -> (b: bool)
        ensures
            b == (self.raw_view().data is Some),
    {
        self.base.document_exists()
    }

    pub fn id(&self) -> (r: &str)
        ensures
            r@ == self.raw_view().key.last(),
    {
        self.base.id()
    }

    pub fn metadata(&self) -> (m: &SnapshotMetadata)
        ensures
            *m == self.raw_view().metadata,
    {
        self.base.metadata()
    }

    pub fn from_cache(&self) -> (b: bool)
        ensures
            b == self.raw_view().metadata.from_cache,
    {
        self.base.from_cache()
    }

    pub fn has_pending_writes(&self) -> (b: bool)
        ensures
            b == self.raw_view().metadata.has_pending_writes,
    {
        self.base.has_pending_writes()
    }

    /// The underlying snapshot.
    pub fn raw(&self) -> (r: &DocumentSnapshot)
        ensures
            r@ == self.raw_view(),
    {
        &self.base
    }

    /// The underlying snapshot, given up.
    pub fn into_raw(self) -> (r: DocumentSnapshot)
        ensures
            r@ == self.raw_view(),
    {
        self.base
    }

    /// The document read as a model: nothing when the document does not exist,
    /// else what the converter makes of its fields.
    pub fn data(&self) -> (r: FirestoreResult<Option<C::Model>>)
        ensures
            self.raw_view().data is None ==> r matches Ok(None),
            self.raw_view().data is Some ==> !(r matches Ok(None)),
    {
        match self.base.map_value() {
            Some(map) => match self.converter.from_map(map) {
                Ok(model) => Ok(Some(model)),
                Err(e) => Err(e),
            },
            None => Ok(None),
        }
    }
}

} // verus!
