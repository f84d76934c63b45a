//! What the watch stream reports to the local store: documents as the
//! backend holds them, and the changes of one snapshot.
use vstd::prelude::*;

use crate::firestore::model::{DocumentKey, Timestamp};
use crate::firestore::remote::syncer_bridge::TargetChange;
use crate::firestore::value::MapValue;
use crate::firestore::value::value::ValueModel;

verus! {

/// A document as the watch stream delivers it.
#[derive(Debug)]
pub struct WatchDocument {
    pub key: DocumentKey,
    pub fields: MapValue,
    pub update_time: Option<Timestamp>,
    pub create_time: Option<Timestamp>,
}

/// The content of a watched document: its path, fields and times.
pub struct WatchModel {
    pub key: Seq<Seq<char>>,
    pub fields: Seq<(Seq<char>, ValueModel)>,
    pub update_time: Option<Timestamp>,
    pub create_time: Option<Timestamp>,
}

impl View for WatchDocument {
    type V = WatchModel;

    open spec fn view(&self) -> WatchModel {
        WatchModel {
            key: self.key@,
            fields: self.fields@,
            update_time: self.update_time,
            create_time: self.create_time,
        }
    }
}

impl Clone for WatchDocument {
    fn clone(&self) -> (r: Self)
        ensures
            r@ == self@,
    {
        WatchDocument {
            key: self.key.clone(),
            fields: self.fields.clone(),
            update_time: self.update_time,
            create_time: self.create_time,
        }
    }
}

/// The content of an optional watched document.
pub open spec fn watch_view(d: Option<WatchDocument>) -> Option<WatchModel> {
    match d {
        Some(w) => Some(w@),
        None => None,
    }
}

/// A copy of an optional watched document.
pub fn clone_watch(d: &Option<WatchDocument>) -> (r: Option<WatchDocument>)
    ensures
        watch_view(r) == watch_view(*d),
{
    match d {
        Some(w) => Some(w.clone()),
        None => None,
    }
}

/// Everything one consistent snapshot of the watch stream changed: the
/// snapshot's version, the changes of each target, the targets to reset,
/// the new state of documents (`None`: deleted), and the documents whose
/// limbo state is resolved.
pub struct RemoteEvent {
    pub snapshot_version: Option<Timestamp>,
    pub target_changes: Vec<(i32, TargetChange)>,
    pub target_resets: Vec<i32>,
    pub document_updates: Vec<(DocumentKey, Option<WatchDocument>)>,
    pub resolved_limbo_documents: Vec<DocumentKey>,
}

impl Default for RemoteEvent {
    /// An event that changes nothing.
    fn default() -> (e: Self)
        ensures
            e.snapshot_version is None,
            e.target_changes@.len() == 0,
            e.target_resets@.len() == 0,
            e.document_updates@.len() == 0,
            e.resolved_limbo_documents@.len() == 0,
    {
        RemoteEvent {
            snapshot_version: None,
            target_changes: Vec::new(),
            target_resets: Vec::new(),
            document_updates: Vec::new(),
            resolved_limbo_documents: Vec::new(),
        }
    }
}

} // verus!
