//! Batches of writes queued for the backend, and their acknowledgements.
use vstd::prelude::*;

use crate::firestore::error::{FirestoreError, FirestoreErrorCode, FirestoreResult};
use crate::firestore::model::{DocumentKey, Timestamp};
use crate::firestore::remote::datastore::{write_key, WriteOperation};
use crate::firestore::value::FirestoreValue;
use crate::json::int_to_text;
use crate::text::owned;

verus! {

/// The outcome of one write: its update time and the results of its field
/// transforms.
#[derive(Debug)]
pub struct WriteResult {
    pub update_time: Option<Timestamp>,
    pub transform_results: Vec<FirestoreValue>,
}

/// One response of the write stream.
#[derive(Debug)]
pub struct WriteResponse {
    pub stream_token: Vec<u8>,
    pub commit_time: Option<Timestamp>,
    pub write_results: Vec<WriteResult>,
}

/// Writes queued together under a locally assigned id.
#[derive(Debug)]
pub struct MutationBatch {
    /// Increasing id assigned when the batch is queued.
    pub batch_id: i32,
    /// Client time at which the batch was created.
    pub local_write_time: Timestamp,
    /// Writes that only affect the local view.
    pub base_writes: Vec<WriteOperation>,
    /// Writes sent to the backend, in order.
    pub writes: Vec<WriteOperation>,
}

/// The keys targeted by a sequence of writes.
pub open spec fn write_keys(ws: Seq<WriteOperation>) -> Seq<Seq<Seq<char>>> {
    ws.map_values(|w: WriteOperation| write_key(w)@)
}

impl MutationBatch {
    pub fn new(batch_id: i32, local_write_time: Timestamp, base_writes: Vec<WriteOperation>, writes: Vec<WriteOperation>) -> (b: Self)
        ensures
            b.batch_id == batch_id,
            b.local_write_time == local_write_time,
            b.base_writes == base_writes,
            b.writes == writes,
    {
        MutationBatch { batch_id, local_write_time, base_writes, writes }
    }

    /// A batch without base writes.
    pub fn from_writes(batch_id: i32, local_write_time: Timestamp, writes: Vec<WriteOperation>) -> (b: Self)
        ensures
            b.batch_id == batch_id,
            b.local_write_time == local_write_time,
            b.base_writes@.len() == 0,
            b.writes == writes,
    {
        MutationBatch::new(batch_id, local_write_time, Vec::new(), writes)
    }

    /// Whether the batch has no writes for the backend.
    pub fn is_empty(&self) -> (r: bool)
        ensures
            r == (self.writes@.len() == 0),
    {
        self.writes.len() == 0
    }

    /// The keys of the writes, in order.
    pub fn document_keys(&self) -> (r: Vec<DocumentKey>)
        ensures
            r@.map_values(|k: DocumentKey| k@) == write_keys(self.writes@),
    {
        let mut keys: Vec<DocumentKey> = Vec::new();
        let mut i: usize = 0;
        while i < self.writes.len()
            invariant
                i <= self.writes@.len(),
                keys@.map_values(|k: DocumentKey| k@) == write_keys(self.writes@).take(i as int),
            decreases self.writes@.len() - i,
        {
            let k = self.writes[i].key().clone();
            let ghost before = keys@;
            keys.push(k);
            proof {
                assert(k@ == write_key(self.writes@[i as int])@);
                assert(write_keys(self.writes@).take(i + 1) =~= write_keys(self.writes@).take(i as int).push(k@));
                assert(keys@.map_values(|k: DocumentKey| k@) =~= before.map_values(|k: DocumentKey| k@).push(k@));
            }
            i = i + 1;
        }
        assert(write_keys(self.writes@).take(i as int) =~= write_keys(self.writes@));
        keys
    }
}

/// The version of each written document: the update time of its last write,
/// or the commit time where that write has none. Later writes to a document
/// override earlier ones.
pub open spec fn doc_versions_of(keys: Seq<Seq<Seq<char>>>, results: Seq<WriteResult>, commit: Option<Timestamp>) -> Map<Seq<Seq<char>>, Option<Timestamp>>
    decreases keys.len(),
{
    if keys.len() == 0 || results.len() < keys.len() {
        Map::empty()
    } else {
        let n = keys.len() - 1;
        doc_versions_of(keys.drop_last(), results.take(n), commit).insert(
            keys.last(),
            match results[n].update_time {
                Some(t) => Some(t),
                None => commit,
            },
        )
    }
}

/// The map held by a list of document versions whose keys are distinct.
pub open spec fn versions_map(vs: Seq<(DocumentKey, Option<Timestamp>)>) -> Map<Seq<Seq<char>>, Option<Timestamp>>
    decreases vs.len(),
{
    if vs.len() == 0 {
        Map::empty()
    } else {
        versions_map(vs.drop_last()).insert(vs.last().0@, vs.last().1)
    }
}

/// Keys are distinct.
pub open spec fn distinct_version_keys(vs: Seq<(DocumentKey, Option<Timestamp>)>) -> bool {
    forall|i: int, j: int| 0 <= i < j < vs.len() ==> (#[trigger] vs[i]).0@ != (#[trigger] vs[j]).0@
}

proof fn lemma_versions_map_domain(vs: Seq<(DocumentKey, Option<Timestamp>)>, k: Seq<Seq<char>>)
    requires
        forall|i: int| 0 <= i < vs.len() ==> (#[trigger] vs[i]).0@ != k,
    ensures
        !versions_map(vs).dom().contains(k),
    decreases vs.len(),
{
    if vs.len() > 0 {
        lemma_versions_map_domain(vs.drop_last(), k);
    }
}

proof fn lemma_versions_map_update(vs: Seq<(DocumentKey, Option<Timestamp>)>, j: int, e: (DocumentKey, Option<Timestamp>))
    requires
        distinct_version_keys(vs),
        0 <= j < vs.len(),
        vs[j].0@ == e.0@,
    ensures
        versions_map(vs.update(j, e)) == versions_map(vs).insert(e.0@, e.1),
        distinct_version_keys(vs.update(j, e)),
    decreases vs.len(),
{
    let ws = vs.update(j, e);
    if j == vs.len() - 1 {
        assert(ws.drop_last() =~= vs.drop_last());
        assert(versions_map(ws) =~= versions_map(vs).insert(e.0@, e.1));
    } else {
        assert(ws.drop_last() =~= vs.drop_last().update(j, e));
        lemma_versions_map_update(vs.drop_last(), j, e);
        assert(vs.last().0@ != e.0@);
        assert(versions_map(ws) =~= versions_map(vs).insert(e.0@, e.1));
    }
}

/// The position of the entry for `key`.
fn version_position(versions: &Vec<(DocumentKey, Option<Timestamp>)>, key: &DocumentKey) -> (r: Option<usize>)
    ensures
        match r {
            Some(j) => j < versions@.len() && versions@[j as int].0@ == key@,
            None => forall|m: int| 0 <= m < versions@.len() ==> (#[trigger] versions@[m]).0@ != key@,
        },
{
    let mut j: usize = 0;
    while j < versions.len()
        invariant
            j <= versions@.len(),
            forall|m: int| 0 <= m < j ==> (#[trigger] versions@[m]).0@ != key@,
        decreases versions@.len() - j,
    {
        if versions[j].0.equals(key) {
            return Some(j);
        }
        j = j + 1;
    }
    None
}

/// The backend's acknowledgement of a batch.
#[derive(Debug)]
pub struct MutationBatchResult {
    pub batch: MutationBatch,
    pub commit_version: Option<Timestamp>,
    pub write_results: Vec<WriteResult>,
    /// One entry per written document, with its resulting version.
    pub doc_versions: Vec<(DocumentKey, Option<Timestamp>)>,
}

/// The message for a batch whose result count does not match its writes.
pub open spec fn result_count_message(batch_id: i32, writes: nat, results: nat) -> Seq<char> {
    "Mutation batch "@ + crate::json::int_text(batch_id as int) + " expected "@ + crate::json::int_text(
        writes as int,
    ) + " write results but received "@ + crate::json::int_text(results as int)
}

impl MutationBatchResult {
    /// The acknowledgement of `batch`: one result per write is required, and
    /// each written document gets the version of its last write.
    pub fn from(batch: MutationBatch, commit_version: Option<Timestamp>, write_results: Vec<WriteResult>) -> (r: FirestoreResult<Self>)
        requires
            batch.writes@.len() < i64::MAX,
            write_results@.len() < i64::MAX,
        ensures
            match r {
                Ok(res) => batch.writes@.len() == write_results@.len() && res.batch == batch
                    && res.commit_version == commit_version && res.write_results == write_results
                    && distinct_version_keys(res.doc_versions@) && versions_map(res.doc_versions@)
                    == doc_versions_of(write_keys(batch.writes@), write_results@, commit_version),
                Err(e) => batch.writes@.len() != write_results@.len() && e.code
                    == FirestoreErrorCode::Internal && e.message@ == result_count_message(
                    batch.batch_id,
                    batch.writes@.len(),
                    write_results@.len(),
                ),
            },
    {
        if batch.writes.len() != write_results.len() {
            let mut m = owned("Mutation batch ");
            m.append(int_to_text(batch.batch_id as i64).as_str());
            m.append(" expected ");
            m.append(int_to_text(batch.writes.len() as i64).as_str());
            m.append(" write results but received ");
            m.append(int_to_text(write_results.len() as i64).as_str());
            return Err(FirestoreError { code: FirestoreErrorCode::Internal, message: m });
        }
        let ghost keys = write_keys(batch.writes@);
        let mut versions: Vec<(DocumentKey, Option<Timestamp>)> = Vec::new();
        let mut i: usize = 0;
        while i < batch.writes.len()
            invariant
                i <= batch.writes@.len(),
                batch.writes@.len() == write_results@.len(),
                keys == write_keys(batch.writes@),
                distinct_version_keys(versions@),
                versions_map(versions@) == doc_versions_of(
                    keys.take(i as int),
                    write_results@.take(i as int),
                    commit_version,
                ),
            decreases batch.writes@.len() - i,
        {
            let key = batch.writes[i].key();
            let version = match write_results[i].update_time {
                Some(t) => Some(t),
                None => commit_version,
            };
            proof {
                assert(keys.take(i + 1).drop_last() =~= keys.take(i as int));
                assert(write_results@.take(i + 1).take(i as int) =~= write_results@.take(i as int));
                assert(keys.take(i + 1).last() == key@);
            }
            let position = version_position(&versions, key);
            let ghost before = versions@;
            if let Some(j) = position {
                let entry = (key.clone(), version);
                proof {
                    lemma_versions_map_update(before, j as int, entry);
                }
                versions.set(j, entry);
            } else {
                let entry = (key.clone(), version);
                versions.push(entry);
                proof {
                    assert(versions@.drop_last() =~= before);
                    assert forall|a: int, b: int| 0 <= a < b < versions@.len() implies (#[trigger] versions@[a]).0@ != (#[trigger] versions@[b]).0@ by {
                        if b == versions@.len() - 1 {
                            assert(versions@[a] == before[a]);
                        } else {
                            assert(versions@[a] == before[a] && versions@[b] == before[b]);
                        }
                    }
                }
            }
            i = i + 1;
        }
        assert(keys.take(i as int) =~= keys);
        assert(write_results@.take(i as int) =~= write_results@);
        Ok(MutationBatchResult { batch, commit_version, write_results, doc_versions: versions })
    }

    /// The id of the acknowledged batch.
    pub fn batch_id(&self) -> (r: i32)
        ensures
            r == self.batch.batch_id,
    {
        self.batch.batch_id
    }
}

} // verus!
