//! The queue of pending mutation batches, the target metadata handed to the
//! local store, and the bridge that feeds the local store what the remote
//! store reports.
use vstd::prelude::*;

use crate::firestore::error::{FirestoreError, FirestoreErrorCode, FirestoreResult};
use std::collections::BTreeMap;
use crate::firestore::local::memory::{
    after_remote_event, fresh_meta, id_set, key_set, logged, meta_or_fresh, overlay_clears, reset_model,
    target_clears, updated_meta, LocalStoreModel, MemoryLocalStore, PersistModel, TargetMeta,
};
use crate::firestore::model::{DocumentKey, Timestamp};
use crate::firestore::remote::mutation::{MutationBatch, MutationBatchResult};
use crate::firestore::remote::remote_event::RemoteEvent;
use crate::json::{int_text, int_to_text};
use crate::text::owned;

verus! {

/// Batch ids strictly increase along the sequence.
pub open spec fn ids_increasing(s: Seq<MutationBatch>) -> bool {
    forall|i: int, j: int| 0 <= i < j < s.len() ==> (#[trigger] s[i]).batch_id < (#[trigger] s[j]).batch_id
}

/// How many leading batches have an id below `bound`.
pub open spec fn count_below(s: Seq<MutationBatch>, bound: int) -> int
    decreases s.len(),
{
    if s.len() == 0 {
        0
    } else if s[0].batch_id < bound {
        1 + count_below(s.drop_first(), bound)
    } else {
        0
    }
}

/// Whether some batch has the given id.
pub open spec fn has_batch(s: Seq<MutationBatch>, id: i32) -> bool {
    exists|i: int| 0 <= i < s.len() && (#[trigger] s[i]).batch_id == id
}

/// In a sequence with increasing ids, the batches before `count_below` are
/// exactly those with smaller ids.
pub proof fn lemma_count_below(s: Seq<MutationBatch>, bound: int)
    requires
        ids_increasing(s),
    ensures
        0 <= count_below(s, bound) <= s.len(),
        forall|i: int| 0 <= i < count_below(s, bound) ==> (#[trigger] s[i]).batch_id < bound,
        forall|i: int| count_below(s, bound) <= i < s.len() ==> (#[trigger] s[i]).batch_id >= bound,
    decreases s.len(),
{
    if s.len() > 0 {
        let t = s.drop_first();
        assert(ids_increasing(t)) by {
            assert forall|i: int, j: int| 0 <= i < j < t.len() implies (#[trigger] t[i]).batch_id < (
            #[trigger] t[j]).batch_id by {
                assert(t[i] == s[i + 1] && t[j] == s[j + 1]);
            }
        }
        lemma_count_below(t, bound);
        if s[0].batch_id < bound {
            assert forall|i: int| 0 <= i < count_below(s, bound) implies (#[trigger] s[i]).batch_id
                < bound by {
                if i > 0 {
                    assert(s[i] == t[i - 1]);
                }
            }
            assert forall|i: int| count_below(s, bound) <= i < s.len() implies (
            #[trigger] s[i]).batch_id >= bound by {
                assert(s[i] == t[i - 1]);
            }
        } else {
            assert forall|i: int| 0 <= i < s.len() implies (#[trigger] s[i]).batch_id >= bound by {
                if i > 0 {
                    assert(s[0].batch_id < s[i].batch_id);
                }
            }
        }
    }
}

/// Removing the batch just enqueued gives the queue back: enqueueing `b`
/// inserts it where its id belongs, and removing that id takes it out from
/// the same place.
pub proof fn lemma_enqueue_then_remove(s: Seq<MutationBatch>, b: MutationBatch)
    requires
        ids_increasing(s),
        !has_batch(s, b.batch_id),
    ensures
        ({
            let p = count_below(s, b.batch_id as int);
            let t = s.insert(p, b);
            &&& ids_increasing(t)
            &&& count_below(t, b.batch_id as int) == p
            &&& t[p] == b
            &&& t.remove(p) == s
        }),
{
    let p = count_below(s, b.batch_id as int);
    lemma_count_below(s, b.batch_id as int);
    let t = s.insert(p, b);
    lemma_insert_increasing(s, b, p);
    lemma_count_below(t, b.batch_id as int);
    assert(t.remove(p) =~= s);
    let c = count_below(t, b.batch_id as int);
    if c < p {
        assert(t[c] == s[c]);
    } else if c > p {
        assert(t[p].batch_id < b.batch_id);
    }
}

proof fn lemma_insert_increasing(s: Seq<MutationBatch>, b: MutationBatch, p: int)
    requires
        ids_increasing(s),
        0 <= p <= s.len(),
        forall|i: int| 0 <= i < p ==> (#[trigger] s[i]).batch_id < b.batch_id,
        forall|i: int| p <= i < s.len() ==> (#[trigger] s[i]).batch_id >= b.batch_id,
        !has_batch(s, b.batch_id),
    ensures
        ids_increasing(s.insert(p, b)),
{
    let t = s.insert(p, b);
    assert forall|i: int, j: int| 0 <= i < j < t.len() implies (#[trigger] t[i]).batch_id < (
    #[trigger] t[j]).batch_id by {
        if j < p {
            assert(t[i] == s[i] && t[j] == s[j]);
        } else if j == p {
            assert(t[i] == s[i]);
        } else if i < p {
            assert(t[i] == s[i] && t[j] == s[j - 1]);
        } else if i == p {
            assert(t[j] == s[j - 1]);
            assert(s[j - 1].batch_id != b.batch_id);
        } else {
            assert(t[i] == s[i - 1] && t[j] == s[j - 1]);
        }
    }
}

/// Pending mutation batches ordered by id; ids are unique.
pub struct MutationQueue {
    batches: Vec<MutationBatch>,
}

impl View for MutationQueue {
    type V = Seq<MutationBatch>;

    closed spec fn view(&self) -> Seq<MutationBatch> {
        self.batches@
    }
}

impl MutationQueue {
    #[verifier::type_invariant]
    spec fn ordered(&self) -> bool {
        ids_increasing(self.batches@)
    }

    /// An empty queue.
    pub fn new() -> (q: Self)
        ensures
            q@ == Seq::<MutationBatch>::empty(),
    {
        MutationQueue { batches: Vec::new() }
    }

    /// Adds a batch in id order; an id already queued is refused.
    pub fn enqueue(&mut self, batch: MutationBatch) -> (r: FirestoreResult<()>)
        ensures
            ids_increasing(final(self)@),
            match r {
                Ok(()) => !has_batch(old(self)@, batch.batch_id) && final(self)@ == old(self)@.insert(
                    count_below(old(self)@, batch.batch_id as int),
                    batch,
                ),
                Err(e) => has_batch(old(self)@, batch.batch_id) && final(self)@ == old(self)@ && e.code
                    == FirestoreErrorCode::Internal && e.message@ == "Duplicate mutation batch id "@
                    + int_text(batch.batch_id as int) + " queued"@,
            },
    {
        proof {
            use_type_invariant(&*self);
            lemma_count_below(self.batches@, batch.batch_id as int);
        }
        let pos = self.position(batch.batch_id);
        if pos < self.batches.len() && self.batches[pos].batch_id == batch.batch_id {
            let mut m = owned("Duplicate mutation batch id ");
            m.append(int_to_text(batch.batch_id as i64).as_str());
            m.append(" queued");
            return Err(FirestoreError { code: FirestoreErrorCode::Internal, message: m });
        }
        proof {
            assert(!has_batch(self.batches@, batch.batch_id)) by {
                if has_batch(self.batches@, batch.batch_id) {
                    let i = choose|i: int| 0 <= i < self.batches@.len() && (#[trigger] self.batches@[i]).batch_id == batch.batch_id;
                    if i > pos {
                        assert(self.batches@[pos as int].batch_id < self.batches@[i].batch_id);
                    }
                }
            }
            lemma_insert_increasing(self.batches@, batch, pos as int);
        }
        let ghost b = batch;
        let mut batches = Vec::new();
        std::mem::swap(&mut batches, &mut self.batches);
        batches.insert(pos, batch);
        self.batches = batches;
        Ok(())
    }

    /// The position where `id` is or belongs.
    fn position(&self, id: i32) -> (r: usize)
        ensures
            r == count_below(self@, id as int),
    {
        proof {
            use_type_invariant(self);
            lemma_count_below(self.batches@, id as int);
        }
        let mut i: usize = 0;
        while i < self.batches.len() && self.batches[i].batch_id < id
            invariant
                i <= self.batches@.len(),
                ids_increasing(self.batches@),
                0 <= count_below(self.batches@, id as int) <= self.batches@.len(),
                forall|k: int| 0 <= k < count_below(self.batches@, id as int) ==> (
                #[trigger] self.batches@[k]).batch_id < id,
                forall|k: int| count_below(self.batches@, id as int) <= k < self.batches@.len() ==> (
                #[trigger] self.batches@[k]).batch_id >= id,
                forall|k: int| 0 <= k < i ==> (#[trigger] self.batches@[k]).batch_id < id,
            decreases self.batches@.len() - i,
        {
            i = i + 1;
        }
        proof {
            let c = count_below(self.batches@, id as int);
            if c < i {
                assert(self.batches@[c].batch_id < id);
            }
            if c > i {
                assert(self.batches@[i as int].batch_id < id);
            }
        }
        i
    }

    /// Takes out the batch with the given id.
    pub fn remove(&mut self, batch_id: i32) -> (r: FirestoreResult<MutationBatch>)
        ensures
            ids_increasing(final(self)@),
            match r {
                Ok(b) => {
                    let p = count_below(old(self)@, batch_id as int);
                    &&& p < old(self)@.len()
                    &&& old(self)@[p].batch_id == batch_id
                    &&& b == old(self)@[p]
                    &&& final(self)@ == old(self)@.remove(p)
                },
                Err(e) => !has_batch(old(self)@, batch_id) && final(self)@ == old(self)@ && e.code
                    == FirestoreErrorCode::Internal && e.message@ == "Mutation batch "@ + int_text(
                    batch_id as int,
                ) + " not found in queue"@,
            },
    {
        proof {
            use_type_invariant(&*self);
            lemma_count_below(self.batches@, batch_id as int);
        }
        let pos = self.position(batch_id);
        if pos < self.batches.len() && self.batches[pos].batch_id == batch_id {
            let mut batches = Vec::new();
            std::mem::swap(&mut batches, &mut self.batches);
            let ghost before = batches@;
            let b = batches.remove(pos);
            proof {
                assert forall|i: int, j: int| 0 <= i < j < batches@.len() implies (
                #[trigger] batches@[i]).batch_id < (#[trigger] batches@[j]).batch_id by {
                    let a = if i < pos {
                        i
                    } else {
                        i + 1
                    };
                    let c = if j < pos {
                        j
                    } else {
                        j + 1
                    };
                    assert(batches@[i] == before[a] && batches@[j] == before[c]);
                }
            }
            self.batches = batches;
            return Ok(b);
        }
        let mut m = owned("Mutation batch ");
        m.append(int_to_text(batch_id as i64).as_str());
        m.append(" not found in queue");
        Err(FirestoreError { code: FirestoreErrorCode::Internal, message: m })
    }

    /// The first batch whose id is above `after` (above -1 when absent).
    pub fn next_after(&self, after: Option<i32>) -> (r: Option<&MutationBatch>)
        ensures
            ({
                let threshold: int = match after {
                    Some(a) => a as int,
                    None => -1,
                };
                let p = count_below(self@, threshold + 1);
                match r {
                    Some(b) => p < self@.len() && *b == self@[p],
                    None => p == self@.len(),
                }
            }),
    {
        proof {
            use_type_invariant(self);
        }
        let threshold: i32 = match after {
            Some(a) => a,
            None => -1,
        };
        let ghost bound: int = threshold + 1;
        proof {
            lemma_count_below(self.batches@, bound);
        }
        let mut i: usize = 0;
        while i < self.batches.len()
            invariant
                i <= self.batches@.len(),
                0 <= count_below(self.batches@, bound) <= self.batches@.len(),
                forall|k: int| 0 <= k < count_below(self.batches@, bound) ==> (
                #[trigger] self.batches@[k]).batch_id < bound,
                forall|k: int| count_below(self.batches@, bound) <= k < self.batches@.len() ==> (
                #[trigger] self.batches@[k]).batch_id >= bound,
                forall|k: int| 0 <= k < i ==> (#[trigger] self.batches@[k]).batch_id <= threshold,
                bound == threshold + 1,
                threshold as int == (match after {
                    Some(a) => a as int,
                    None => -1,
                }),
            decreases self.batches@.len() - i,
        {
            if self.batches[i].batch_id > threshold {
                proof {
                    let c = count_below(self.batches@, bound);
                    if c < i {
                        assert(self.batches@[c].batch_id <= threshold);
                    }
                    if c > i {
                        assert(self.batches@[i as int].batch_id < bound);
                    }
                    assert(c == i);
                    assert(bound == (match after {
                        Some(a) => a as int,
                        None => -1,
                    }) + 1);
                    assert(self@ == self.batches@);
                }
                return Some(&self.batches[i]);
            }
            i = i + 1;
        }
        proof {
            let c = count_below(self.batches@, bound);
            if c < i {
                assert(self.batches@[c].batch_id <= threshold);
            }
        }
        None
    }

    /// The ids of the queued batches, in order.
    pub fn pending_batch_ids(&self) -> (r: Vec<i32>)
        ensures
            r@ == self@.map_values(|b: MutationBatch| b.batch_id),
    {
        let mut ids: Vec<i32> = Vec::new();
        let mut i: usize = 0;
        while i < self.batches.len()
            invariant
                i <= self.batches@.len(),
                ids@ == self.batches@.take(i as int).map_values(|b: MutationBatch| b.batch_id),
            decreases self.batches@.len() - i,
        {
            ids.push(self.batches[i].batch_id);
            assert(self.batches@.take(i + 1).map_values(|b: MutationBatch| b.batch_id) =~= ids@);
            i = i + 1;
        }
        assert(self.batches@.take(i as int) =~= self.batches@);
        ids
    }
}

/// A watch change for one target: its resume token, whether it is current,
/// and the documents added, modified and removed.
pub struct TargetChange {
    pub resume_token: Option<Vec<u8>>,
    pub current: bool,
    pub added_documents: Vec<DocumentKey>,
    pub modified_documents: Vec<DocumentKey>,
    pub removed_documents: Vec<DocumentKey>,
}

/// Metadata of a target handed to the local store.
pub struct TargetMetadataUpdate {
    pub resume_token: Option<Vec<u8>>,
    pub snapshot_version: Option<Timestamp>,
    pub current: bool,
    pub added_documents: Vec<DocumentKey>,
    pub modified_documents: Vec<DocumentKey>,
    pub removed_documents: Vec<DocumentKey>,
}

/// The paths of a list of document keys.
pub open spec fn key_views(ks: Seq<DocumentKey>) -> Seq<Seq<Seq<char>>> {
    ks.map_values(|k: DocumentKey| k@)
}

/// The bytes of an optional token.
pub open spec fn token_view(t: Option<Vec<u8>>) -> Option<Seq<u8>> {
    match t {
        Some(v) => Some(v@),
        None => None,
    }
}

/// A copy of a list of document keys.
pub fn copy_keys(ks: &Vec<DocumentKey>) -> (r: Vec<DocumentKey>)
    ensures
        key_views(r@) == key_views(ks@),
{
    let mut out: Vec<DocumentKey> = Vec::new();
    let mut i: usize = 0;
    while i < ks.len()
        invariant
            i <= ks@.len(),
            key_views(out@) == key_views(ks@.take(i as int)),
        decreases ks@.len() - i,
    {
        let k = ks[i].clone();
        let ghost before = out@;
        out.push(k);
        proof {
            assert(ks@.take(i + 1) =~= ks@.take(i as int).push(ks@[i as int]));
            assert(key_views(out@) =~= key_views(before).push(k@));
            assert(key_views(ks@.take(i + 1)) =~= key_views(ks@.take(i as int)).push(ks@[i as int]@));
        }
        i = i + 1;
    }
    assert(ks@.take(i as int) =~= ks@);
    out
}

pub(crate) fn copy_token(t: &Option<Vec<u8>>) -> (r: Option<Vec<u8>>)
    ensures
        token_view(r) == token_view(*t),
{
    match t {
        Some(v) => Some(v.clone()),
        None => None,
    }
}

impl TargetMetadataUpdate {
    /// No token, no version, not current and no documents.
    pub fn empty() -> (u: Self)
        ensures
            u.resume_token is None,
            u.snapshot_version is None,
            !u.current,
            u.added_documents@.len() == 0,
            u.modified_documents@.len() == 0,
            u.removed_documents@.len() == 0,
    {
        TargetMetadataUpdate {
            resume_token: None,
            snapshot_version: None,
            current: false,
            added_documents: Vec::new(),
            modified_documents: Vec::new(),
            removed_documents: Vec::new(),
        }
    }

    /// The metadata carried by a watch change, at the given snapshot version.
    pub fn from_change(change: &TargetChange, snapshot: Option<Timestamp>) -> (u: Self)
        ensures
            token_view(u.resume_token) == token_view(change.resume_token),
            u.snapshot_version == snapshot,
            u.current == change.current,
            key_views(u.added_documents@) == key_views(change.added_documents@),
            key_views(u.modified_documents@) == key_views(change.modified_documents@),
            key_views(u.removed_documents@) == key_views(change.removed_documents@),
    {
        TargetMetadataUpdate {
            resume_token: copy_token(&change.resume_token),
            snapshot_version: snapshot,
            current: change.current,
            added_documents: copy_keys(&change.added_documents),
            modified_documents: copy_keys(&change.modified_documents),
            removed_documents: copy_keys(&change.removed_documents),
        }
    }
}

/// Lists of keys with the same paths hold the same set of paths.
pub proof fn lemma_key_set_views(a: Seq<DocumentKey>, b: Seq<DocumentKey>)
    requires
        key_views(a) == key_views(b),
    ensures
        key_set(a) == key_set(b),
{
    assert(a.len() == key_views(a).len() && b.len() == key_views(b).len());
    assert forall|p: Seq<Seq<char>>| #[trigger] key_set(a).contains(p) == key_set(b).contains(p) by {
        if key_set(a).contains(p) {
            let i = choose|i: int| 0 <= i < a.len() && (#[trigger] a[i])@ == p;
            assert(key_views(a)[i] == key_views(b)[i]);
        }
        if key_set(b).contains(p) {
            let i = choose|i: int| 0 <= i < b.len() && (#[trigger] b[i])@ == p;
            assert(key_views(a)[i] == key_views(b)[i]);
        }
    }
    assert(key_set(a) =~= key_set(b));
}

/// The metadata of a target after a watch change at `version`.
pub open spec fn change_meta(m: TargetMeta, c: TargetChange, version: Option<Timestamp>) -> TargetMeta {
    TargetMeta {
        resume_token: match token_view(c.resume_token) {
            Some(t) => if t.len() > 0 {
                Some(t)
            } else {
                m.resume_token
            },
            None => m.resume_token,
        },
        snapshot_version: match version {
            Some(v) => Some(v),
            None => m.snapshot_version,
        },
        current: c.current,
        remote_keys: m.remote_keys.difference(key_set(c.removed_documents@)).union(key_set(c.added_documents@)).union(
            key_set(c.modified_documents@),
        ),
    }
}

/// The remote keys of a target after a watch change: the removed documents
/// leave, the added and modified ones join.
pub open spec fn changed_keys(keys: Set<Seq<Seq<char>>>, c: TargetChange) -> Set<Seq<Seq<char>>> {
    keys.difference(key_set(c.removed_documents@)).union(key_set(c.added_documents@)).union(
        key_set(c.modified_documents@),
    )
}

/// The keys recorded for a target, or none.
pub open spec fn keys_or_none(m: Map<i32, Set<Seq<Seq<char>>>>, id: i32) -> Set<Seq<Seq<char>>> {
    if m.dom().contains(id) {
        m[id]
    } else {
        Set::empty()
    }
}

/// The remote keys by target after the changes of an event, in order.
pub open spec fn changed_remote_keys(m: Map<i32, Set<Seq<Seq<char>>>>, cs: Seq<(i32, TargetChange)>) -> Map<
    i32,
    Set<Seq<Seq<char>>>,
>
    decreases cs.len(),
{
    if cs.len() == 0 {
        m
    } else {
        let before = changed_remote_keys(m, cs.drop_last());
        before.insert(cs.last().0, changed_keys(keys_or_none(before, cs.last().0), cs.last().1))
    }
}

/// The store after the target changes of an event at `version` are applied
/// to the metadata of their targets, in order.
pub open spec fn changes_applied(s: LocalStoreModel, cs: Seq<(i32, TargetChange)>, version: Option<Timestamp>) -> LocalStoreModel
    decreases cs.len(),
{
    if cs.len() == 0 {
        s
    } else {
        let before = changes_applied(s, cs.drop_last(), version);
        let meta = change_meta(meta_or_fresh(before.targets, cs.last().0), cs.last().1, version);
        LocalStoreModel {
            targets: before.targets.insert(cs.last().0, meta),
            journal: logged(before, seq![PersistModel::SaveTarget(cs.last().0, meta)]),
            ..before
        }
    }
}

/// The store after the targets in `ids` are reset, in order.
pub open spec fn resets_applied(s: LocalStoreModel, ids: Seq<i32>) -> LocalStoreModel
    decreases ids.len(),
{
    if ids.len() == 0 {
        s
    } else {
        reset_model(resets_applied(s, ids.drop_last()), ids.last())
    }
}

/// The store after a remote event passes the bridge: the changed targets
/// take their metadata, the reset targets are forgotten, the resolved
/// documents leave limbo, and then the store applies the event.
pub open spec fn bridged_event(s: LocalStoreModel, e: RemoteEvent) -> LocalStoreModel {
    let changed = changes_applied(s, e.target_changes@, e.snapshot_version);
    let reset = resets_applied(changed, e.target_resets@);
    let resolved = LocalStoreModel { limbo: reset.limbo.difference(key_set(e.resolved_limbo_documents@)), ..reset };
    after_remote_event(resolved, e)
}

/// The remote keys held by a map of key lists.
pub open spec fn remote_key_view(m: BTreeMap<i32, Vec<DocumentKey>>) -> Map<i32, Set<Seq<Seq<char>>>> {
    m@.map_values(|v: Vec<DocumentKey>| key_set(v@))
}

/// Feeds the local store what the remote store reports: keeps the remote
/// document keys of each target as the watch stream reports them, and the
/// queue of batches that feeds the write stream.
pub struct RemoteSyncerBridge {
    remote_keys: BTreeMap<i32, Vec<DocumentKey>>,
    mutation_queue: MutationQueue,
}

impl View for RemoteSyncerBridge {
    type V = (Map<i32, Set<Seq<Seq<char>>>>, Seq<MutationBatch>);

    closed spec fn view(&self) -> (Map<i32, Set<Seq<Seq<char>>>>, Seq<MutationBatch>) {
        (remote_key_view(self.remote_keys), self.mutation_queue@)
    }
}

/// A copy of a list of keys, as a set of paths.
fn copy_key_list(ks: &Vec<DocumentKey>) -> (r: Vec<DocumentKey>)
    ensures
        key_set(r@) == key_set(ks@),
{
    let r = copy_keys(ks);
    proof {
        lemma_key_set_views(r@, ks@);
    }
    r
}

/// `keys` without the paths of `removed`.
fn without_keys(keys: Vec<DocumentKey>, removed: &Vec<DocumentKey>) -> (r: Vec<DocumentKey>)
    ensures
        key_set(r@) == key_set(keys@).difference(key_set(removed@)),
{
    let mut kept: Vec<DocumentKey> = Vec::new();
    let mut i: usize = 0;
    while i < keys.len()
        invariant
            i <= keys@.len(),
            key_set(kept@) == key_set(keys@.take(i as int)).difference(key_set(removed@)),
        decreases keys@.len() - i,
    {
        let ghost before = kept@;
        let k = &keys[i];
        let mut gone = false;
        let mut j: usize = 0;
        while j < removed.len()
            invariant
                j <= removed@.len(),
                gone == exists|m: int| 0 <= m < j && (#[trigger] removed@[m])@ == k@,
            decreases removed@.len() - j,
        {
            if removed[j].equals(k) {
                gone = true;
            }
            j = j + 1;
        }
        if !gone {
            kept.push(k.clone());
        }
        proof {
            let t = keys@.take(i + 1);
            assert(t =~= keys@.take(i as int).push(keys@[i as int]));
            assert(gone == key_set(removed@).contains(keys@[i as int]@));
            assert forall|p: Seq<Seq<char>>| #[trigger] key_set(kept@).contains(p) == key_set(t).difference(
                key_set(removed@),
            ).contains(p) by {
                if key_set(kept@).contains(p) {
                    let m = choose|m: int| 0 <= m < kept@.len() && (#[trigger] kept@[m])@ == p;
                    if m < before.len() {
                        assert(kept@[m] == before[m]);
                        assert(key_set(before).contains(p));
                        let n = choose|n: int| 0 <= n < i && (#[trigger] keys@.take(i as int)[n])@ == p;
                        assert(t[n] == keys@.take(i as int)[n]);
                    } else {
                        assert(t[i as int]@ == p);
                    }
                }
                if key_set(t).difference(key_set(removed@)).contains(p) {
                    let n = choose|n: int| 0 <= n < t.len() && (#[trigger] t[n])@ == p;
                    if n < i {
                        assert(keys@.take(i as int)[n] == t[n]);
                        assert(key_set(before).contains(p));
                        let m = choose|m: int| 0 <= m < before.len() && (#[trigger] before[m])@ == p;
                        assert(kept@[m] == before[m]);
                    } else {
                        assert(kept@[before.len() as int]@ == p);
                    }
                }
            }
            assert(key_set(kept@) =~= key_set(t).difference(key_set(removed@)));
        }
        i = i + 1;
    }
    assert(keys@.take(i as int) =~= keys@);
    kept
}

/// `keys` with the paths of `added` joined.
fn with_keys(keys: Vec<DocumentKey>, added: &Vec<DocumentKey>) -> (r: Vec<DocumentKey>)
    ensures
        key_set(r@) == key_set(keys@).union(key_set(added@)),
{
    let mut out = keys;
    let ghost start = out@;
    let mut i: usize = 0;
    while i < added.len()
        invariant
            i <= added@.len(),
            key_set(out@) == key_set(start).union(key_set(added@.take(i as int))),
        decreases added@.len() - i,
    {
        let ghost before = out@;
        out.push(added[i].clone());
        proof {
            let t = added@.take(i + 1);
            assert(t =~= added@.take(i as int).push(added@[i as int]));
            assert forall|p: Seq<Seq<char>>| #[trigger] key_set(out@).contains(p) == key_set(start).union(
                key_set(t),
            ).contains(p) by {
                if key_set(out@).contains(p) {
                    let m = choose|m: int| 0 <= m < out@.len() && (#[trigger] out@[m])@ == p;
                    if m < before.len() {
                        assert(out@[m] == before[m]);
                        assert(key_set(before).contains(p));
                        if key_set(added@.take(i as int)).contains(p) {
                            let n = choose|n: int| 0 <= n < i && (#[trigger] added@.take(i as int)[n])@ == p;
                            assert(t[n] == added@.take(i as int)[n]);
                        }
                    } else {
                        assert(t[i as int]@ == p);
                    }
                }
                if key_set(start).contains(p) {
                    assert(key_set(before).contains(p));
                    let m = choose|m: int| 0 <= m < before.len() && (#[trigger] before[m])@ == p;
                    assert(out@[m] == before[m]);
                }
                if key_set(t).contains(p) {
                    let n = choose|n: int| 0 <= n < t.len() && (#[trigger] t[n])@ == p;
                    if n < i {
                        assert(added@.take(i as int)[n] == t[n]);
                        assert(key_set(before).contains(p));
                        let m = choose|m: int| 0 <= m < before.len() && (#[trigger] before[m])@ == p;
                        assert(out@[m] == before[m]);
                    } else {
                        assert(out@[before.len() as int]@ == p);
                    }
                }
            }
            assert(key_set(out@) =~= key_set(start).union(key_set(t)));
        }
        i = i + 1;
    }
    assert(added@.take(i as int) =~= added@);
    out
}

impl RemoteSyncerBridge {
    /// No remote keys and an empty queue.
    pub fn new() -> (b: Self)
        ensures
            b@.0 == Map::<i32, Set<Seq<Seq<char>>>>::empty(),
            b@.1 == Seq::<MutationBatch>::empty(),
    {
        let b = RemoteSyncerBridge { remote_keys: BTreeMap::new(), mutation_queue: MutationQueue::new() };
        assert(remote_key_view(b.remote_keys) =~= Map::<i32, Set<Seq<Seq<char>>>>::empty());
        b
    }

    /// Records the remote keys of a target as known, without telling the
    /// local store.
    pub fn seed_remote_keys(&mut self, target_id: i32, keys: Vec<DocumentKey>)
        ensures
            final(self)@.0 == old(self)@.0.insert(target_id, key_set(keys@)),
            final(self)@.1 == old(self)@.1,
    {
        let ghost before = self.remote_keys;
        let ghost ks = keys;
        let _ = self.remote_keys.insert(target_id, keys);
        assert(remote_key_view(self.remote_keys) =~= remote_key_view(before).insert(target_id, key_set(ks@)));
    }

    /// The remote keys of a target become `keys`: the local store forgets the
    /// target's metadata and then records `keys` as its remote keys.
    pub fn replace_remote_keys(&mut self, store: &mut MemoryLocalStore, target_id: i32, keys: Vec<DocumentKey>)
        ensures
            final(self)@.0 == old(self)@.0.insert(target_id, key_set(keys@)),
            final(self)@.1 == old(self)@.1,
            final(store)@ == ({
                let r = reset_model(old(store)@, target_id);
                let meta = TargetMeta { remote_keys: key_set(keys@), ..fresh_meta() };
                LocalStoreModel {
                    targets: r.targets.insert(target_id, meta),
                    journal: if keys@.len() > 0 {
                        logged(r, seq![PersistModel::SaveTarget(target_id, meta)])
                    } else {
                        r.journal
                    },
                    ..r
                }
            }),
    {
        let copy = copy_key_list(&keys);
        let ghost ks = keys;
        self.seed_remote_keys(target_id, copy);
        let _ = store.reset_target_metadata(target_id);
        let ghost after_reset = store@;
        if keys.len() > 0 {
            let mut update = TargetMetadataUpdate::empty();
            update.added_documents = keys;
            let ghost u = update;
            let _ = store.update_target_metadata(target_id, update);
            proof {
                assert(key_set(u.removed_documents@) =~= Set::<Seq<Seq<char>>>::empty());
                assert(key_set(u.modified_documents@) =~= Set::<Seq<Seq<char>>>::empty());
                assert(u.added_documents@ == ks@);
                assert(updated_meta(fresh_meta(), u).remote_keys =~= key_set(ks@));
                assert(updated_meta(fresh_meta(), u) == TargetMeta { remote_keys: key_set(ks@), ..fresh_meta() });
            }
        } else {
            assert(key_set(ks@) =~= Set::<Seq<Seq<char>>>::empty());
            assert(after_reset.targets =~= after_reset.targets.insert(
                target_id,
                TargetMeta { remote_keys: key_set(ks@), ..fresh_meta() },
            ));
        }
    }

    /// Forgets the remote keys of a target.
    pub fn clear_remote_keys(&mut self, target_id: i32)
        ensures
            final(self)@.0 == old(self)@.0.remove(target_id),
            final(self)@.1 == old(self)@.1,
    {
        let ghost before = self.remote_keys;
        let _ = self.remote_keys.remove(&target_id);
        assert(remote_key_view(self.remote_keys) =~= remote_key_view(before).remove(target_id));
    }

    /// Adds a batch to the queue; see [`MutationQueue::enqueue`].
    pub fn enqueue_batch(&mut self, batch: MutationBatch) -> (r: FirestoreResult<()>)
        ensures
            final(self)@.0 == old(self)@.0,
            ids_increasing(final(self)@.1),
            match r {
                Ok(()) => !has_batch(old(self)@.1, batch.batch_id) && final(self)@.1 == old(self)@.1.insert(
                    count_below(old(self)@.1, batch.batch_id as int),
                    batch,
                ),
                Err(e) => has_batch(old(self)@.1, batch.batch_id) && final(self)@.1 == old(self)@.1 && e.code
                    == FirestoreErrorCode::Internal && e.message@ == "Duplicate mutation batch id "@
                    + int_text(batch.batch_id as int) + " queued"@,
            },
    {
        self.mutation_queue.enqueue(batch)
    }

    /// The ids of the queued batches, in order.
    pub fn pending_batch_ids(&self) -> (r: Vec<i32>)
        ensures
            r@ == self@.1.map_values(|b: MutationBatch| b.batch_id),
    {
        self.mutation_queue.pending_batch_ids()
    }

    /// The remote keys of a target (none when nothing is recorded).
    pub fn remote_keys_for_target(&self, target_id: i32) -> (r: Vec<DocumentKey>)
        ensures
            key_set(r@) == keys_or_none(self@.0, target_id),
    {
        match self.remote_keys.get(&target_id) {
            Some(ks) => copy_key_list(ks),
            None => {
                let r: Vec<DocumentKey> = Vec::new();
                assert(key_set(r@) =~= Set::<Seq<Seq<char>>>::empty());
                r
            },
        }
    }

    /// The remote keys of a target; the same as
    /// [`RemoteSyncerBridge::remote_keys_for_target`].
    pub fn get_remote_keys_for_target(&self, target_id: i32) -> (r: Vec<DocumentKey>)
        ensures
            key_set(r@) == keys_or_none(self@.0, target_id),
    {
        self.remote_keys_for_target(target_id)
    }

    /// The first queued batch whose id is above `after_batch_id`.
    pub fn next_mutation_batch(&self, after_batch_id: Option<i32>) -> (r: Option<&MutationBatch>)
        ensures
            ({
                let threshold: int = match after_batch_id {
                    Some(a) => a as int,
                    None => -1,
                };
                let p = count_below(self@.1, threshold + 1);
                match r {
                    Some(b) => p < self@.1.len() && *b == self@.1[p],
                    None => p == self@.1.len(),
                }
            }),
    {
        self.mutation_queue.next_after(after_batch_id)
    }

    /// Applies a remote event: the changed targets update their remote keys
    /// and metadata, the reset targets lose both, resolved documents leave
    /// limbo, and the local store applies the event.
    pub fn apply_remote_event(&mut self, store: &mut MemoryLocalStore, event: RemoteEvent)
        ensures
            final(self)@.0 == changed_remote_keys(old(self)@.0, event.target_changes@).remove_keys(
                id_set(event.target_resets@),
            ),
            final(self)@.1 == old(self)@.1,
            final(store)@ == bridged_event(old(store)@, event),
    {
        let changes = &event.target_changes;
        let mut keys: BTreeMap<i32, Vec<DocumentKey>> = BTreeMap::new();
        std::mem::swap(&mut keys, &mut self.remote_keys);
        let ghost start_keys = remote_key_view(keys);
        let mut i: usize = 0;
        while i < changes.len()
            invariant
                i <= changes@.len(),
                remote_key_view(keys) == changed_remote_keys(start_keys, changes@.take(i as int)),
            decreases changes@.len() - i,
        {
            let id = changes[i].0;
            let change = &changes[i].1;
            let ghost before = keys;
            let current = match keys.remove(&id) {
                Some(v) => v,
                None => Vec::new(),
            };
            assert(key_set(current@) == keys_or_none(remote_key_view(before), id)) by {
                if !before@.dom().contains(id) {
                    assert(key_set(current@) =~= Set::<Seq<Seq<char>>>::empty());
                }
            }
            let kept = without_keys(current, &change.removed_documents);
            let grown = with_keys(kept, &change.added_documents);
            let all = with_keys(grown, &change.modified_documents);
            let ghost all_v = all;
            let ghost mid = keys;
            let _ = keys.insert(id, all);
            proof {
                let t = changes@.take(i + 1);
                assert(t.drop_last() =~= changes@.take(i as int));
                assert(t.last() == changes@[i as int]);
                assert(keys@ =~= before@.insert(id, all_v));
                assert(remote_key_view(keys) =~= remote_key_view(before).insert(
                    id,
                    changed_keys(keys_or_none(remote_key_view(before), id), changes@[i as int].1),
                ));
            }
            i = i + 1;
        }
        assert(changes@.take(i as int) =~= changes@);
        let resets = &event.target_resets;
        let ghost after_changes = remote_key_view(keys);
        let mut j: usize = 0;
        while j < resets.len()
            invariant
                j <= resets@.len(),
                remote_key_view(keys) == after_changes.remove_keys(id_set(resets@.take(j as int))),
            decreases resets@.len() - j,
        {
            let ghost before = keys;
            let _ = keys.remove(&resets[j]);
            proof {
                assert(id_set(resets@.take(j + 1)) =~= id_set(resets@.take(j as int)).insert(resets@[j as int])) by {
                    assert forall|t: i32| #[trigger] id_set(resets@.take(j + 1)).contains(t) == id_set(
                        resets@.take(j as int),
                    ).insert(resets@[j as int]).contains(t) by {
                        if resets@.take(j + 1).contains(t) {
                            let m = choose|m: int| 0 <= m < j + 1 && #[trigger] resets@.take(j + 1)[m] == t;
                            if m < j {
                                assert(resets@.take(j as int)[m] == t);
                            }
                        }
                        if resets@.take(j as int).contains(t) {
                            let m = choose|m: int| 0 <= m < j && #[trigger] resets@.take(j as int)[m] == t;
                            assert(resets@.take(j + 1)[m] == t);
                        }
                        if t == resets@[j as int] {
                            assert(resets@.take(j + 1)[j as int] == t);
                        }
                    }
                }
                assert(remote_key_view(keys) =~= remote_key_view(before).remove(resets@[j as int]));
                assert(remote_key_view(keys) =~= after_changes.remove_keys(id_set(resets@.take(j + 1))));
            }
            j = j + 1;
        }
        assert(resets@.take(j as int) =~= resets@);
        self.remote_keys = keys;
        let ghost s0 = store@;
        let mut c: usize = 0;
        while c < changes.len()
            invariant
                c <= changes@.len(),
                store@ == changes_applied(s0, changes@.take(c as int), event.snapshot_version),
            decreases changes@.len() - c,
        {
            let id = changes[c].0;
            let update = TargetMetadataUpdate::from_change(&changes[c].1, event.snapshot_version);
            let ghost u = update;
            let ghost before = store@;
            let _ = store.update_target_metadata(id, update);
            proof {
                let ch = changes@[c as int].1;
                lemma_key_set_views(u.added_documents@, ch.added_documents@);
                lemma_key_set_views(u.modified_documents@, ch.modified_documents@);
                lemma_key_set_views(u.removed_documents@, ch.removed_documents@);
                assert(updated_meta(meta_or_fresh(before.targets, id), u) == change_meta(
                    meta_or_fresh(before.targets, id),
                    ch,
                    event.snapshot_version,
                ));
                let t = changes@.take(c + 1);
                assert(t.drop_last() =~= changes@.take(c as int));
                assert(t.last() == changes@[c as int]);
            }
            c = c + 1;
        }
        assert(changes@.take(c as int) =~= changes@);
        let ghost s1 = store@;
        let mut r: usize = 0;
        while r < resets.len()
            invariant
                r <= resets@.len(),
                store@ == resets_applied(s1, resets@.take(r as int)),
            decreases resets@.len() - r,
        {
            let _ = store.reset_target_metadata(resets[r]);
            proof {
                let t = resets@.take(r + 1);
                assert(t.drop_last() =~= resets@.take(r as int));
            }
            r = r + 1;
        }
        assert(resets@.take(r as int) =~= resets@);
        store.record_resolved_limbo_documents(&event.resolved_limbo_documents);
        store.handle_remote_event(event);
    }

    /// Records a rejected listen: the target's remote keys are forgotten and
    /// the local store logs the error.
    pub fn reject_listen(&mut self, store: &mut MemoryLocalStore, target_id: i32, error: FirestoreError)
        ensures
            final(self)@.0 == old(self)@.0.remove(target_id),
            final(self)@.1 == old(self)@.1,
            final(store)@ == (LocalStoreModel { rejected: old(store)@.rejected.push((target_id, error)), ..old(store)@ }),
    {
        self.clear_remote_keys(target_id);
        store.handle_rejected_listen(target_id, error);
    }

    /// Records an acknowledged batch: it leaves the queue and the local store
    /// takes the result. Fails, changing nothing, when the batch is not
    /// queued.
    pub fn apply_successful_write(&mut self, store: &mut MemoryLocalStore, result: MutationBatchResult) -> (r:
        FirestoreResult<()>)
        ensures
            final(self)@.0 == old(self)@.0,
            match r {
                Ok(()) => has_batch(old(self)@.1, result.batch.batch_id) && final(self)@.1 == old(self)@.1.remove(
                    count_below(old(self)@.1, result.batch.batch_id as int),
                ) && exists|ks: Seq<DocumentKey>|
                    #![trigger overlay_clears(old(store)@.overlays.dom(), key_views(ks))]
                    key_set(ks) == crate::firestore::local::memory::batch_keys(result.batch) && final(store)@ == (
                    LocalStoreModel {
                        outstanding: crate::firestore::local::memory::without_first(
                            old(store)@.outstanding,
                            result.batch.batch_id,
                        ),
                        successful: old(store)@.successful.push(result),
                        overlays: old(store)@.overlays.remove_keys(
                            crate::firestore::local::memory::batch_keys(result.batch),
                        ),
                        journal: logged(old(store)@, overlay_clears(old(store)@.overlays.dom(), key_views(ks))),
                        ..old(store)@
                    }),
                Err(e) => !has_batch(old(self)@.1, result.batch.batch_id) && final(self)@.1 == old(self)@.1
                    && final(store)@ == old(store)@ && e.code == FirestoreErrorCode::Internal,
            },
    {
        proof {
            use_type_invariant(&self.mutation_queue);
        }
        match self.mutation_queue.remove(result.batch.batch_id) {
            Err(e) => Err(e),
            Ok(_) => {
                proof {
                    lemma_count_below(old(self)@.1, result.batch.batch_id as int);
                    let p = count_below(old(self)@.1, result.batch.batch_id as int);
                    assert(old(self)@.1[p].batch_id == result.batch.batch_id);
                    assert(has_batch(old(self)@.1, result.batch.batch_id));
                    assert(self@.1 == old(self)@.1.remove(p));
                }
                store.handle_successful_write(result);
                Ok(())
            },
        }
    }

    /// Records a rejected batch: it leaves the queue and the local store
    /// drops every pending write. Fails, changing nothing, when the batch is
    /// not queued.
    pub fn reject_failed_write(&mut self, store: &mut MemoryLocalStore, batch_id: i32, error: FirestoreError) -> (r:
        FirestoreResult<()>)
        ensures
            final(self)@.0 == old(self)@.0,
            match r {
                Ok(()) => has_batch(old(self)@.1, batch_id) && final(self)@.1 == old(self)@.1.remove(
                    count_below(old(self)@.1, batch_id as int),
                ) && exists|ks: Seq<DocumentKey>|
                    #![trigger overlay_clears(old(store)@.overlays.dom(), key_views(ks))]
                    key_set(ks) == old(store)@.overlays.dom() && final(store)@ == (LocalStoreModel {
                        outstanding: crate::firestore::local::memory::without_first(old(store)@.outstanding, batch_id),
                        failed: old(store)@.failed.push((batch_id, error)),
                        overlays: Map::empty(),
                        journal: logged(old(store)@, overlay_clears(old(store)@.overlays.dom(), key_views(ks))),
                        ..old(store)@
                    }),
                Err(e) => !has_batch(old(self)@.1, batch_id) && final(self)@.1 == old(self)@.1 && final(store)@
                    == old(store)@ && e.code == FirestoreErrorCode::Internal,
            },
    {
        proof {
            use_type_invariant(&self.mutation_queue);
        }
        match self.mutation_queue.remove(batch_id) {
            Err(e) => Err(e),
            Ok(_) => {
                proof {
                    lemma_count_below(old(self)@.1, batch_id as int);
                    let p = count_below(old(self)@.1, batch_id as int);
                    assert(old(self)@.1[p].batch_id == batch_id);
                    assert(has_batch(old(self)@.1, batch_id));
                    assert(self@.1 == old(self)@.1.remove(p));
                }
                store.handle_failed_write(batch_id, error);
                Ok(())
            },
        }
    }

    /// Hands a change of credentials to the local store.
    pub fn handle_credential_change(&self, store: &mut MemoryLocalStore)
        ensures
            exists|ks: Seq<DocumentKey>, ids: Seq<i32>|
                #![trigger overlay_clears(old(store)@.overlays.dom(), key_views(ks)), target_clears(ids)]
                key_set(ks) == old(store)@.overlays.dom() && id_set(ids) == old(store)@.targets.dom()
                    && ids.no_duplicates() && final(store)@ == (LocalStoreModel {
                    next_batch_id: old(store)@.next_batch_id,
                    persisting: old(store)@.persisting,
                    journal: logged(old(store)@, overlay_clears(old(store)@.overlays.dom(), key_views(ks)) + target_clears(ids)),
                    ..crate::firestore::local::memory::empty_store()
                }),
    {
        store.handle_credential_change();
    }
}

} // verus!
