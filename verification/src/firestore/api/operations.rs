//! Encoding of write data: merge options, field masks, update paths and
//! reading or writing values at nested field paths.
use vstd::prelude::*;

use crate::firestore::error::{invalid_argument, FirestoreErrorCode, FirestoreResult};
use crate::firestore::model::document_key::is_document_path;
use crate::firestore::model::field_path::render_field_path;
use crate::firestore::model::resource_path::parse_resource_path;
use crate::firestore::model::{DocumentKey, FieldPath};
use crate::firestore::value::value::{
    insert_sorted, keys_sorted, lemma_insert_sorted, lemma_lookup_unique, lookup, FirestoreValue, MapValue,
    ValueModel,
};
use crate::text::string_views;

verus! {

/// The views of a sequence of field paths.
pub open spec fn field_views(v: Seq<FieldPath>) -> Seq<Seq<Seq<char>>> {
    v.map_values(|f: FieldPath| f@)
}

/// The value found by following `segments` through nested maps.
pub open spec fn value_at(es: Seq<(Seq<char>, ValueModel)>, segments: Seq<Seq<char>>) -> Option<ValueModel>
    decreases segments.len(),
{
    if segments.len() == 0 {
        None
    } else {
        match lookup(es, segments[0]) {
            None => None,
            Some(v) => if segments.len() == 1 {
                Some(v)
            } else {
                match v {
                    ValueModel::Mapping(child) => value_at(child, segments.drop_first()),
                    _ => None,
                }
            },
        }
    }
}

/// The entries after storing `v` at the nested path `segments`, creating (or
/// replacing non-map values by) maps along the way.
pub open spec fn set_at(es: Seq<(Seq<char>, ValueModel)>, segments: Seq<Seq<char>>, v: ValueModel) -> Seq<(Seq<char>, ValueModel)>
    decreases segments.len(),
{
    if segments.len() == 0 {
        es
    } else if segments.len() == 1 {
        insert_sorted(es, segments[0], v)
    } else {
        let child = match lookup(es, segments[0]) {
            Some(ValueModel::Mapping(c)) => c,
            _ => Seq::<(Seq<char>, ValueModel)>::empty(),
        };
        insert_sorted(es, segments[0], ValueModel::Mapping(set_at(child, segments.drop_first(), v)))
    }
}

/// Keys in order in `es` and in each nested map that `segments` passes
/// through.
pub open spec fn sorted_along(es: Seq<(Seq<char>, ValueModel)>, segments: Seq<Seq<char>>) -> bool
    decreases segments.len(),
{
    &&& keys_sorted(es)
    &&& segments.len() > 1 ==> match lookup(es, segments[0]) {
        Some(ValueModel::Mapping(child)) => sorted_along(child, segments.drop_first()),
        _ => true,
    }
}

/// A value stored at a path reads back from that path.
pub proof fn lemma_set_at_reads_back(es: Seq<(Seq<char>, ValueModel)>, segments: Seq<Seq<char>>, v: ValueModel)
    requires
        segments.len() > 0,
        sorted_along(es, segments),
    ensures
        value_at(set_at(es, segments, v), segments) == Some(v),
    decreases segments.len(),
{
    lemma_insert_sorted(es, segments[0], v);
    if segments.len() > 1 {
        let rest = segments.drop_first();
        let child = match lookup(es, segments[0]) {
            Some(ValueModel::Mapping(c)) => c,
            _ => Seq::<(Seq<char>, ValueModel)>::empty(),
        };
        assert(sorted_along(child, rest)) by {
            if !(lookup(es, segments[0]) matches Some(ValueModel::Mapping(_))) {
                assert(child.len() == 0);
                assert(lookup(child, rest[0]) is None);
            }
        }
        lemma_set_at_reads_back(child, rest, v);
        lemma_insert_sorted(es, segments[0], ValueModel::Mapping(set_at(child, rest, v)));
    }
}

/// The paths of the leaves of a value reached through `path`: a non-empty map
/// contributes the leaves of its entries in key order, anything else is a leaf.
pub open spec fn leaf_paths_value(v: ValueModel, path: Seq<Seq<char>>) -> Seq<Seq<Seq<char>>>
    decreases v,
{
    match v {
        ValueModel::Mapping(es) => if es.len() > 0 {
            leaf_paths_entries(es, path)
        } else {
            seq![path]
        },
        _ => seq![path],
    }
}

/// The leaf paths of every entry, in key order.
pub open spec fn leaf_paths_entries(es: Seq<(Seq<char>, ValueModel)>, path: Seq<Seq<char>>) -> Seq<Seq<Seq<char>>>
    decreases es,
{
    if es.len() == 0 {
        Seq::<Seq<Seq<char>>>::empty()
    } else {
        leaf_paths_entries(es.drop_last(), path) + leaf_paths_value(
            es.last().1,
            path.push(es.last().0),
        )
    }
}

/// The renderings of a sequence of field paths.
pub open spec fn renders(fs: Seq<Seq<Seq<char>>>) -> Seq<Seq<char>> {
    fs.map_values(|f: Seq<Seq<char>>| render_field_path(f))
}

/// The first field path of each group of paths that render alike.
pub open spec fn dedup_by_render(fs: Seq<Seq<Seq<char>>>) -> Seq<Seq<Seq<char>>>
    decreases fs.len(),
{
    if fs.len() == 0 {
        fs
    } else {
        let r = dedup_by_render(fs.drop_last());
        if renders(r).contains(render_field_path(fs.last())) {
            r
        } else {
            r.push(fs.last())
        }
    }
}

/// A transform applied to a field as part of a write.
#[derive(Debug)]
pub enum TransformOperation {
    ServerTimestamp,
    ArrayUnion(Vec<FirestoreValue>),
    ArrayRemove(Vec<FirestoreValue>),
    NumericIncrement(FirestoreValue),
}

/// A field path together with the transform applied to it.
#[derive(Debug)]
pub struct FieldTransform {
    pub field_path: FieldPath,
    pub operation: TransformOperation,
}

impl FieldTransform {
    pub fn new(field_path: FieldPath, operation: TransformOperation) -> (t: Self)
        ensures
            t.field_path == field_path,
            t.operation == operation,
    {
        FieldTransform { field_path, operation }
    }

    pub fn field_path(&self) -> (r: &FieldPath)
        ensures
            *r == self.field_path,
    {
        &self.field_path
    }

    pub fn operation(&self) -> (r: &TransformOperation)
        ensures
            *r == self.operation,
    {
        &self.operation
    }
}

/// Options of a set write: merge every field, or merge only the fields of a
/// mask (which takes precedence).
pub struct SetOptions {
    pub merge: bool,
    pub merge_fields: Option<Vec<FieldPath>>,
}

impl Default for SetOptions {
    fn default() -> (o: Self)
        ensures
            !o.merge,
            o.merge_fields is None,
    {
        SetOptions { merge: false, merge_fields: None }
    }
}

/// A copy of a vector of field paths.
pub fn copy_field_paths(v: &Vec<FieldPath>) -> (r: Vec<FieldPath>)
    ensures
        field_views(r@) == field_views(v@),
{
    let mut r: Vec<FieldPath> = Vec::new();
    let mut i: usize = 0;
    while i < v.len()
        invariant
            i <= v.len(),
            field_views(r@) =~= field_views(v@).take(i as int),
        decreases v.len() - i,
    {
        let ghost before = r@;
        r.push(v[i].clone());
        assert(field_views(r@) =~= field_views(before).push(v@[i as int]@));
        assert(field_views(v@).take(i + 1) =~= field_views(v@).take(i as int).push(v@[i as int]@));
        i = i + 1;
    }
    assert(field_views(v@).take(v.len() as int) =~= field_views(v@));
    r
}

/// Whether `key` is one of `seen`.
fn contains_string(seen: &Vec<String>, key: &String) -> (r: bool)
    ensures
        r == string_views(seen@).contains(key@),
{
    let mut k: usize = 0;
    while k < seen.len()
        invariant
            k <= seen@.len(),
            forall|m: int| 0 <= m < k ==> (#[trigger] seen@[m])@ != key@,
        decreases seen@.len() - k,
    {
        if seen[k] == *key {
            assert(string_views(seen@)[k as int] == key@);
            return true;
        }
        k = k + 1;
    }
    proof {
        if string_views(seen@).contains(key@) {
            let m = choose|m: int| 0 <= m < string_views(seen@).len() && string_views(seen@)[m] == key@;
            assert(seen@[m]@ == key@);
        }
    }
    false
}

impl SetOptions {
    /// Merge every field present in the written data.
    pub fn merge_all() -> (o: Self)
        ensures
            o.merge,
            o.merge_fields is None,
    {
        SetOptions { merge: true, merge_fields: None }
    }

    /// Merge only the given fields. Paths that render alike are kept once, in
    /// first-seen order; an empty list is refused.
    pub fn merge_fields(fields: Vec<FieldPath>) -> (r: FirestoreResult<Self>)
        ensures
            match r {
                Ok(o) => !o.merge && (o.merge_fields matches Some(m) && field_views(m@)
                    == dedup_by_render(field_views(fields@)) && m@.len() > 0),
                Err(e) => fields@.len() == 0 && e.code == FirestoreErrorCode::InvalidArgument,
            },
    {
        let ghost fs = field_views(fields@);
        let mut unique: Vec<FieldPath> = Vec::new();
        let mut seen: Vec<String> = Vec::new();
        let mut i: usize = 0;
        assert(renders(field_views(unique@)) =~= string_views(seen@));
        while i < fields.len()
            invariant
                i <= fields.len(),
                fs == field_views(fields@),
                field_views(unique@) == dedup_by_render(fs.take(i as int)),
                string_views(seen@) == renders(field_views(unique@)),
                i > 0 ==> unique@.len() > 0,
            decreases fields.len() - i,
        {
            let key = fields[i].canonical_string();
            let found = contains_string(&seen, &key);
            proof {
                let t = fs.take(i + 1);
                assert(t.drop_last() =~= fs.take(i as int));
                assert(t.last() == fs[i as int]);
            }
            if !found {
                let ghost before = unique@;
                let ghost seen_before = seen@;
                unique.push(fields[i].clone());
                seen.push(key);
                proof {
                    assert(field_views(unique@) =~= field_views(before).push(fs[i as int]));
                    assert(string_views(seen@) =~= string_views(seen_before).push(key@));
                    assert(renders(field_views(unique@)) =~= renders(field_views(before)).push(render_field_path(fs[i as int])));
                }
            }
            i = i + 1;
        }
        proof {
            assert(fs.take(fields.len() as int) =~= fs);
        }
        if unique.len() == 0 {
            return Err(invalid_argument("merge_fields requires at least one field path"));
        }
        Ok(SetOptions { merge: false, merge_fields: Some(unique) })
    }

    /// Whether the write merges into the existing document.
    pub fn is_merge(&self) -> (b: bool)
        ensures
            b == (self.merge || self.merge_fields is Some),
    {
        self.merge || self.merge_fields.is_some()
    }

    /// The explicit field mask, if any.
    pub fn field_mask(&self) -> (r: Option<&Vec<FieldPath>>)
        ensures
            match r {
                Some(m) => self.merge_fields == Some(*m),
                None => self.merge_fields is None,
            },
    {
        match &self.merge_fields {
            Some(m) => Some(m),
            None => None,
        }
    }
}

/// The value at `segments[start..]` inside `map`.
fn value_for_segments_from(map: &MapValue, segments: &Vec<String>, start: usize) -> (r: Option<FirestoreValue>)
    requires
        start <= segments@.len(),
    ensures
        match r {
            Some(v) => value_at(map@, string_views(segments@).skip(start as int)) == Some(v@),
            None => value_at(map@, string_views(segments@).skip(start as int)) is None,
        },
    decreases segments@.len() - start,
{
    let ghost segs = string_views(segments@).skip(start as int);
    if start >= segments.len() {
        return None;
    }
    assert(segs[0] == segments@[start as int]@);
    match map.get(segments[start].as_str()) {
        None => None,
        Some(value) => {
            if start + 1 == segments.len() {
                Some(value.clone())
            } else {
                assert(segs.drop_first() =~= string_views(segments@).skip(start + 1));
                match value.as_map() {
                    Some(child) => value_for_segments_from(child, segments, start + 1),
                    None => None,
                }
            }
        },
    }
}

/// The value at the nested path `segments` inside `map`.
pub fn value_for_segments(map: &MapValue, segments: &Vec<String>) -> (r: Option<FirestoreValue>)
    ensures
        match r {
            Some(v) => value_at(map@, string_views(segments@)) == Some(v@),
            None => value_at(map@, string_views(segments@)) is None,
        },
{
    assert(string_views(segments@).skip(0) =~= string_views(segments@));
    value_for_segments_from(map, segments, 0)
}

/// The value at `path` inside `map`.
pub fn value_for_field_path(map: &MapValue, path: &FieldPath) -> (r: Option<FirestoreValue>)
    ensures
        match r {
            Some(v) => value_at(map@, path@) == Some(v@),
            None => value_at(map@, path@) is None,
        },
{
    value_for_segments(map, path.segments())
}

/// Stores `value` at `segments[start..]` inside `fields`.
fn set_value_at_segments_from(fields: &mut MapValue, segments: &Vec<String>, start: usize, value: FirestoreValue)
    requires
        start <= segments@.len(),
    ensures
        final(fields)@ == set_at(old(fields)@, string_views(segments@).skip(start as int), value@),
    decreases segments@.len() - start,
{
    let ghost segs = string_views(segments@).skip(start as int);
    if start >= segments.len() {
        return;
    }
    assert(segs[0] == segments@[start as int]@);
    if start + 1 == segments.len() {
        fields.insert(segments[start].clone(), value);
        return;
    }
    assert(segs.drop_first() =~= string_views(segments@).skip(start + 1));
    let mut child = match fields.get(segments[start].as_str()) {
        Some(existing) => match existing.as_map() {
            Some(m) => m.clone(),
            None => MapValue::empty(),
        },
        None => MapValue::empty(),
    };
    set_value_at_segments_from(&mut child, segments, start + 1, value);
    fields.insert(segments[start].clone(), FirestoreValue::from_map(child));
}

/// Stores `value` at the nested path `segments` inside `fields`.
pub fn set_value_at_segments(fields: &mut MapValue, segments: &Vec<String>, value: FirestoreValue)
    ensures
        final(fields)@ == set_at(old(fields)@, string_views(segments@), value@),
{
    assert(string_views(segments@).skip(0) =~= string_views(segments@));
    set_value_at_segments_from(fields, segments, 0, value);
}

/// Stores `value` at `path` inside `fields`.
pub fn set_value_at_field_path(fields: &mut MapValue, path: &FieldPath, value: FirestoreValue)
    ensures
        final(fields)@ == set_at(old(fields)@, path@, value@),
{
    set_value_at_segments(fields, path.segments(), value);
}

/// Appends to `acc` the leaf paths of `value`, reached through `segments`.
fn collect_paths_from_value(acc: &mut Vec<FieldPath>, segments: Vec<String>, value: &FirestoreValue)
    requires
        segments@.len() > 0,
    ensures
        field_views(final(acc)@) == field_views(old(acc)@) + leaf_paths_value(value@, string_views(segments@)),
    decreases value@,
{
    let ghost path = string_views(segments@);
    match value.as_map() {
        Some(map) => {
            if map.len() > 0 {
                let ghost start = field_views(acc@);
                let mut i: usize = 0;
                while i < map.len()
                    invariant
                        i <= map@.len(),
                        value@ == ValueModel::Mapping(map@),
                        path == string_views(segments@),
                        field_views(acc@) == start + leaf_paths_entries(map@.take(i as int), path),
                    decreases map@.len() - i,
                {
                    let (key, child) = map.entry_at(i);
                    let mut child_segments = crate::firestore::model::resource_path::copy_strings(&segments);
                    let ghost before = child_segments@;
                    child_segments.push(crate::text::owned(key));
                    proof {
                        assert(string_views(child_segments@) =~= path.push(map@[i as int].0));
                        assert(value@->Mapping_0 == map@);
                        assert(decreases_to!(value@ => value@->Mapping_0));
                        assert(decreases_to!(map@ => map@[i as int]));
                        assert(decreases_to!(map@[i as int] => map@[i as int].1));
                        let t = map@.take(i + 1);
                        assert(t.drop_last() =~= map@.take(i as int));
                        assert(t.last() == map@[i as int]);
                    }
                    collect_paths_from_value(acc, child_segments, child);
                    i = i + 1;
                }
                assert(map@.take(map@.len() as int) =~= map@);
                return;
            }
        },
        None => {},
    }
    let ghost before = acc@;
    match FieldPath::new(segments) {
        Ok(f) => {
            acc.push(f);
            assert(field_views(acc@) =~= field_views(before).push(path));
        },
        Err(_) => {},
    }
}

/// The leaf paths of every field of `data`, in key order.
pub fn collect_update_paths(data: &MapValue) -> (paths: Vec<FieldPath>)
    ensures
        field_views(paths@) == leaf_paths_entries(data@, Seq::<Seq<char>>::empty()),
{
    let mut paths: Vec<FieldPath> = Vec::new();
    let mut i: usize = 0;
    let ghost empty = Seq::<Seq<char>>::empty();
    assert(field_views(paths@) =~= Seq::<Seq<Seq<char>>>::empty());
    assert(data@.take(0) =~= Seq::<(Seq<char>, ValueModel)>::empty());
    while i < data.len()
        invariant
            i <= data@.len(),
            empty == Seq::<Seq<char>>::empty(),
            field_views(paths@) == leaf_paths_entries(data@.take(i as int), empty),
        decreases data@.len() - i,
    {
        let (key, value) = data.entry_at(i);
        let mut segments: Vec<String> = Vec::new();
        segments.push(crate::text::owned(key));
        proof {
            assert(segments@.len() == 1);
            assert(string_views(segments@)[0] == segments@[0]@);
            assert(string_views(segments@) =~= empty.push(data@[i as int].0));
            let t = data@.take(i + 1);
            assert(t.drop_last() =~= data@.take(i as int));
            assert(t.last() == data@[i as int]);
        }
        collect_paths_from_value(&mut paths, segments, value);
        i = i + 1;
    }
    assert(data@.take(data@.len() as int) =~= data@);
    paths
}

/// Checks that every path of the mask is present in the data.
pub fn validate_mask_against_map(map: &MapValue, mask: &Vec<FieldPath>) -> (r: FirestoreResult<()>)
    ensures
        r is Ok <==> (mask@.len() > 0 && forall|i: int| 0 <= i < mask@.len() ==> value_at(map@, (#[trigger] mask@[i])@) is Some),
        r matches Err(e) ==> e.code == FirestoreErrorCode::InvalidArgument,
{
    if mask.len() == 0 {
        return Err(invalid_argument("merge_fields requires at least one field path"));
    }
    let mut i: usize = 0;
    while i < mask.len()
        invariant
            i <= mask@.len(),
            forall|k: int| 0 <= k < i ==> value_at(map@, (#[trigger] mask@[k])@) is Some,
        decreases mask@.len() - i,
    {
        if value_for_field_path(map, &mask[i]).is_none() {
            return Err(
                invalid_argument("A field is specified in merge_fields but missing from the provided data"),
            );
        }
        i = i + 1;
    }
    Ok(())
}

/// The document data of a plain write.
pub fn encode_document_data(data: MapValue) -> (r: FirestoreResult<MapValue>)
    ensures
        r matches Ok(m) && m@ == data@,
{
    Ok(data)
}

/// The data and field mask of a set write: the explicit mask when the options
/// give one (every masked path must be present), the leaf paths of the data for
/// a merge of everything (which must not be empty), and no mask otherwise.
pub fn encode_set_data(data: MapValue, options: &SetOptions) -> (r: FirestoreResult<(MapValue, Option<Vec<FieldPath>>)>)
    ensures
        match options.merge_fields {
            Some(mask) => {
                let valid = mask@.len() > 0 && forall|i: int| 0 <= i < mask@.len() ==> value_at(data@, (#[trigger] mask@[i])@) is Some;
                match r {
                    Ok((m, out)) => valid && m@ == data@ && (out matches Some(o) && field_views(o@) == field_views(mask@)),
                    Err(e) => !valid && e.code == FirestoreErrorCode::InvalidArgument,
                }
            },
            None => if options.merge {
                let paths = leaf_paths_entries(data@, Seq::<Seq<char>>::empty());
                match r {
                    Ok((m, out)) => paths.len() > 0 && m@ == data@ && (out matches Some(o) && field_views(o@) == paths),
                    Err(e) => paths.len() == 0 && e.code == FirestoreErrorCode::InvalidArgument,
                }
            } else {
                r matches Ok((m, out)) && m@ == data@ && out is None
            },
        },
{
    if let Some(mask) = options.field_mask() {
        validate_mask_against_map(&data, mask)?;
        let out = copy_field_paths(mask);
        return Ok((data, Some(out)));
    }
    if options.merge {
        let field_paths = collect_update_paths(&data);
        if field_paths.len() == 0 {
            return Err(invalid_argument("merge set requires the data to contain at least one field"));
        }
        return Ok((data, Some(field_paths)));
    }
    Ok((data, None))
}

/// The data and the leaf paths of an update write; empty data is refused.
pub fn encode_update_document_data(data: MapValue) -> (r: FirestoreResult<(MapValue, Vec<FieldPath>)>)
    ensures
        match r {
            Ok((m, paths)) => data@.len() > 0 && m@ == data@ && field_views(paths@) == leaf_paths_entries(data@, Seq::<Seq<char>>::empty()),
            Err(e) => data@.len() == 0 && e.code == FirestoreErrorCode::InvalidArgument,
        },
{
    if data.is_empty() {
        return Err(invalid_argument("update_doc requires at least one field/value pair"));
    }
    let field_paths = collect_update_paths(&data);
    Ok((data, field_paths))
}

/// The key of the document at a slash-separated path.
pub fn validate_document_path(path: &str) -> (r: FirestoreResult<DocumentKey>)
    ensures
        match r {
            Ok(k) => parse_resource_path(path@) == Some(k@) && is_document_path(k@),
            Err(e) => e.code == FirestoreErrorCode::InvalidArgument && match parse_resource_path(path@) {
                Some(p) => !is_document_path(p),
                None => true,
            },
        },
{
    DocumentKey::from_string(path)
}

} // verus!
