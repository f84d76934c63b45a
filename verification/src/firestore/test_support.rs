//! Paths built from literal segments, for tests and examples.
use vstd::prelude::*;

use crate::firestore::error::{FirestoreErrorCode, FirestoreResult};
use crate::firestore::model::{FieldPath, ResourcePath};
use crate::text::{owned, split_on, split_str, string_views};

verus! {

/// The texts of a list of string slices.
pub open spec fn str_views(v: Seq<&str>) -> Seq<Seq<char>> {
    v.map_values(|s: &str| s@)
}

/// Owned copies of the given slices.
fn owned_all(segments: &[&str]) -> (r: Vec<String>)
    ensures
        string_views(r@) == str_views(segments@),
        r@.len() == segments@.len(),
{
    let mut r: Vec<String> = Vec::new();
    let mut i: usize = 0;
    while i < segments.len()
        invariant
            i <= segments@.len(),
            string_views(r@) == str_views(segments@).take(i as int),
            r@.len() == i,
        decreases segments@.len() - i,
    {
        let ghost before = r@;
        let s = owned(segments[i]);
        r.push(s);
        assert(string_views(r@) =~= string_views(before).push(segments@[i as int]@));
        assert(str_views(segments@).take(i + 1) =~= str_views(segments@).take(i as int).push(segments@[i as int]@));
        i = i + 1;
    }
    assert(str_views(segments@).take(segments@.len() as int) =~= str_views(segments@));
    r
}

/// The resource path made of the given segments.
pub fn resource_path(segments: &[&str]) -> (p: ResourcePath)
    ensures
        p@ == str_views(segments@),
{
    ResourcePath::from_segments(owned_all(segments))
}

/// The field path made of the given segments; an empty list is refused.
pub fn field_path(segments: &[&str]) -> (r: FirestoreResult<FieldPath>)
    ensures
        match r {
            Ok(f) => segments@.len() > 0 && f@ == str_views(segments@),
            Err(e) => segments@.len() == 0 && e.code == FirestoreErrorCode::InvalidArgument,
        },
{
    FieldPath::new(owned_all(segments))
}

/// The resource path made of the pieces of `path` between slashes, empty
/// pieces included.
pub fn split_resource_path(path: &str) -> (p: ResourcePath)
    ensures
        p@ == split_on(path@, '/'),
{
    ResourcePath::from_segments(split_str(path, '/'))
}

} // verus!
