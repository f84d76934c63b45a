//! Keys of documents: resource paths with an even, non-zero number of
//! segments (collection/document pairs), ordered segment by segment.
use vstd::prelude::*;

use crate::firestore::error::{invalid_argument, FirestoreErrorCode, FirestoreResult};
use crate::firestore::model::resource_path::{parse_resource_path, ResourcePath};
use crate::text::{compare_str, lemma_seq_lt_irreflexive, lemma_seq_lt_total, lemma_seq_lt_transitive, seq_lt, string_views, Order};

verus! {

/// Whether a path addresses a document.
pub open spec fn is_document_path(segments: Seq<Seq<char>>) -> bool {
    segments.len() >= 2 && segments.len() % 2 == 0
}

/// The path of a document.
#[derive(Debug, PartialEq, Eq, Hash)]
pub struct DocumentKey {
    path: ResourcePath,
}

impl View for DocumentKey {
    type V = Seq<Seq<char>>;

    closed spec fn view(&self) -> Seq<Seq<char>> {
        self.path@
    }
}

impl DocumentKey {
    #[verifier::type_invariant]
    spec fn addresses_document(&self) -> bool {
        is_document_path(self.path@)
    }

    /// Every key addresses a document.
    pub fn segment_count(&self) -> (n: usize)
        ensures
            n == self@.len(),
            is_document_path(self@),
    {
        proof {
            use_type_invariant(self);
        }
        self.path.len()
    }

    /// The key of the document at `path`; paths with an odd or zero number of
    /// segments are refused.
    pub fn from_path(path: ResourcePath) -> (r: FirestoreResult<Self>)
        ensures
            match r {
                Ok(k) => is_document_path(path@) && k@ == path@,
                Err(e) => !is_document_path(path@) && e.code == FirestoreErrorCode::InvalidArgument,
            },
    {
        if path.len() < 2 || path.len() % 2 != 0 {
            return Err(
                invalid_argument("Document keys must point to a document (even number of segments)"),
            );
        }
        Ok(DocumentKey { path })
    }

    /// Parses a slash-separated document path.
    pub fn from_string(path: &str) -> (r: FirestoreResult<Self>)
        ensures
            match r {
                Ok(k) => parse_resource_path(path@) == Some(k@) && is_document_path(k@),
                Err(e) => e.code == FirestoreErrorCode::InvalidArgument && match parse_resource_path(path@) {
                    Some(p) => !is_document_path(p),
                    None => true,
                },
            },
    {
        let resource = ResourcePath::from_string(path)?;
        Self::from_path(resource)
    }

    /// The path of the collection that holds the document.
    pub fn collection_path(&self) -> (p: ResourcePath)
        ensures
            p@ == self@.drop_last(),
            is_document_path(self@),
    {
        proof {
            use_type_invariant(self);
        }
        self.path.without_last()
    }

    /// The document's full path.
    pub fn path(&self) -> (p: &ResourcePath)
        ensures
            p@ == self@,
            is_document_path(self@),
    {
        proof {
            use_type_invariant(self);
        }
        &self.path
    }

    /// The document's identifier: the last segment of its path.
    pub fn id(&self) -> (r: &str)
        ensures
            r@ == self@.last(),
            is_document_path(self@),
    {
        proof {
            use_type_invariant(self);
        }
        match self.path.last_segment() {
            Some(s) => s,
            None => {
                assert(false);
                ""
            },
        }
    }

    /// Whether two keys address the same document.
    pub fn equals(&self, other: &DocumentKey) -> (b: bool)
        ensures
            b == (self@ == other@),
    {
        self.path.equals(&other.path)
    }
}

impl Clone for DocumentKey {
    fn clone(&self) -> (r: Self)
        ensures
            r@ == self@,
    {
        proof {
            use_type_invariant(self);
        }
        DocumentKey { path: self.path.clone() }
    }
}

/// A key's collection path followed by its identifier is the key's path.
pub proof fn lemma_collection_and_id(key: Seq<Seq<char>>)
    requires
        is_document_path(key),
    ensures
        key.drop_last().push(key.last()) == key,
        is_document_path(key) ==> key.drop_last().len() % 2 == 1,
{
    assert(key.drop_last().push(key.last()) =~= key);
}

/// The order of paths: segment by segment, each segment in the order of
/// `str`; a path comes before every longer path it begins.
pub open spec fn path_lt(a: Seq<Seq<char>>, b: Seq<Seq<char>>) -> bool
    decreases a.len(),
{
    if a.len() == 0 {
        b.len() > 0
    } else if b.len() == 0 {
        false
    } else if a[0] != b[0] {
        seq_lt(a[0], b[0])
    } else {
        path_lt(a.drop_first(), b.drop_first())
    }
}

/// No path comes before itself.
pub proof fn lemma_path_lt_irreflexive(a: Seq<Seq<char>>)
    ensures
        !path_lt(a, a),
    decreases a.len(),
{
    if a.len() > 0 {
        lemma_path_lt_irreflexive(a.drop_first());
    }
}

/// Of two different paths exactly one comes first.
pub proof fn lemma_path_lt_total(a: Seq<Seq<char>>, b: Seq<Seq<char>>)
    ensures
        a == b || path_lt(a, b) || path_lt(b, a),
        !(path_lt(a, b) && path_lt(b, a)),
    decreases a.len(),
{
    if a.len() > 0 && b.len() > 0 {
        if a[0] == b[0] {
            lemma_path_lt_total(a.drop_first(), b.drop_first());
            if a.drop_first() == b.drop_first() {
                assert forall|i: int| 0 <= i < a.len() implies a[i] == b[i] by {
                    if i > 0 {
                        assert(a[i] == a.drop_first()[i - 1]);
                        assert(b[i] == b.drop_first()[i - 1]);
                    }
                }
                assert(a =~= b);
            }
        } else {
            lemma_seq_lt_total(a[0], b[0]);
        }
    } else if a.len() == 0 && b.len() == 0 {
        assert(a =~= b);
    }
}

/// The order of paths is transitive.
pub proof fn lemma_path_lt_transitive(a: Seq<Seq<char>>, b: Seq<Seq<char>>, c: Seq<Seq<char>>)
    requires
        path_lt(a, b),
        path_lt(b, c),
    ensures
        path_lt(a, c),
    decreases a.len(),
{
    if a.len() > 0 && b.len() > 0 && c.len() > 0 {
        if a[0] == b[0] && b[0] == c[0] {
            lemma_path_lt_transitive(a.drop_first(), b.drop_first(), c.drop_first());
        } else if a[0] != b[0] && b[0] != c[0] {
            lemma_seq_lt_transitive(a[0], b[0], c[0]);
            if a[0] == c[0] {
                lemma_seq_lt_total(a[0], b[0]);
            }
        }
    }
}

impl DocumentKey {
    /// Whether this key's path comes before `other`'s.
    pub fn comes_before(&self, other: &DocumentKey) -> (r: bool)
        ensures
            r == path_lt(self@, other@),
    {
        let a = self.path().as_vec();
        let b = other.path().as_vec();
        let ghost av = string_views(a@);
        let ghost bv = string_views(b@);
        assert(av.skip(0) =~= av);
        assert(bv.skip(0) =~= bv);
        let mut i: usize = 0;
        while i < a.len() && i < b.len()
            invariant
                av == string_views(a@),
                bv == string_views(b@),
                av == self@,
                bv == other@,
                i <= a@.len(),
                i <= b@.len(),
                path_lt(av, bv) == path_lt(av.skip(i as int), bv.skip(i as int)),
            decreases a@.len() - i,
        {
            let order = compare_str(a[i].as_str(), b[i].as_str());
            proof {
                assert(av.skip(i as int)[0] == a@[i as int]@);
                assert(bv.skip(i as int)[0] == b@[i as int]@);
                assert(av.skip(i as int).drop_first() =~= av.skip(i + 1));
                assert(bv.skip(i as int).drop_first() =~= bv.skip(i + 1));
            }
            match order {
                Order::Less => {
                    proof {
                        lemma_seq_lt_irreflexive(a@[i as int]@);
                    }
                    return true;
                },
                Order::Greater => {
                    proof {
                        lemma_seq_lt_total(a@[i as int]@, b@[i as int]@);
                    }
                    return false;
                },
                Order::Equal => {},
            }
            i = i + 1;
        }
        i == a.len() && i < b.len()
    }
}

} // verus!
