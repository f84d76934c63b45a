//! Dot-separated field paths such as `stats.visits`.
use vstd::prelude::*;

use crate::firestore::error::{invalid_argument, FirestoreErrorCode, FirestoreResult};
use crate::firestore::model::resource_path::{copy_strings, strings_equal};
use crate::text::{
    contains_char, is_blank, is_blank_str, join_strs, join_with, lemma_join_split,
    lemma_split_join, lemma_split_on_nonempty, owned, split_on, split_str, string_views,
};

verus! {

/// The dot-joined rendering of a field path.
pub open spec fn render_field_path(segments: Seq<Seq<char>>) -> Seq<char> {
    join_with(segments, seq!['.'])
}

/// The segments of the special field path that addresses a document's key.
pub open spec fn document_id_segments() -> Seq<Seq<char>> {
    seq!["__name__"@]
}

/// A non-empty list of field names addressing a (possibly nested) field.
#[derive(Debug, PartialEq, Eq, Hash)]
pub struct FieldPath {
    segments: Vec<String>,
}

impl View for FieldPath {
    type V = Seq<Seq<char>>;

    closed spec fn view(&self) -> Seq<Seq<char>> {
        string_views(self.segments@)
    }
}

impl FieldPath {
    #[verifier::type_invariant]
    spec fn has_segments(&self) -> bool {
        self.segments.len() > 0
    }

    /// Every field path has at least one segment.
    pub fn segment_count(&self) -> (n: usize)
        ensures
            n == self@.len(),
            n > 0,
    {
        proof {
            use_type_invariant(self);
        }
        self.segments.len()
    }

    /// A field path made of the given segments; an empty list is refused.
    pub fn new(segments: Vec<String>) -> (r: FirestoreResult<Self>)
        ensures
            match r {
                Ok(f) => segments@.len() > 0 && f@ == string_views(segments@),
                Err(e) => segments@.len() == 0 && e.code == FirestoreErrorCode::InvalidArgument,
            },
    {
        if segments.len() == 0 {
            return Err(invalid_argument("FieldPath must contain at least one segment"));
        }
        Ok(FieldPath { segments })
    }

    /// Parses a dot-separated path. Blank strings are refused; every other
    /// string is split at each `.` (empty pieces included).
    pub fn from_dot_separated(path: &str) -> (r: FirestoreResult<Self>)
        ensures
            match r {
                Ok(f) => !is_blank(path@) && f@ == split_on(path@, '.'),
                Err(e) => is_blank(path@) && e.code == FirestoreErrorCode::InvalidArgument,
            },
    {
        if is_blank_str(path) {
            return Err(invalid_argument("FieldPath string cannot be empty"));
        }
        let pieces = split_str(path, '.');
        proof {
            lemma_split_on_nonempty(path@, '.');
        }
        FieldPath::new(pieces)
    }

    /// The last segment.
    pub fn last_segment(&self) -> (r: &str)
        ensures
            self@.len() > 0,
            r@ == self@.last(),
    {
        proof {
            use_type_invariant(self);
        }
        self.segments[self.segments.len() - 1].as_str()
    }

    /// The segments.
    pub fn segments(&self) -> (r: &Vec<String>)
        ensures
            string_views(r@) == self@,
            r@.len() > 0,
    {
        proof {
            use_type_invariant(self);
        }
        &self.segments
    }

    /// The segments joined by `.`.
    pub fn canonical_string(&self) -> (s: String)
        ensures
            s@ == render_field_path(self@),
    {
        let s = join_strs(&self.segments, ".");
        proof {
            reveal_strlit(".");
            assert("."@ =~= seq!['.']);
        }
        s
    }

    /// A copy of the segments.
    pub fn to_vec(&self) -> (v: Vec<String>)
        ensures
            string_views(v@) == self@,
    {
        copy_strings(&self.segments)
    }

    /// The path `__name__`, which addresses a document's key.
    pub fn document_id() -> (f: Self)
        ensures
            f@ == document_id_segments(),
    {
        let mut segments: Vec<String> = Vec::new();
        segments.push(owned("__name__"));
        let f = FieldPath { segments };
        assert(f@ =~= document_id_segments());
        f
    }

    /// Whether two field paths hold the same segments.
    pub fn equals(&self, other: &FieldPath) -> (b: bool)
        ensures
            b == (self@ == other@),
    {
        strings_equal(&self.segments, &other.segments)
    }

    /// Whether this is the `__name__` path.
    pub fn is_document_id(&self) -> (b: bool)
        ensures
            b == (self@ == document_id_segments()),
    {
        let doc = FieldPath::document_id();
        self.equals(&doc)
    }
}

impl Clone for FieldPath {
    fn clone(&self) -> (r: Self)
        ensures
            r@ == self@,
    {
        proof {
            use_type_invariant(self);
        }
        FieldPath { segments: copy_strings(&self.segments) }
    }
}

/// Conversion of user input into a validated field path.
pub trait IntoFieldPath {
    fn into_field_path(self) -> FirestoreResult<FieldPath>;
}

impl IntoFieldPath for FieldPath {
    fn into_field_path(self) -> (r: FirestoreResult<FieldPath>)
        ensures
            r matches Ok(f) && f@ == self@,
    {
        Ok(self)
    }
}

impl<'a> IntoFieldPath for &'a FieldPath {
    fn into_field_path(self) -> (r: FirestoreResult<FieldPath>)
        ensures
            r matches Ok(f) && f@ == self@,
    {
        Ok(self.clone())
    }
}

impl IntoFieldPath for String {
    fn into_field_path(self) -> (r: FirestoreResult<FieldPath>)
        ensures
            match r {
                Ok(f) => !is_blank(self@) && f@ == split_on(self@, '.'),
                Err(e) => is_blank(self@) && e.code == FirestoreErrorCode::InvalidArgument,
            },
    {
        FieldPath::from_dot_separated(self.as_str())
    }
}

impl<'a> IntoFieldPath for &'a str {
    fn into_field_path(self) -> (r: FirestoreResult<FieldPath>)
        ensures
            match r {
                Ok(f) => !is_blank(self@) && f@ == split_on(self@, '.'),
                Err(e) => is_blank(self@) && e.code == FirestoreErrorCode::InvalidArgument,
            },
    {
        FieldPath::from_dot_separated(self)
    }
}

/// Rendering a field path and parsing the result gives the same segments back,
/// when no segment holds a dot and the rendering is not blank.
pub proof fn lemma_field_path_parse_render(segments: Seq<Seq<char>>)
    requires
        segments.len() > 0,
        forall|i: int| 0 <= i < segments.len() ==> !contains_char(#[trigger] segments[i], '.'),
        !is_blank(render_field_path(segments)),
    ensures
        split_on(render_field_path(segments), '.') == segments,
{
    lemma_split_join(segments, '.');
}

/// Parsing any non-blank string as a field path and rendering the result gives
/// the string back.
pub proof fn lemma_field_path_render_parse(s: Seq<char>)
    ensures
        render_field_path(split_on(s, '.')) == s,
{
    lemma_join_split(s, '.');
}

} // verus!
