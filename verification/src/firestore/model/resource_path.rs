//! Slash-separated resource paths such as `cities/sf/neighborhoods/downtown`.
use vstd::prelude::*;

use crate::firestore::error::{invalid_argument, FirestoreErrorCode, FirestoreResult};
use crate::text::{
    contains_char, has_doubled, has_doubled_char, is_blank, is_blank_str, join_strs, join_with,
    lemma_join_split, lemma_split_join, lemma_split_on_nonempty, split_on, split_str,
    string_views,
};

verus! {

/// The non-empty pieces of `parts`, in order.
pub open spec fn nonempty_pieces(parts: Seq<Seq<char>>) -> Seq<Seq<char>>
    decreases parts.len(),
{
    if parts.len() == 0 {
        parts
    } else {
        let r = nonempty_pieces(parts.drop_last());
        if parts.last().len() > 0 {
            r.push(parts.last())
        } else {
            r
        }
    }
}

/// The segments that `ResourcePath::from_string` reads out of `s`, or `None`
/// when `s` holds an empty segment between two slashes.
pub open spec fn parse_resource_path(s: Seq<char>) -> Option<Seq<Seq<char>>> {
    if is_blank(s) {
        Some(Seq::<Seq<char>>::empty())
    } else if has_doubled(s, '/') {
        None
    } else {
        Some(nonempty_pieces(split_on(s, '/')))
    }
}

/// The slash-joined rendering of a path.
pub open spec fn render_path(segments: Seq<Seq<char>>) -> Seq<char> {
    join_with(segments, seq!['/'])
}

/// A path whose segments are all non-empty and free of slashes.
pub open spec fn well_formed_segments(segments: Seq<Seq<char>>) -> bool {
    forall|i: int|
        0 <= i < segments.len() ==> (#[trigger] segments[i]).len() > 0 && !contains_char(
            segments[i],
            '/',
        )
}

/// An ordered list of path segments.
#[derive(Debug, PartialEq, Eq, Hash)]
pub struct ResourcePath {
    segments: Vec<String>,
}

impl View for ResourcePath {
    type V = Seq<Seq<char>>;

    closed spec fn view(&self) -> Seq<Seq<char>> {
        string_views(self.segments@)
    }
}

impl Clone for ResourcePath {
    fn clone(&self) -> (r: Self)
        ensures
            r@ == self@,
    {
        ResourcePath { segments: copy_strings(&self.segments) }
    }
}

/// A copy of a vector of strings.
pub fn copy_strings(v: &Vec<String>) -> (r: Vec<String>)
    ensures
        string_views(r@) == string_views(v@),
        r@.len() == v@.len(),
{
    let mut r: Vec<String> = Vec::new();
    let mut i: usize = 0;
    while i < v.len()
        invariant
            i <= v.len(),
            string_views(r@) =~= string_views(v@).take(i as int),
        decreases v.len() - i,
    {
        let ghost before = r@;
        r.push(v[i].clone());
        assert(string_views(r@) =~= string_views(before).push(v@[i as int]@));
        assert(string_views(v@).take(i + 1) =~= string_views(v@).take(i as int).push(v@[i as int]@));
        i = i + 1;
    }
    assert(string_views(v@).take(v.len() as int) =~= string_views(v@));
    assert(r@.len() == string_views(r@).len());
    r
}

/// Whether two vectors of strings hold the same strings.
pub fn strings_equal(a: &Vec<String>, b: &Vec<String>) -> (r: bool)
    ensures
        r == (string_views(a@) == string_views(b@)),
{
    if a.len() != b.len() {
        assert(string_views(a@).len() != string_views(b@).len());
        return false;
    }
    let mut i: usize = 0;
    while i < a.len()
        invariant
            i <= a.len(),
            a.len() == b.len(),
            forall|k: int| 0 <= k < i ==> a@[k]@ == b@[k]@,
        decreases a.len() - i,
    {
        if a[i] != b[i] {
            assert(string_views(a@)[i as int] != string_views(b@)[i as int]);
            return false;
        }
        i = i + 1;
    }
    assert(string_views(a@) =~= string_views(b@));
    true
}

proof fn lemma_nonempty_pieces_len(parts: Seq<Seq<char>>)
    ensures
        nonempty_pieces(parts).len() <= parts.len(),
        forall|i: int|
            0 <= i < nonempty_pieces(parts).len() ==> (#[trigger] nonempty_pieces(parts)[i]).len()
                > 0,
    decreases parts.len(),
{
    if parts.len() > 0 {
        lemma_nonempty_pieces_len(parts.drop_last());
    }
}

/// Keeping the non-empty pieces of a list whose pieces are all non-empty keeps
/// every piece.
proof fn lemma_nonempty_pieces_keep_all(parts: Seq<Seq<char>>)
    requires
        forall|i: int| 0 <= i < parts.len() ==> (#[trigger] parts[i]).len() > 0,
    ensures
        nonempty_pieces(parts) == parts,
    decreases parts.len(),
{
    if parts.len() > 0 {
        let init = parts.drop_last();
        assert forall|i: int| 0 <= i < init.len() implies (#[trigger] init[i]).len() > 0 by {
            assert(init[i] == parts[i]);
        }
        lemma_nonempty_pieces_keep_all(init);
        assert(parts.last() == parts[parts.len() - 1]);
        assert(init.push(parts.last()) =~= parts);
    }
}

/// In a string that neither starts with the separator nor holds it twice in a
/// row, every piece but the last is non-empty, and the last is empty exactly
/// when the string ends with the separator.
proof fn lemma_split_pieces_nonempty(s: Seq<char>, sep: char)
    requires
        s.len() > 0,
        s[0] != sep,
        !has_doubled(s, sep),
    ensures
        ({
            let r = split_on(s, sep);
            &&& forall|i: int| 0 <= i < r.len() - 1 ==> (#[trigger] r[i]).len() > 0
            &&& (r.last().len() == 0 <==> s.last() == sep)
        }),
    decreases s.len(),
{
    let p = s.drop_last();
    lemma_split_on_nonempty(p, sep);
    if p.len() == 0 {
        assert(s.last() == s[0]);
        assert(split_on(p, sep) =~= seq![Seq::<char>::empty()]);
    } else {
        assert(p[0] == s[0]);
        assert(!has_doubled(p, sep)) by {
            if has_doubled(p, sep) {
                let i = choose|i: int| 0 <= i && i + 1 < p.len() && #[trigger] p[i] == sep && p[i + 1] == sep;
                assert(s[i] == sep && s[i + 1] == sep);
            }
        }
        lemma_split_pieces_nonempty(p, sep);
        let r = split_on(p, sep);
        if s.last() == sep {
            assert(p.last() == s[s.len() - 2]);
            if p.last() == sep {
                assert(s[s.len() - 2] == sep && s[s.len() - 1] == sep);
                assert(has_doubled(s, sep));
            }
        }
    }
}

/// Every piece of a path string that does not start or end with a slash and
/// holds no empty segment is non-empty.
proof fn lemma_clean_path_pieces(s: Seq<char>)
    requires
        s.len() > 0,
        s[0] != '/',
        s.last() != '/',
        !has_doubled(s, '/'),
    ensures
        nonempty_pieces(split_on(s, '/')) == split_on(s, '/'),
{
    lemma_split_pieces_nonempty(s, '/');
    lemma_split_on_nonempty(s, '/');
    let r = split_on(s, '/');
    assert forall|i: int| 0 <= i < r.len() implies (#[trigger] r[i]).len() > 0 by {
        if i == r.len() - 1 {
            assert(r[i] == r.last());
        }
    }
    lemma_nonempty_pieces_keep_all(r);
}

/// Joining well-formed segments never puts two slashes side by side.
proof fn lemma_render_no_doubled(segments: Seq<Seq<char>>)
    requires
        well_formed_segments(segments),
    ensures
        !has_doubled(render_path(segments), '/'),
        segments.len() > 0 ==> render_path(segments).len() > 0 && render_path(segments)[0] != '/'
            && render_path(segments).last() != '/',
    decreases segments.len(),
{
    let j = render_path(segments);
    if segments.len() == 1 {
        assert(j == segments[0]);
        if has_doubled(j, '/') {
            let i = choose|i: int| 0 <= i && i + 1 < j.len() && #[trigger] j[i] == '/' && j[i + 1] == '/';
            assert(contains_char(segments[0], '/'));
        }
        assert(segments[0].len() > 0);
        if j[0] == '/' {
            assert(contains_char(segments[0], '/'));
        }
        if j.last() == '/' {
            assert(j[j.len() - 1] == '/');
            assert(contains_char(segments[0], '/'));
        }
    } else if segments.len() > 1 {
        let init = segments.drop_last();
        assert forall|i: int| 0 <= i < init.len() implies (#[trigger] init[i]).len() > 0
            && !contains_char(init[i], '/') by {
            assert(init[i] == segments[i]);
        }
        lemma_render_no_doubled(init);
        let a = render_path(init);
        let b = segments.last();
        assert(b == segments[segments.len() - 1]);
        assert(j == a + seq!['/'] + b);
        assert(b.len() > 0);
        assert(!has_doubled(j, '/')) by {
            if has_doubled(j, '/') {
                let i = choose|i: int| 0 <= i && i + 1 < j.len() && #[trigger] j[i] == '/' && j[i + 1] == '/';
                if i + 1 < a.len() {
                    assert(a[i] == '/' && a[i + 1] == '/');
                } else if i + 1 == a.len() {
                    assert(a[i] == '/');
                    assert(a.last() == a[i]);
                } else if i == a.len() {
                    assert(j[i + 1] == b[0]);
                    assert(contains_char(b, '/'));
                } else {
                    assert(j[i] == b[i - a.len() - 1]);
                    assert(j[i + 1] == b[i + 1 - a.len() - 1]);
                    assert(contains_char(b, '/'));
                }
            }
        }
        assert(j[0] == a[0]);
        assert(j.last() == b.last());
        if b.last() == '/' {
            assert(b[b.len() - 1] == '/');
            assert(contains_char(b, '/'));
        }
    }
}

impl ResourcePath {
    /// A path made of the given segments.
    pub fn new(segments: Vec<String>) -> (p: Self)
        ensures
            p@ == string_views(segments@),
    {
        ResourcePath { segments }
    }

    /// The empty path.
    pub fn root() -> (p: Self)
        ensures
            p@ == Seq::<Seq<char>>::empty(),
    {
        let p = ResourcePath { segments: Vec::new() };
        assert(p@ =~= Seq::<Seq<char>>::empty());
        p
    }

    /// A path made of the given segments.
    pub fn from_segments(segments: Vec<String>) -> (p: Self)
        ensures
            p@ == string_views(segments@),
    {
        Self::new(segments)
    }

    /// Parses a slash-separated path. A blank string is the root path; leading,
    /// trailing and repeated outer slashes are dropped, but an empty segment
    /// between two slashes (`a//b`) is refused.
    pub fn from_string(path: &str) -> (r: FirestoreResult<Self>)
        ensures
            match r {
                Ok(p) => parse_resource_path(path@) == Some(p@),
                Err(e) => parse_resource_path(path@) is None && e.code
                    == FirestoreErrorCode::InvalidArgument,
            },
    {
        if is_blank_str(path) {
            return Ok(Self::root());
        }
        if has_doubled_char(path, '/') {
            return Err(invalid_argument("Found empty segment in resource path"));
        }
        let pieces = split_str(path, '/');
        let ghost all = string_views(pieces@);
        let mut segments: Vec<String> = Vec::new();
        let mut i: usize = 0;
        while i < pieces.len()
            invariant
                i <= pieces.len(),
                all == string_views(pieces@),
                string_views(segments@) == nonempty_pieces(all.take(i as int)),
            decreases pieces.len() - i,
        {
            proof {
                assert(all.take(i + 1).drop_last() =~= all.take(i as int));
                assert(all.take(i + 1).last() == pieces@[i as int]@);
            }
            let ghost before = segments@;
            if pieces[i].unicode_len() > 0 {
                segments.push(pieces[i].clone());
                assert(string_views(segments@) =~= string_views(before).push(pieces@[i as int]@));
            }
            i = i + 1;
        }
        assert(all.take(pieces.len() as int) =~= all);
        Ok(ResourcePath { segments })
    }

    /// Number of segments.
    pub fn len(&self) -> (n: usize)
        ensures
            n == self@.len(),
    {
        self.segments.len()
    }

    /// Whether the path has no segments.
    pub fn is_empty(&self) -> (b: bool)
        ensures
            b == (self@.len() == 0),
    {
        self.segments.len() == 0
    }

    /// The segment at `index`, if there is one.
    pub fn segment(&self, index: usize) -> (r: Option<&str>)
        ensures
            match r {
                Some(s) => index < self@.len() && s@ == self@[index as int],
                None => index >= self@.len(),
            },
    {
        if index < self.segments.len() {
            Some(self.segments[index].as_str())
        } else {
            None
        }
    }

    /// This path extended by the given segments.
    pub fn child(&self, segments: Vec<String>) -> (p: Self)
        ensures
            p@ == self@ + string_views(segments@),
    {
        let mut new_segments = copy_strings(&self.segments);
        let mut i: usize = 0;
        while i < segments.len()
            invariant
                i <= segments.len(),
                string_views(new_segments@) =~= string_views(self.segments@) + string_views(
                    segments@,
                ).take(i as int),
            decreases segments.len() - i,
        {
            let ghost before = new_segments@;
            new_segments.push(segments[i].clone());
            assert(string_views(new_segments@) =~= string_views(before).push(segments@[i as int]@));
            assert(string_views(segments@).take(i + 1) =~= string_views(segments@).take(i as int).push(segments@[i as int]@));
            i = i + 1;
        }
        assert(string_views(segments@).take(segments.len() as int) =~= string_views(segments@));
        ResourcePath { segments: new_segments }
    }

    /// The path without its last segment, or `None` for the root path.
    pub fn pop_last(&self) -> (r: Option<Self>)
        ensures
            match r {
                Some(p) => self@.len() > 0 && p@ == self@.drop_last(),
                None => self@.len() == 0,
            },
    {
        if self.segments.len() == 0 {
            return None;
        }
        Some(self.without_last())
    }

    /// The path without its last segment (the root path stays the root path).
    pub fn without_last(&self) -> (p: Self)
        ensures
            self@.len() > 0 ==> p@ == self@.drop_last(),
            self@.len() == 0 ==> p@.len() == 0,
    {
        let mut segments = copy_strings(&self.segments);
        if segments.len() > 0 {
            let ghost before = segments@;
            segments.pop();
            assert(string_views(segments@) =~= string_views(before).drop_last());
        }
        ResourcePath { segments }
    }

    /// The last segment, if any.
    pub fn last_segment(&self) -> (r: Option<&str>)
        ensures
            match r {
                Some(s) => self@.len() > 0 && s@ == self@.last(),
                None => self@.len() == 0,
            },
    {
        if self.segments.len() == 0 {
            None
        } else {
            Some(self.segments[self.segments.len() - 1].as_str())
        }
    }

    /// The segments.
    pub fn as_vec(&self) -> (v: &Vec<String>)
        ensures
            string_views(v@) == self@,
    {
        &self.segments
    }

    /// The segments joined by `/`.
    pub fn canonical_string(&self) -> (s: String)
        ensures
            s@ == render_path(self@),
    {
        let s = join_strs(&self.segments, "/");
        proof {
            reveal_strlit("/");
            assert("/"@ =~= seq!['/']);
        }
        s
    }

    /// Whether two paths hold the same segments.
    pub fn equals(&self, other: &ResourcePath) -> (b: bool)
        ensures
            b == (self@ == other@),
    {
        strings_equal(&self.segments, &other.segments)
    }
}

/// Adding one segment and removing the last one gives the original path back.
pub proof fn lemma_child_then_pop(p: Seq<Seq<char>>, segment: Seq<char>)
    ensures
        (p + seq![segment]).drop_last() == p,
{
    assert((p + seq![segment]).drop_last() =~= p);
}

/// Rendering a path of non-empty, slash-free segments and parsing the result
/// gives the same segments back (unless the rendering is blank, which parses
/// as the root path).
pub proof fn lemma_parse_render(segments: Seq<Seq<char>>)
    requires
        well_formed_segments(segments),
        !is_blank(render_path(segments)),
    ensures
        parse_resource_path(render_path(segments)) == Some(segments),
{
    let j = render_path(segments);
    lemma_render_no_doubled(segments);
    if segments.len() == 0 {
        assert(j.len() == 0);
    } else {
        assert forall|i: int| 0 <= i < segments.len() implies !contains_char(
            #[trigger] segments[i],
            '/',
        ) by {}
        lemma_split_join(segments, '/');
        lemma_clean_path_pieces(j);
    }
}

/// Parsing a path string without outer slashes or empty segments and rendering
/// the result gives the original string back.
pub proof fn lemma_render_parse(s: Seq<char>)
    requires
        !is_blank(s),
        !has_doubled(s, '/'),
        s[0] != '/',
        s.last() != '/',
    ensures
        parse_resource_path(s) matches Some(segments) && render_path(segments) == s,
{
    assert(s.len() > 0) by {
        if s.len() == 0 {
            assert(is_blank(s));
        }
    }
    lemma_clean_path_pieces(s);
    lemma_join_split(s, '/');
}

} // verus!
