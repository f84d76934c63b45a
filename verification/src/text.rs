//! Character-level string helpers shared by the path and key types.
//!
//! Strings are reasoned about through their `Seq<char>` views. Splitting and
//! joining are given recursive specifications that follow the same left-to-right
//! scan as the executable loops, and the laws relating them are proved here.
use vstd::prelude::*;

verus! {

/// The pieces of `s` between occurrences of `sep`, exactly as `str::split`
/// with a `char` pattern produces them (empty pieces included).
pub open spec fn split_on(s: Seq<char>, sep: char) -> Seq<Seq<char>>
    decreases s.len(),
{
    if s.len() == 0 {
        seq![Seq::<char>::empty()]
    } else {
        let r = split_on(s.drop_last(), sep);
        if s.last() == sep {
            r.push(Seq::<char>::empty())
        } else {
            r.update(r.len() - 1, r.last().push(s.last()))
        }
    }
}

/// The concatenation of `parts` with `sep` between consecutive parts, as
/// `[String]::join` computes it.
pub open spec fn join_with(parts: Seq<Seq<char>>, sep: Seq<char>) -> Seq<char>
    decreases parts.len(),
{
    if parts.len() == 0 {
        Seq::<char>::empty()
    } else if parts.len() == 1 {
        parts[0]
    } else {
        join_with(parts.drop_last(), sep) + sep + parts.last()
    }
}

/// The views of a sequence of owned strings.
pub open spec fn string_views(v: Seq<String>) -> Seq<Seq<char>> {
    v.map_values(|p: String| p@)
}

/// `char::is_whitespace`: the Unicode `White_Space` property.
pub open spec fn is_whitespace_char(c: char) -> bool {
    ||| c == '\t'
    ||| c == '\n'
    ||| c == '\u{0B}'
    ||| c == '\u{0C}'
    ||| c == '\r'
    ||| c == ' '
    ||| c == '\u{85}'
    ||| c == '\u{A0}'
    ||| c == '\u{1680}'
    ||| ('\u{2000}' <= c && c <= '\u{200A}')
    ||| c == '\u{2028}'
    ||| c == '\u{2029}'
    ||| c == '\u{202F}'
    ||| c == '\u{205F}'
    ||| c == '\u{3000}'
}

/// Holds exactly when `s.trim()` is empty.
pub open spec fn is_blank(s: Seq<char>) -> bool {
    forall|i: int| 0 <= i < s.len() ==> is_whitespace_char(#[trigger] s[i])
}

/// Holds when `s` contains `c` twice in a row.
pub open spec fn has_doubled(s: Seq<char>, c: char) -> bool {
    exists|i: int| 0 <= i && i + 1 < s.len() && #[trigger] s[i] == c && s[i + 1] == c
}

/// Holds when `s` contains the character `c`.
pub open spec fn contains_char(s: Seq<char>, c: char) -> bool {
    exists|i: int| 0 <= i < s.len() && #[trigger] s[i] == c
}

pub proof fn lemma_split_on_nonempty(s: Seq<char>, sep: char)
    ensures
        split_on(s, sep).len() >= 1,
    decreases s.len(),
{
    if s.len() > 0 {
        lemma_split_on_nonempty(s.drop_last(), sep);
    }
}

/// Joining the pieces of a split gives the original string back.
pub proof fn lemma_join_split(s: Seq<char>, sep: char)
    ensures
        join_with(split_on(s, sep), seq![sep]) == s,
    decreases s.len(),
{
    if s.len() > 0 {
        let p = s.drop_last();
        lemma_join_split(p, sep);
        lemma_split_on_nonempty(p, sep);
        let r = split_on(p, sep);
        if s.last() == sep {
            let r2 = r.push(Seq::<char>::empty());
            assert(r2.drop_last() =~= r);
            assert(join_with(r2, seq![sep]) =~= s);
        } else {
            let r2 = r.update(r.len() - 1, r.last().push(s.last()));
            if r.len() == 1 {
                assert(r2[0] =~= s);
            } else {
                assert(r2.drop_last() =~= r.drop_last());
                assert(join_with(r, seq![sep]) == join_with(r.drop_last(), seq![sep]) + seq![sep]
                    + r.last());
                assert(join_with(r2, seq![sep]) =~= join_with(r, seq![sep]).push(s.last()));
            }
        }
    }
}

/// Appending one more part to a join.
pub proof fn lemma_join_push(parts: Seq<Seq<char>>, x: Seq<char>, sep: Seq<char>)
    requires
        parts.len() >= 1,
    ensures
        join_with(parts.push(x), sep) == join_with(parts, sep) + sep + x,
{
    assert(parts.push(x).drop_last() =~= parts);
}

/// Splitting a join of separator-free parts gives the parts back.
pub proof fn lemma_split_join(parts: Seq<Seq<char>>, sep: char)
    requires
        parts.len() >= 1,
        forall|i: int| 0 <= i < parts.len() ==> !contains_char(#[trigger] parts[i], sep),
    ensures
        split_on(join_with(parts, seq![sep]), sep) == parts,
    decreases parts.len(),
{
    if parts.len() == 1 {
        lemma_split_no_sep(parts[0], sep);
        assert(split_on(parts[0], sep) =~= parts);
    } else {
        let init = parts.drop_last();
        assert forall|i: int| 0 <= i < init.len() implies !contains_char(#[trigger] init[i], sep) by {
            assert(init[i] == parts[i]);
        }
        lemma_split_join(init, sep);
        let j = join_with(init, seq![sep]);
        assert(!contains_char(parts.last(), sep)) by {
            assert(parts.last() == parts[parts.len() - 1]);
        }
        lemma_split_append_sep(j, parts.last(), sep);
        assert(join_with(parts, seq![sep]) == j + seq![sep] + parts.last());
        assert(init.push(parts.last()) =~= parts);
    }
}

/// A string free of the separator splits into itself alone.
pub proof fn lemma_split_no_sep(s: Seq<char>, sep: char)
    requires
        !contains_char(s, sep),
    ensures
        split_on(s, sep) == seq![s],
    decreases s.len(),
{
    if s.len() == 0 {
        assert(s =~= Seq::<char>::empty());
        assert(split_on(s, sep) =~= seq![s]);
    } else {
        let p = s.drop_last();
        assert(!contains_char(p, sep)) by {
            if contains_char(p, sep) {
                let i = choose|i: int| 0 <= i < p.len() && #[trigger] p[i] == sep;
                assert(s[i] == sep);
            }
        }
        lemma_split_no_sep(p, sep);
        assert(s.last() == s[s.len() - 1]);
        assert(s.last() != sep);
        assert(p.push(s.last()) =~= s);
        assert(split_on(s, sep) =~= seq![s]);
    }
}

/// Splitting `a + [sep] + b`, where `b` is free of the separator.
pub proof fn lemma_split_append_sep(a: Seq<char>, b: Seq<char>, sep: char)
    requires
        !contains_char(b, sep),
    ensures
        split_on(a + seq![sep] + b, sep) == split_on(a, sep).push(b),
    decreases b.len(),
{
    if b.len() == 0 {
        assert(b =~= Seq::<char>::empty());
        assert((a + seq![sep] + b).drop_last() =~= a);
        assert(a + seq![sep] + b =~= a.push(sep));
    } else {
        let bp = b.drop_last();
        assert(!contains_char(bp, sep)) by {
            if contains_char(bp, sep) {
                let i = choose|i: int| 0 <= i < bp.len() && #[trigger] bp[i] == sep;
                assert(b[i] == sep);
            }
        }
        lemma_split_append_sep(a, bp, sep);
        let s = a + seq![sep] + b;
        assert(s.drop_last() =~= a + seq![sep] + bp);
        assert(s.last() == b[b.len() - 1]);
        assert(b.last() == b[b.len() - 1]);
        lemma_split_on_nonempty(a, sep);
        assert(bp.push(b.last()) =~= b);
        assert(split_on(s, sep) =~= split_on(a, sep).push(b));
    }
}

/// `char::is_whitespace`.
pub fn is_whitespace(c: char) -> (r: bool)
    ensures
        r == is_whitespace_char(c),
{
    c == '\t' || c == '\n' || c == '\u{0B}' || c == '\u{0C}' || c == '\r' || c == ' ' || c
        == '\u{85}' || c == '\u{A0}' || c == '\u{1680}' || ('\u{2000}' <= c && c <= '\u{200A}')
        || c == '\u{2028}' || c == '\u{2029}' || c == '\u{202F}' || c == '\u{205F}' || c
        == '\u{3000}'
}

/// Whether `s.trim()` is empty.
pub fn is_blank_str(s: &str) -> (r: bool)
    ensures
        r == is_blank(s@),
{
    let n = s.unicode_len();
    let mut i: usize = 0;
    while i < n
        invariant
            n == s@.len(),
            i <= n,
            forall|k: int| 0 <= k < i ==> is_whitespace_char(#[trigger] s@[k]),
        decreases n - i,
    {
        if !is_whitespace(s.get_char(i)) {
            return false;
        }
        i = i + 1;
    }
    true
}

/// Whether `s` contains `c` twice in a row.
pub fn has_doubled_char(s: &str, c: char) -> (r: bool)
    ensures
        r == has_doubled(s@, c),
{
    let n = s.unicode_len();
    if n < 2 {
        return false;
    }
    let mut i: usize = 0;
    while i + 1 < n
        invariant
            n == s@.len(),
            n >= 2,
            i + 1 <= n,
            forall|k: int| 0 <= k < i ==> !(#[trigger] s@[k] == c && s@[k + 1] == c),
        decreases n - i,
    {
        if s.get_char(i) == c && s.get_char(i + 1) == c {
            return true;
        }
        i = i + 1;
    }
    false
}

/// Whether `s` contains `c`.
pub fn contains_char_str(s: &str, c: char) -> (r: bool)
    ensures
        r == contains_char(s@, c),
{
    let n = s.unicode_len();
    let mut i: usize = 0;
    while i < n
        invariant
            n == s@.len(),
            i <= n,
            forall|k: int| 0 <= k < i ==> #[trigger] s@[k] != c,
        decreases n - i,
    {
        if s.get_char(i) == c {
            return true;
        }
        i = i + 1;
    }
    false
}

/// `s.split(sep)` collected into owned strings.
pub fn split_str(s: &str, sep: char) -> (parts: Vec<String>)
    ensures
        string_views(parts@) == split_on(s@, sep),
{
    let n = s.unicode_len();
    let mut parts: Vec<String> = Vec::new();
    let mut start: usize = 0;
    let mut i: usize = 0;
    assert(s@.take(0) =~= Seq::<char>::empty());
    assert(string_views(parts@).push(s@.subrange(0, 0)) =~= seq![Seq::<char>::empty()]);
    while i < n
        invariant
            n == s@.len(),
            start <= i <= n,
            string_views(parts@).push(s@.subrange(start as int, i as int)) == split_on(
                s@.take(i as int),
                sep,
            ),
        decreases n - i,
    {
        let c = s.get_char(i);
        let ghost before = parts@;
        proof {
            assert(s@.take(i + 1).drop_last() =~= s@.take(i as int));
            assert(s@.take(i + 1).last() == c);
            lemma_split_on_nonempty(s@.take(i as int), sep);
        }
        if c == sep {
            let piece = String::from_str(s.substring_char(start, i));
            parts.push(piece);
            proof {
                assert(string_views(parts@) =~= string_views(before).push(
                    s@.subrange(start as int, i as int),
                ));
                assert(s@.subrange(i + 1, i + 1) =~= Seq::<char>::empty());
            }
            start = i + 1;
        } else {
            proof {
                let r = split_on(s@.take(i as int), sep);
                assert(s@.subrange(start as int, i + 1) =~= s@.subrange(
                    start as int,
                    i as int,
                ).push(c));
                assert(string_views(parts@).push(s@.subrange(start as int, i + 1)) =~= r.update(
                    r.len() - 1,
                    r.last().push(c),
                ));
            }
        }
        i = i + 1;
    }
    let ghost before = parts@;
    let piece = String::from_str(s.substring_char(start, n));
    parts.push(piece);
    proof {
        assert(s@.take(n as int) =~= s@);
        assert(string_views(parts@) =~= string_views(before).push(
            s@.subrange(start as int, n as int),
        ));
    }
    parts
}

/// `parts.join(sep)`.
pub fn join_strs(parts: &Vec<String>, sep: &str) -> (r: String)
    ensures
        r@ == join_with(string_views(parts@), sep@),
{
    let ghost views = string_views(parts@);
    let mut r = String::new();
    let mut i: usize = 0;
    while i < parts.len()
        invariant
            i <= parts.len(),
            views == string_views(parts@),
            r@ == join_with(views.take(i as int), sep@),
        decreases parts.len() - i,
    {
        proof {
            assert(views.take(i + 1).drop_last() =~= views.take(i as int));
            assert(views.take(i + 1).last() == parts@[i as int]@);
        }
        if i > 0 {
            r.append(sep);
        } else {
            assert(views.take(1) =~= seq![parts@[0]@]);
        }
        r.append(parts[i].as_str());
        i = i + 1;
    }
    proof {
        assert(views.take(parts.len() as int) =~= views);
    }
    r
}

/// A `String` holding exactly the characters of `s`.
pub fn owned(s: &str) -> (r: String)
    ensures
        r@ == s@,
{
    String::from_str(s)
}


/// Three-way result of comparing two values.
#[derive(Clone, Copy, Debug, PartialEq, Eq, Structural)]
pub enum Order {
    Less,
    Equal,
    Greater,
}

/// The order with sides swapped.
pub open spec fn flip(o: Order) -> Order {
    match o {
        Order::Less => Order::Greater,
        Order::Equal => Order::Equal,
        Order::Greater => Order::Less,
    }
}

impl Order {
    /// The order with sides swapped.
    pub fn reverse(self) -> (r: Order)
        ensures
            r == flip(self),
    {
        match self {
            Order::Less => Order::Greater,
            Order::Equal => Order::Equal,
            Order::Greater => Order::Less,
        }
    }
}

/// Lexicographic "less than" on character sequences: the order of `str`,
/// whose byte order under UTF-8 matches the order of code points.
pub open spec fn seq_lt(a: Seq<char>, b: Seq<char>) -> bool
    decreases a.len(),
{
    if a.len() == 0 {
        b.len() > 0
    } else if b.len() == 0 {
        false
    } else if a[0] != b[0] {
        a[0] < b[0]
    } else {
        seq_lt(a.drop_first(), b.drop_first())
    }
}

/// Three-way lexicographic comparison.
pub open spec fn seq_order(a: Seq<char>, b: Seq<char>) -> Order {
    if a == b {
        Order::Equal
    } else if seq_lt(a, b) {
        Order::Less
    } else {
        Order::Greater
    }
}

pub proof fn lemma_seq_lt_irreflexive(a: Seq<char>)
    ensures
        !seq_lt(a, a),
    decreases a.len(),
{
    if a.len() > 0 {
        lemma_seq_lt_irreflexive(a.drop_first());
    }
}

pub proof fn lemma_seq_lt_total(a: Seq<char>, b: Seq<char>)
    ensures
        a == b || seq_lt(a, b) || seq_lt(b, a),
        !(seq_lt(a, b) && seq_lt(b, a)),
    decreases a.len(),
{
    if a.len() > 0 && b.len() > 0 && a[0] == b[0] {
        lemma_seq_lt_total(a.drop_first(), b.drop_first());
        if a.drop_first() == b.drop_first() {
            assert forall|i: int| 0 <= i < a.len() implies a[i] == b[i] by {
                if i > 0 {
                    assert(a[i] == a.drop_first()[i - 1]);
                    assert(b[i] == b.drop_first()[i - 1]);
                }
            }
            assert(a =~= b);
        }
    } else if a.len() == 0 && b.len() == 0 {
        assert(a =~= b);
    }
}

pub proof fn lemma_seq_lt_transitive(a: Seq<char>, b: Seq<char>, c: Seq<char>)
    requires
        seq_lt(a, b),
        seq_lt(b, c),
    ensures
        seq_lt(a, c),
    decreases a.len(),
{
    if a.len() > 0 && b.len() > 0 && c.len() > 0 && a[0] == b[0] && b[0] == c[0] {
        lemma_seq_lt_transitive(a.drop_first(), b.drop_first(), c.drop_first());
    }
}

/// Three-way lexicographic comparison of two strings.
pub fn compare_str(a: &str, b: &str) -> (r: Order)
    ensures
        r == seq_order(a@, b@),
{
    let n = a.unicode_len();
    let m = b.unicode_len();
    let mut i: usize = 0;
    assert(a@.skip(0) =~= a@);
    assert(b@.skip(0) =~= b@);
    while i < n && i < m
        invariant
            n == a@.len(),
            m == b@.len(),
            i <= n,
            i <= m,
            a@.take(i as int) == b@.take(i as int),
            seq_order(a@, b@) == seq_order(a@.skip(i as int), b@.skip(i as int)),
        decreases n - i,
    {
        let x = a.get_char(i);
        let y = b.get_char(i);
        proof {
            lemma_seq_order_step(a@.skip(i as int), b@.skip(i as int));
            assert(a@.skip(i as int)[0] == x);
            assert(b@.skip(i as int)[0] == y);
            assert(a@.skip(i as int).drop_first() =~= a@.skip(i + 1));
            assert(b@.skip(i as int).drop_first() =~= b@.skip(i + 1));
        }
        if x < y {
            return Order::Less;
        }
        if y < x {
            return Order::Greater;
        }
        assert(a@.take(i + 1) =~= a@.take(i as int).push(x));
        assert(b@.take(i + 1) =~= b@.take(i as int).push(y));
        i = i + 1;
    }
    proof {
        lemma_seq_order_step(a@.skip(i as int), b@.skip(i as int));
        if i == n && i == m {
            assert(a@ =~= a@.take(i as int));
            assert(b@ =~= b@.take(i as int));
        }
    }
    if i == n && i == m {
        Order::Equal
    } else if i == n {
        Order::Less
    } else {
        Order::Greater
    }
}

/// One step of the lexicographic comparison.
proof fn lemma_seq_order_step(a: Seq<char>, b: Seq<char>)
    ensures
        a.len() == 0 && b.len() == 0 ==> seq_order(a, b) == Order::Equal,
        a.len() == 0 && b.len() > 0 ==> seq_order(a, b) == Order::Less,
        a.len() > 0 && b.len() == 0 ==> seq_order(a, b) == Order::Greater,
        a.len() > 0 && b.len() > 0 && a[0] < b[0] ==> seq_order(a, b) == Order::Less,
        a.len() > 0 && b.len() > 0 && b[0] < a[0] ==> seq_order(a, b) == Order::Greater,
        a.len() > 0 && b.len() > 0 && a[0] == b[0] ==> seq_order(a, b) == seq_order(
            a.drop_first(),
            b.drop_first(),
        ),
{
    lemma_seq_lt_total(a, b);
    if a.len() == 0 && b.len() == 0 {
        assert(a =~= b);
    }
    if a.len() > 0 && b.len() > 0 && a[0] == b[0] {
        if a.drop_first() =~= b.drop_first() {
            assert forall|i: int| 0 <= i < a.len() implies a[i] == b[i] by {
                if i > 0 {
                    assert(a[i] == a.drop_first()[i - 1]);
                    assert(b[i] == b.drop_first()[i - 1]);
                }
            }
            assert(a =~= b);
        }
        if a == b {
            assert(a.drop_first() =~= b.drop_first());
        }
    }
}

/// Whether `s` starts with `prefix`.
pub fn starts_with_str(s: &str, prefix: &str) -> (r: bool)
    ensures
        r == (prefix@.len() <= s@.len() && s@.take(prefix@.len() as int) == prefix@),
{
    let n = s.unicode_len();
    let m = prefix.unicode_len();
    if m > n {
        return false;
    }
    let mut i: usize = 0;
    while i < m
        invariant
            n == s@.len(),
            m == prefix@.len(),
            m <= n,
            i <= m,
            forall|k: int| 0 <= k < i ==> s@[k] == prefix@[k],
        decreases m - i,
    {
        if s.get_char(i) != prefix.get_char(i) {
            assert(s@.take(m as int)[i as int] != prefix@[i as int]);
            return false;
        }
        i = i + 1;
    }
    assert(s@.take(m as int) =~= prefix@);
    true
}

/// Whether two string slices hold the same characters.
pub fn str_equal(a: &str, b: &str) -> (r: bool)
    ensures
        r == (a@ == b@),
{
    match compare_str(a, b) {
        Order::Equal => true,
        _ => false,
    }
}

/// Whether `ch` is trimmed: whitespace when no character is given, else
/// that character.
pub open spec fn trims(ch: char, c: Option<char>) -> bool {
    match c {
        None => is_whitespace_char(ch),
        Some(x) => ch == x,
    }
}

/// `s` without its leading trimmed characters.
pub open spec fn strip_start(s: Seq<char>, c: Option<char>) -> Seq<char>
    decreases s.len(),
{
    if s.len() > 0 && trims(s[0], c) {
        strip_start(s.drop_first(), c)
    } else {
        s
    }
}

/// `s` without its trailing trimmed characters.
pub open spec fn strip_end(s: Seq<char>, c: Option<char>) -> Seq<char>
    decreases s.len(),
{
    if s.len() > 0 && trims(s.last(), c) {
        strip_end(s.drop_last(), c)
    } else {
        s
    }
}

proof fn lemma_strip_start(s: Seq<char>, c: Option<char>, k: int)
    requires
        0 <= k <= s.len(),
        forall|i: int| 0 <= i < k ==> trims(#[trigger] s[i], c),
        k == s.len() || !trims(s[k], c),
    ensures
        strip_start(s, c) == s.skip(k),
    decreases k,
{
    if k == 0 {
        assert(s.skip(0) =~= s);
    } else {
        let t = s.drop_first();
        assert forall|i: int| 0 <= i < k - 1 implies trims(#[trigger] t[i], c) by {
            assert(t[i] == s[i + 1]);
        }
        if k < s.len() {
            assert(t[k - 1] == s[k]);
        }
        lemma_strip_start(t, c, k - 1);
        assert(t.skip(k - 1) =~= s.skip(k));
    }
}

proof fn lemma_strip_end(s: Seq<char>, c: Option<char>, k: int)
    requires
        0 <= k <= s.len(),
        forall|i: int| k <= i < s.len() ==> trims(#[trigger] s[i], c),
        k == 0 || !trims(s[k - 1], c),
    ensures
        strip_end(s, c) == s.take(k),
    decreases s.len() - k,
{
    if k == s.len() {
        assert(s.take(k) =~= s);
    } else {
        let t = s.drop_last();
        assert forall|i: int| k <= i < t.len() implies trims(#[trigger] t[i], c) by {
            assert(t[i] == s[i]);
        }
        if k > 0 {
            assert(t[k - 1] == s[k - 1]);
        }
        lemma_strip_end(t, c, k);
        assert(t.take(k) =~= s.take(k));
    }
}

fn trims_char(ch: char, c: Option<char>) -> (r: bool)
    ensures
        r == trims(ch, c),
{
    match c {
        None => is_whitespace(ch),
        Some(x) => ch == x,
    }
}

/// `s` with its leading and/or trailing trimmed characters removed, as
/// `str::trim`, `trim_matches`, `trim_start_matches` and `trim_end_matches`
/// do.
pub fn trim_with(s: &str, c: Option<char>, from_start: bool, from_end: bool) -> (r: String)
    ensures
        r@ == ({
            let a = if from_start {
                strip_start(s@, c)
            } else {
                s@
            };
            if from_end {
                strip_end(a, c)
            } else {
                a
            }
        }),
{
    let n = s.unicode_len();
    let mut start: usize = 0;
    if from_start {
        while start < n && trims_char(s.get_char(start), c)
            invariant
                start <= n,
                n == s@.len(),
                forall|i: int| 0 <= i < start ==> trims(#[trigger] s@[i], c),
            decreases n - start,
        {
            start = start + 1;
        }
        proof {
            lemma_strip_start(s@, c, start as int);
        }
    }
    let ghost a = s@.skip(start as int);
    assert(from_start ==> a == strip_start(s@, c));
    assert(!from_start ==> a =~= s@);
    let mut end: usize = n;
    if from_end {
        while end > start && trims_char(s.get_char(end - 1), c)
            invariant
                start <= end <= n,
                n == s@.len(),
                a == s@.skip(start as int),
                forall|i: int| end <= i < n ==> trims(#[trigger] s@[i], c),
            decreases end,
        {
            end = end - 1;
        }
        proof {
            let k = end - start;
            assert forall|i: int| k <= i < a.len() implies trims(#[trigger] a[i], c) by {
                assert(a[i] == s@[i + start]);
            }
            if k > 0 {
                assert(a[k - 1] == s@[end - 1]);
            }
            lemma_strip_end(a, c, k);
            assert(a.take(k) =~= s@.subrange(start as int, end as int));
        }
    }
    let r = s.substring_char(start, end);
    proof {
        if !from_end {
            assert(r@ =~= a);
        }
    }
    owned(r)
}

} // verus!
