//! JSON documents as the library reads and writes them, and the decimal text
//! of 64-bit integers.
//!
//! Text is turned into a `JsonValue` (and back) where the bytes are read or
//! written; the library decodes and encodes wire formats over this tree.
use vstd::prelude::*;

use crate::text::owned;

verus! {

/// A JSON number: its value as an `i64`, when it is an integer in range, and
/// as an `f64` bit pattern, when it has one.
#[derive(Clone, Copy, Debug, PartialEq, Eq, Structural)]
pub struct JsonNumber {
    pub as_i64: Option<i64>,
    pub as_f64: Option<u64>,
}

/// A JSON string together with the `f64` that its text spells (as
/// `str::parse::<f64>` reads it), if any. Strings that the library writes
/// leave the number unset.
#[derive(Debug)]
pub struct JsonString {
    pub text: String,
    pub as_f64: Option<u64>,
}

/// A JSON value. Objects keep their members in order; keys are unique.
#[derive(Debug)]
pub enum JsonValue {
    Null,
    Bool(bool),
    Number(JsonNumber),
    String(JsonString),
    Array(Vec<JsonValue>),
    Object(Vec<(String, JsonValue)>),
}

/// The content of a JSON value.
pub enum JsonModel {
    Null,
    Bool(bool),
    Number(JsonNumber),
    /// A string's text and the `f64` it spells, if known.
    String(Seq<char>, Option<u64>),
    Array(Seq<JsonModel>),
    Object(Seq<(Seq<char>, JsonModel)>),
}

/// The contents of a sequence of JSON values.
pub closed spec fn json_models(vs: Seq<JsonValue>) -> Seq<JsonModel>
    decreases vs,
{
    if vs.len() == 0 {
        Seq::<JsonModel>::empty()
    } else {
        json_models(vs.drop_last()).push(json_model(vs.last()))
    }
}

/// The contents of a sequence of object members.
pub closed spec fn member_models(ms: Seq<(String, JsonValue)>) -> Seq<(Seq<char>, JsonModel)>
    decreases ms,
{
    if ms.len() == 0 {
        Seq::<(Seq<char>, JsonModel)>::empty()
    } else {
        member_models(ms.drop_last()).push((ms.last().0@, json_model(ms.last().1)))
    }
}

/// The content of a JSON value.
pub closed spec fn json_model(v: JsonValue) -> JsonModel
    decreases v,
{
    match v {
        JsonValue::Null => JsonModel::Null,
        JsonValue::Bool(b) => JsonModel::Bool(b),
        JsonValue::Number(n) => JsonModel::Number(n),
        JsonValue::String(s) => JsonModel::String(s.text@, s.as_f64),
        JsonValue::Array(vs) => JsonModel::Array(json_models(vs@)),
        JsonValue::Object(ms) => JsonModel::Object(member_models(ms@)),
    }
}

impl View for JsonValue {
    type V = JsonModel;

    open spec fn view(&self) -> JsonModel {
        json_model(*self)
    }
}

/// `json_models` element by element.
pub proof fn lemma_json_models(vs: Seq<JsonValue>)
    ensures
        json_models(vs).len() == vs.len(),
        forall|i: int| 0 <= i < vs.len() ==> #[trigger] json_models(vs)[i] == vs[i]@,
    decreases vs.len(),
{
    if vs.len() > 0 {
        lemma_json_models(vs.drop_last());
        assert forall|i: int| 0 <= i < vs.len() implies #[trigger] json_models(vs)[i] == vs[i]@ by {
            if i < vs.len() - 1 {
                assert(vs.drop_last()[i] == vs[i]);
            }
        }
    }
}

/// Pushing a value pushes its content.
pub proof fn lemma_json_models_push(vs: Seq<JsonValue>, v: JsonValue)
    ensures
        json_models(vs.push(v)) == json_models(vs).push(v@),
        json_models(Seq::<JsonValue>::empty()) == Seq::<JsonModel>::empty(),
{
    assert(vs.push(v).drop_last() =~= vs);
}

/// `member_models` member by member.
pub proof fn lemma_member_models(ms: Seq<(String, JsonValue)>)
    ensures
        member_models(ms).len() == ms.len(),
        forall|i: int| 0 <= i < ms.len() ==> #[trigger] member_models(ms)[i] == (ms[i].0@, ms[i].1@),
    decreases ms.len(),
{
    if ms.len() > 0 {
        lemma_member_models(ms.drop_last());
        assert forall|i: int| 0 <= i < ms.len() implies #[trigger] member_models(ms)[i] == (
        ms[i].0@, ms[i].1@) by {
            if i < ms.len() - 1 {
                assert(ms.drop_last()[i] == ms[i]);
            }
        }
    }
}

/// The view of an array or object built from values.
pub proof fn lemma_json_container_views(v: JsonValue)
    ensures
        v matches JsonValue::Array(vs) ==> v@ == JsonModel::Array(json_models(vs@)),
        v matches JsonValue::Object(ms) ==> v@ == JsonModel::Object(member_models(ms@)),
        v matches JsonValue::String(s) ==> v@ == JsonModel::String(s.text@, s.as_f64),
        v matches JsonValue::Number(n) ==> v@ == JsonModel::Number(n),
        v matches JsonValue::Bool(b) ==> v@ == JsonModel::Bool(b),
        v is Null ==> v@ == JsonModel::Null,
{
}

/// The position of the first member with the given key, or the number of
/// members when there is none.
pub open spec fn member_index(ms: Seq<(Seq<char>, JsonModel)>, key: Seq<char>) -> int
    decreases ms.len(),
{
    if ms.len() == 0 {
        0
    } else if ms[0].0 == key {
        0
    } else {
        1 + member_index(ms.drop_first(), key)
    }
}

/// The first member with the given key.
pub open spec fn json_find(ms: Seq<(Seq<char>, JsonModel)>, key: Seq<char>) -> Option<JsonModel> {
    let i = member_index(ms, key);
    if 0 <= i < ms.len() {
        Some(ms[i].1)
    } else {
        None
    }
}

/// The member `key` of a JSON value, when it is an object that has one.
pub open spec fn json_member(v: JsonModel, key: Seq<char>) -> Option<JsonModel> {
    match v {
        JsonModel::Object(ms) => json_find(ms, key),
        _ => None,
    }
}

/// `member_index` lies in `[0, len]` and names the first match.
pub proof fn lemma_member_index(ms: Seq<(Seq<char>, JsonModel)>, key: Seq<char>)
    ensures
        0 <= member_index(ms, key) <= ms.len(),
        member_index(ms, key) < ms.len() ==> ms[member_index(ms, key)].0 == key,
        forall|j: int| 0 <= j < member_index(ms, key) ==> (#[trigger] ms[j]).0 != key,
    decreases ms.len(),
{
    if ms.len() > 0 && ms[0].0 != key {
        lemma_member_index(ms.drop_first(), key);
        assert forall|j: int| 0 <= j < member_index(ms, key) implies (#[trigger] ms[j]).0 != key by {
            if j > 0 {
                assert(ms[j] == ms.drop_first()[j - 1]);
            }
        }
    }
}

/// The position of the first member of `members` with the given key.
pub fn member_position(members: &Vec<(String, JsonValue)>, key: &str) -> (r: Option<usize>)
    ensures
        match r {
            Some(i) => i < members@.len() && member_index(member_models(members@), key@) == i
                && members@[i as int].0@ == key@,
            None => member_index(member_models(members@), key@) == members@.len(),
        },
{
    let ghost ms = member_models(members@);
    proof {
        lemma_member_models(members@);
        lemma_member_index(ms, key@);
    }
    let mut i: usize = 0;
    while i < members.len()
        invariant
            i <= members@.len(),
            ms == member_models(members@),
            ms.len() == members@.len(),
            forall|k: int| 0 <= k < members@.len() ==> #[trigger] ms[k] == (members@[k].0@, members@[k].1@),
            0 <= member_index(ms, key@) <= ms.len(),
            member_index(ms, key@) < ms.len() ==> ms[member_index(ms, key@)].0 == key@,
            forall|j: int| 0 <= j < member_index(ms, key@) ==> (#[trigger] ms[j]).0 != key@,
            forall|j: int| 0 <= j < i ==> (#[trigger] ms[j]).0 != key@,
        decreases members@.len() - i,
    {
        if crate::text::str_equal(members[i].0.as_str(), key) {
            assert(ms[i as int].0 == key@);
            return Some(i);
        }
        i = i + 1;
    }
    None
}

/// The member of `members` with the given key.
pub fn find_member<'a>(members: &'a Vec<(String, JsonValue)>, key: &str) -> (r: Option<&'a JsonValue>)
    ensures
        match r {
            Some(v) => json_find(member_models(members@), key@) == Some(v@),
            None => json_find(member_models(members@), key@) is None,
        },
{
    proof {
        lemma_member_models(members@);
    }
    match member_position(members, key) {
        Some(i) => Some(&members[i].1),
        None => None,
    }
}

impl JsonValue {
    /// The member `key`, when this is an object that has one.
    pub fn get(&self, key: &str) -> (r: Option<&JsonValue>)
        ensures
            match r {
                Some(v) => json_member(self@, key@) == Some(v@),
                None => json_member(self@, key@) is None,
            },
    {
        proof {
            lemma_json_container_views(*self);
        }
        match self {
            JsonValue::Object(members) => find_member(members, key),
            _ => None,
        }
    }

    /// A JSON string with the given text.
    pub fn string(text: String) -> (v: JsonValue)
        ensures
            v@ == JsonModel::String(text@, None),
    {
        let v = JsonValue::String(JsonString { text, as_f64: None });
        proof {
            lemma_json_container_views(v);
        }
        v
    }

    /// A JSON string copied from `text`.
    pub fn string_from(text: &str) -> (v: JsonValue)
        ensures
            v@ == JsonModel::String(text@, None),
    {
        JsonValue::string(owned(text))
    }

    /// A JSON number holding an integer.
    pub fn integer(n: i64) -> (v: JsonValue)
        ensures
            v@ == JsonModel::Number(JsonNumber { as_i64: Some(n), as_f64: None }),
    {
        let v = JsonValue::Number(JsonNumber { as_i64: Some(n), as_f64: None });
        proof {
            lemma_json_container_views(v);
        }
        v
    }

    /// A JSON number holding an `f64` bit pattern.
    pub fn double(bits: u64) -> (v: JsonValue)
        ensures
            v@ == JsonModel::Number(JsonNumber { as_i64: None, as_f64: Some(bits) }),
    {
        let v = JsonValue::Number(JsonNumber { as_i64: None, as_f64: Some(bits) });
        proof {
            lemma_json_container_views(v);
        }
        v
    }

    /// A JSON array of the given values.
    pub fn array(values: Vec<JsonValue>) -> (v: JsonValue)
        ensures
            v@ == JsonModel::Array(json_models(values@)),
    {
        let v = JsonValue::Array(values);
        proof {
            lemma_json_container_views(v);
        }
        v
    }

    /// A JSON object of the given members.
    pub fn object(members: Vec<(String, JsonValue)>) -> (v: JsonValue)
        ensures
            v@ == JsonModel::Object(member_models(members@)),
    {
        let v = JsonValue::Object(members);
        proof {
            lemma_json_container_views(v);
        }
        v
    }
}

/// The text of a JSON string.
pub open spec fn json_str(v: JsonModel) -> Option<Seq<char>> {
    match v {
        JsonModel::String(t, _) => Some(t),
        _ => None,
    }
}

/// The `i64` value of a JSON number.
pub open spec fn json_i64(v: JsonModel) -> Option<i64> {
    match v {
        JsonModel::Number(n) => n.as_i64,
        _ => None,
    }
}

impl JsonValue {
    /// The text of this value, when it is a string.
    pub fn as_str(&self) -> (r: Option<&str>)
        ensures
            match r {
                Some(t) => json_str(self@) == Some(t@),
                None => json_str(self@) is None,
            },
    {
        proof {
            lemma_json_container_views(*self);
        }
        match self {
            JsonValue::String(s) => Some(s.text.as_str()),
            _ => None,
        }
    }

    /// The `i64` value of this value, when it is a number that has one.
    pub fn as_i64(&self) -> (r: Option<i64>)
        ensures
            r == json_i64(self@),
    {
        proof {
            lemma_json_container_views(*self);
        }
        match self {
            JsonValue::Number(n) => n.as_i64,
            _ => None,
        }
    }

    /// The members of this value, when it is an object.
    pub fn as_object(&self) -> (r: Option<&Vec<(String, JsonValue)>>)
        ensures
            match r {
                Some(ms) => self@ == JsonModel::Object(member_models(ms@)),
                None => !(self@ is Object),
            },
    {
        proof {
            lemma_json_container_views(*self);
        }
        match self {
            JsonValue::Object(ms) => Some(ms),
            _ => None,
        }
    }

    /// The elements of this value, when it is an array.
    pub fn as_array(&self) -> (r: Option<&Vec<JsonValue>>)
        ensures
            match r {
                Some(xs) => self@ == JsonModel::Array(json_models(xs@)),
                None => !(self@ is Array),
            },
    {
        proof {
            lemma_json_container_views(*self);
        }
        match self {
            JsonValue::Array(xs) => Some(xs),
            _ => None,
        }
    }
}

impl JsonString {
    /// A copy of this string.
    pub fn copy(&self) -> (r: JsonString)
        ensures
            r.text@ == self.text@,
            r.as_f64 == self.as_f64,
    {
        JsonString { text: self.text.clone(), as_f64: self.as_f64 }
    }
}

impl JsonValue {
    /// A copy of this value.
    pub fn deep_clone(&self) -> (r: JsonValue)
        ensures
            r@ == self@,
        decreases self,
    {
        proof {
            lemma_json_container_views(*self);
        }
        match self {
            JsonValue::Null => JsonValue::Null,
            JsonValue::Bool(b) => JsonValue::Bool(*b),
            JsonValue::Number(n) => JsonValue::Number(*n),
            JsonValue::String(s) => {
                let r = JsonValue::String(s.copy());
                proof {
                    lemma_json_container_views(r);
                }
                r
            },
            JsonValue::Array(vs) => {
                proof {
                    lemma_json_models(vs@);
                }
                let mut out: Vec<JsonValue> = Vec::new();
                let mut i: usize = 0;
                while i < vs.len()
                    invariant
                        i <= vs@.len(),
                        out@.len() == i,
                        *self == JsonValue::Array(*vs),
                        forall|k: int| 0 <= k < i ==> (#[trigger] out@[k])@ == vs@[k]@,
                    decreases vs@.len() - i,
                {
                    assert(decreases_to!(*self => (*self)->Array_0));
                    assert(decreases_to!(*vs => vs@[i as int]));
                    let c = vs[i].deep_clone();
                    out.push(c);
                    i = i + 1;
                }
                proof {
                    lemma_json_models(out@);
                    assert(json_models(out@) =~= json_models(vs@));
                }
                JsonValue::array(out)
            },
            JsonValue::Object(ms) => {
                proof {
                    lemma_member_models(ms@);
                }
                let mut out: Vec<(String, JsonValue)> = Vec::new();
                let mut i: usize = 0;
                while i < ms.len()
                    invariant
                        i <= ms@.len(),
                        out@.len() == i,
                        *self == JsonValue::Object(*ms),
                        forall|k: int| 0 <= k < i ==> (#[trigger] out@[k]).0@ == ms@[k].0@ && out@[k].1@ == ms@[k].1@,
                    decreases ms@.len() - i,
                {
                    assert(decreases_to!(*self => (*self)->Object_0));
                    assert(decreases_to!(*ms => ms@[i as int]));
                    assert(decreases_to!(ms@[i as int] => ms@[i as int].1));
                    let k = ms[i].0.clone();
                    let c = ms[i].1.deep_clone();
                    out.push((k, c));
                    i = i + 1;
                }
                proof {
                    lemma_member_models(out@);
                    assert(member_models(out@) =~= member_models(ms@));
                }
                JsonValue::object(out)
            },
        }
    }
}

/// An object with one member.
pub fn object1(key: &str, value: JsonValue) -> (v: JsonValue)
    ensures
        v@ == JsonModel::Object(seq![(key@, value@)]),
{
    let mut members: Vec<(String, JsonValue)> = Vec::new();
    let k = owned(key);
    let ghost vv = value@;
    members.push((k, value));
    proof {
        lemma_member_models(members@);
        assert(member_models(members@) =~= seq![(key@, vv)]);
    }
    JsonValue::object(members)
}

/// The character of a decimal digit.
pub open spec fn digit_char(d: int) -> char {
    if d == 0 {
        '0'
    } else if d == 1 {
        '1'
    } else if d == 2 {
        '2'
    } else if d == 3 {
        '3'
    } else if d == 4 {
        '4'
    } else if d == 5 {
        '5'
    } else if d == 6 {
        '6'
    } else if d == 7 {
        '7'
    } else if d == 8 {
        '8'
    } else {
        '9'
    }
}

/// Whether a character is an ASCII decimal digit.
pub open spec fn is_digit(c: char) -> bool {
    '0' <= c && c <= '9'
}

/// The value of a decimal digit character.
pub open spec fn digit_value(c: char) -> int {
    c as int - '0' as int
}

/// The decimal digits of a natural number, without leading zeros.
pub open spec fn nat_text(n: nat) -> Seq<char>
    decreases n,
{
    if n < 10 {
        seq![digit_char(n as int)]
    } else {
        nat_text(n / 10).push(digit_char((n % 10) as int))
    }
}

/// The text of an integer as `i64::to_string` writes it.
pub open spec fn int_text(i: int) -> Seq<char> {
    if i < 0 {
        seq!['-'] + nat_text((-i) as nat)
    } else {
        nat_text(i as nat)
    }
}

/// Whether a text is a non-empty run of decimal digits.
pub open spec fn all_digits(s: Seq<char>) -> bool {
    s.len() > 0 && forall|i: int| 0 <= i < s.len() ==> is_digit(#[trigger] s[i])
}

/// The value of a run of decimal digits.
pub open spec fn digits_value(s: Seq<char>) -> int
    decreases s.len(),
{
    if s.len() == 0 {
        0
    } else {
        digits_value(s.drop_last()) * 10 + digit_value(s.last())
    }
}

/// `str::parse::<i64>`: an optional sign followed by decimal digits, whose
/// value fits in an `i64`.
pub open spec fn parse_i64_text(s: Seq<char>) -> Option<i64> {
    let negative = s.len() > 0 && s[0] == '-';
    let digits = if s.len() > 0 && (s[0] == '-' || s[0] == '+') {
        s.drop_first()
    } else {
        s
    };
    let v = if negative {
        -digits_value(digits)
    } else {
        digits_value(digits)
    };
    if all_digits(digits) && i64::MIN <= v <= i64::MAX {
        Some(v as i64)
    } else {
        None
    }
}

fn digit_str(d: u64) -> (r: &'static str)
    requires
        d < 10,
    ensures
        r@ == seq![digit_char(d as int)],
{
    proof {
        reveal_strlit("0");
        reveal_strlit("1");
        reveal_strlit("2");
        reveal_strlit("3");
        reveal_strlit("4");
        reveal_strlit("5");
        reveal_strlit("6");
        reveal_strlit("7");
        reveal_strlit("8");
        reveal_strlit("9");
    }
    if d == 0 {
        "0"
    } else if d == 1 {
        "1"
    } else if d == 2 {
        "2"
    } else if d == 3 {
        "3"
    } else if d == 4 {
        "4"
    } else if d == 5 {
        "5"
    } else if d == 6 {
        "6"
    } else if d == 7 {
        "7"
    } else if d == 8 {
        "8"
    } else {
        "9"
    }
}

fn append_nat_text(r: &mut String, n: u64)
    ensures
        final(r)@ == old(r)@ + nat_text(n as nat),
    decreases n,
{
    if n >= 10 {
        append_nat_text(r, n / 10);
    }
    let ghost mid = r@;
    r.append(digit_str(n % 10));
    proof {
        if n >= 10 {
            assert(r@ =~= old(r)@ + nat_text(n as nat));
        } else {
            assert(r@ =~= old(r)@ + nat_text(n as nat));
        }
    }
}

/// The decimal text of an integer, as `i64::to_string` writes it.
pub fn int_to_text(i: i64) -> (r: String)
    ensures
        r@ == int_text(i as int),
{
    let mut r = String::new();
    if i < 0 {
        proof {
            reveal_strlit("-");
        }
        r.append("-");
        let m: u64 = (0i128 - i as i128) as u64;
        append_nat_text(&mut r, m);
        assert(r@ =~= int_text(i as int));
    } else {
        append_nat_text(&mut r, i as u64);
        assert(r@ =~= int_text(i as int));
    }
    r
}

proof fn lemma_digits_value_nonneg(s: Seq<char>)
    requires
        forall|i: int| 0 <= i < s.len() ==> is_digit(#[trigger] s[i]),
    ensures
        digits_value(s) >= 0,
    decreases s.len(),
{
    if s.len() > 0 {
        lemma_digits_value_nonneg(s.drop_last());
    }
}

/// `str::parse::<i64>`.
pub fn parse_i64(s: &str) -> (r: Option<i64>)
    ensures
        r == parse_i64_text(s@),
{
    let n = s.unicode_len();
    if n == 0 {
        return None;
    }
    let first = s.get_char(0);
    let negative = first == '-';
    let start: usize = if first == '-' || first == '+' {
        1
    } else {
        0
    };
    let ghost digits = if s@.len() > 0 && (s@[0] == '-' || s@[0] == '+') {
        s@.drop_first()
    } else {
        s@
    };
    assert(digits =~= s@.skip(start as int));
    if start >= n {
        assert(!all_digits(digits));
        return None;
    }
    let mut acc: u64 = 0;
    let mut i: usize = start;
    assert(digits.take(0) =~= Seq::<char>::empty());
    while i < n
        invariant
            start <= i <= n,
            n == s@.len(),
            digits == s@.skip(start as int),
            digits == (if s@.len() > 0 && (s@[0] == '-' || s@[0] == '+') {
                s@.drop_first()
            } else {
                s@
            }),
            negative == (s@.len() > 0 && s@[0] == '-'),
            acc as int == digits_value(digits.take(i - start)),
            acc <= 0x8000_0000_0000_0000u64,
            forall|k: int| 0 <= k < i - start ==> is_digit(#[trigger] digits[k]),
        decreases n - i,
    {
        let c = s.get_char(i);
        assert(c == digits[i - start]);
        if !('0' <= c && c <= '9') {
            assert(!is_digit(digits[i - start]));
            assert(!all_digits(digits));
            assert(parse_i64_text(s@) is None);
            return None;
        }
        let d: u64 = (c as u32 - '0' as u32) as u64;
        assert(digits.take(i - start + 1).drop_last() =~= digits.take(i - start));
        if acc > (0x8000_0000_0000_0000u64 - d) / 10 {
            proof {
                let j = (i - start + 1) as int;
                assert(digits.take(j).last() == c);
                assert(digits_value(digits.take(j)) == acc * 10 + d);
                assert(acc * 10 + d > 0x8000_0000_0000_0000u64) by (nonlinear_arith)
                    requires
                        acc > (0x8000_0000_0000_0000u64 - d) / 10,
                        d < 10,
                ;
                if all_digits(digits) {
                    assert(digits.take(digits.len() as int) =~= digits);
                    lemma_digits_prefix_monotone(digits, j, digits.len() as int);
                }
            }
            return None;
        }
        acc = acc * 10 + d;
        i = i + 1;
    }
    assert(digits.take(n - start) =~= digits);
    if negative {
        if acc == 0x8000_0000_0000_0000u64 {
            Some(i64::MIN)
        } else {
            Some(-(acc as i64))
        }
    } else {
        if acc > 0x7fff_ffff_ffff_ffffu64 {
            None
        } else {
            Some(acc as i64)
        }
    }
}

proof fn lemma_digits_prefix_monotone(s: Seq<char>, j: int, k: int)
    requires
        0 <= j <= k <= s.len(),
        forall|i: int| 0 <= i < k ==> is_digit(#[trigger] s[i]),
    ensures
        digits_value(s.take(k)) >= digits_value(s.take(j)),
    decreases k - j,
{
    if k > j {
        lemma_digits_prefix_monotone(s, j, k - 1);
        assert(s.take(k).drop_last() =~= s.take(k - 1));
        lemma_digits_value_nonneg(s.take(k - 1));
    }
}

proof fn lemma_digit_char(d: int)
    requires
        0 <= d < 10,
    ensures
        is_digit(digit_char(d)),
        digit_value(digit_char(d)) == d,
{
    if d == 0 {
        assert(digit_value('0') == 0);
    } else if d == 1 {
        assert(digit_value('1') == 1);
    } else if d == 2 {
        assert(digit_value('2') == 2);
    } else if d == 3 {
        assert(digit_value('3') == 3);
    } else if d == 4 {
        assert(digit_value('4') == 4);
    } else if d == 5 {
        assert(digit_value('5') == 5);
    } else if d == 6 {
        assert(digit_value('6') == 6);
    } else if d == 7 {
        assert(digit_value('7') == 7);
    } else if d == 8 {
        assert(digit_value('8') == 8);
    } else {
        assert(digit_value('9') == 9);
    }
}

proof fn lemma_nat_text(n: nat)
    ensures
        all_digits(nat_text(n)),
        digits_value(nat_text(n)) == n,
    decreases n,
{
    lemma_digit_char((n % 10) as int);
    if n < 10 {
        let t = nat_text(n);
        assert(t.drop_last() =~= Seq::<char>::empty());
        assert(t.last() == digit_char(n as int));
        assert(digits_value(t) == digits_value(t.drop_last()) * 10 + digit_value(t.last()));
    } else {
        lemma_nat_text(n / 10);
        let s = nat_text(n / 10);
        let t = nat_text(n);
        assert(t.drop_last() =~= s);
        assert(t.last() == digit_char((n % 10) as int));
        assert(digits_value(t) == digits_value(t.drop_last()) * 10 + digit_value(t.last()));
        assert forall|i: int| 0 <= i < t.len() implies is_digit(#[trigger] t[i]) by {
            if i < s.len() {
                assert(t[i] == s[i]);
            }
        }
    }
}

/// `i64::to_string` text reads back as the same integer.
pub proof fn lemma_parse_int_text(i: i64)
    ensures
        parse_i64_text(int_text(i as int)) == Some(i),
{
    if i < 0 {
        let m = (-i) as nat;
        lemma_nat_text(m);
        let t = int_text(i as int);
        assert(t.drop_first() =~= nat_text(m));
    } else {
        lemma_nat_text(i as nat);
        let t = nat_text(i as nat);
        assert(is_digit(t[0]));
    }
}

/// `str::parse::<u64>`: an optional `+` followed by decimal digits whose
/// value fits in a `u64`.
pub open spec fn parse_u64_text(s: Seq<char>) -> Option<u64> {
    let digits = if s.len() > 0 && s[0] == '+' {
        s.drop_first()
    } else {
        s
    };
    if all_digits(digits) && digits_value(digits) <= u64::MAX {
        Some(digits_value(digits) as u64)
    } else {
        None
    }
}

/// One more digit multiplies the value so far by ten and adds the digit.
proof fn lemma_digit_step(digits: Seq<char>, j: int, acc: int, d: int)
    requires
        0 < j <= digits.len(),
        acc == digits_value(digits.take(j - 1)),
        d == digit_value(digits[j - 1]),
    ensures
        digits_value(digits.take(j)) == acc * 10 + d,
{
    assert(digits.take(j).drop_last() =~= digits.take(j - 1));
    assert(digits.take(j).last() == digits[j - 1]);
}

/// A prefix of digits whose value passes `u64::MAX` makes the whole run too
/// large for a `u64`.
proof fn lemma_digits_overflow(digits: Seq<char>, j: int, acc: u64, d: u64)
    requires
        0 < j <= digits.len(),
        acc as int == digits_value(digits.take(j - 1)),
        d as int == digit_value(digits[j - 1]),
        d < 10,
        acc > (0xffff_ffff_ffff_ffffu64 - d) / 10,
        forall|k: int| 0 <= k < j ==> is_digit(#[trigger] digits[k]),
    ensures
        !(all_digits(digits) && digits_value(digits) <= u64::MAX),
{
    lemma_digit_step(digits, j, acc as int, d as int);
    assert(acc * 10 + d > 0xffff_ffff_ffff_ffffu64) by (nonlinear_arith)
        requires
            acc > (0xffff_ffff_ffff_ffffu64 - d) / 10,
            d < 10,
    ;
    if all_digits(digits) {
        assert(digits.take(digits.len() as int) =~= digits);
        lemma_digits_prefix_monotone(digits, j, digits.len() as int);
    }
}

/// `str::parse::<u64>`.
#[verifier::spinoff_prover]
#[verifier::rlimit(30)]
pub fn parse_u64(s: &str) -> (r: Option<u64>)
    ensures
        r == parse_u64_text(s@),
{
    let n = s.unicode_len();
    if n == 0 {
        return None;
    }
    let start: usize = if s.get_char(0) == '+' {
        1
    } else {
        0
    };
    let ghost digits = if s@.len() > 0 && s@[0] == '+' {
        s@.drop_first()
    } else {
        s@
    };
    assert(digits =~= s@.skip(start as int));
    if start >= n {
        return None;
    }
    let mut acc: u64 = 0;
    let mut i: usize = start;
    assert(digits.take(0) =~= Seq::<char>::empty());
    while i < n
        invariant
            start <= i <= n,
            n == s@.len(),
            digits == s@.skip(start as int),
            digits == (if s@.len() > 0 && s@[0] == '+' {
                s@.drop_first()
            } else {
                s@
            }),
            acc as int == digits_value(digits.take(i - start)),
            forall|k: int| 0 <= k < i - start ==> is_digit(#[trigger] digits[k]),
        decreases n - i,
    {
        let c = s.get_char(i);
        assert(c == digits[i - start]);
        if !('0' <= c && c <= '9') {
            assert(!is_digit(digits[i - start]));
            assert(!all_digits(digits));
            return None;
        }
        let d: u64 = (c as u32 - '0' as u32) as u64;
        assert(digits.take(i - start + 1).drop_last() =~= digits.take(i - start));
        if acc > (0xffff_ffff_ffff_ffffu64 - d) / 10 {
            proof {
                lemma_digits_overflow(digits, (i - start + 1) as int, acc, d);
            }
            return None;
        }
        proof {
            lemma_digit_step(digits, (i - start + 1) as int, acc as int, d as int);
        }
        acc = acc * 10 + d;
        i = i + 1;
    }
    assert(digits.take(n - start) =~= digits);
    Some(acc)
}

} // verus!
