//! Firestore field values: scalars, arrays and maps.
//!
//! Doubles are held as the bit patterns of IEEE-754 `f64`s; their equality and
//! ordering follow IEEE semantics (NaN equals nothing, `-0.0 == 0.0`). Maps keep
//! their entries sorted by key, so they iterate in key order and never hold a
//! key twice.
use vstd::prelude::*;

use crate::firestore::model::{GeoPoint, Timestamp};
use crate::text::{compare_str, lemma_seq_lt_irreflexive, lemma_seq_lt_total, lemma_seq_lt_transitive, seq_lt, seq_order, Order};

verus! {

/// The mathematical content of a value.
pub enum ValueModel {
    Null,
    Boolean(bool),
    Integer(i64),
    Double(u64),
    Timestamp(Timestamp),
    String(Seq<char>),
    Bytes(Seq<u8>),
    Reference(Seq<char>),
    GeoPoint(GeoPoint),
    Array(Seq<ValueModel>),
    Mapping(Seq<(Seq<char>, ValueModel)>),
}

pub open spec fn double_is_nan(bits: u64) -> bool {
    (bits & 0x7ff0_0000_0000_0000u64) == 0x7ff0_0000_0000_0000u64 && (bits
        & 0x000f_ffff_ffff_ffffu64) != 0
}

pub open spec fn double_is_zero(bits: u64) -> bool {
    (bits & 0x7fff_ffff_ffff_ffffu64) == 0
}

/// `f64` equality on bit patterns: NaN equals nothing and the two zeros are
/// equal.
pub open spec fn doubles_equal(a: u64, b: u64) -> bool {
    !double_is_nan(a) && !double_is_nan(b) && (a == b || (double_is_zero(a) && double_is_zero(b)))
}

/// Whether `f64::from_bits(a) == f64::from_bits(b)`.
pub fn doubles_eq(a: u64, b: u64) -> (r: bool)
    ensures
        r == doubles_equal(a, b),
{
    let a_nan = (a & 0x7ff0_0000_0000_0000u64) == 0x7ff0_0000_0000_0000u64 && (a
        & 0x000f_ffff_ffff_ffffu64) != 0;
    let b_nan = (b & 0x7ff0_0000_0000_0000u64) == 0x7ff0_0000_0000_0000u64 && (b
        & 0x000f_ffff_ffff_ffffu64) != 0;
    !a_nan && !b_nan && (a == b || ((a & 0x7fff_ffff_ffff_ffffu64) == 0 && (b
        & 0x7fff_ffff_ffff_ffffu64) == 0))
}

/// Equality of values as `FirestoreValue`'s `==` decides it: same kind and
/// equal contents, doubles compared as `f64`, arrays element by element and
/// maps entry by entry in key order.
pub open spec fn value_eq(x: ValueModel, y: ValueModel) -> bool
    decreases x,
{
    match x {
        ValueModel::Null => y is Null,
        ValueModel::Boolean(a) => y matches ValueModel::Boolean(b) && a == b,
        ValueModel::Integer(a) => y matches ValueModel::Integer(b) && a == b,
        ValueModel::Double(a) => y matches ValueModel::Double(b) && doubles_equal(a, b),
        ValueModel::Timestamp(a) => y matches ValueModel::Timestamp(b) && a == b,
        ValueModel::String(a) => y matches ValueModel::String(b) && a == b,
        ValueModel::Bytes(a) => y matches ValueModel::Bytes(b) && a == b,
        ValueModel::Reference(a) => y matches ValueModel::Reference(b) && a == b,
        ValueModel::GeoPoint(a) => y matches ValueModel::GeoPoint(b) && doubles_equal(
            a.latitude_bits,
            b.latitude_bits,
        ) && doubles_equal(a.longitude_bits, b.longitude_bits),
        ValueModel::Array(xs) => y matches ValueModel::Array(ys) && values_eq(xs, ys),
        ValueModel::Mapping(xs) => y matches ValueModel::Mapping(ys) && entries_eq(xs, ys),
    }
}

/// Element-wise equality of two sequences of values.
pub open spec fn values_eq(xs: Seq<ValueModel>, ys: Seq<ValueModel>) -> bool
    decreases xs,
{
    if xs.len() != ys.len() {
        false
    } else if xs.len() == 0 {
        true
    } else {
        value_eq(xs.last(), ys.last()) && values_eq(xs.drop_last(), ys.drop_last())
    }
}

/// Entry-wise equality of two sequences of map entries.
pub open spec fn entries_eq(xs: Seq<(Seq<char>, ValueModel)>, ys: Seq<(Seq<char>, ValueModel)>) -> bool
    decreases xs,
{
    if xs.len() != ys.len() {
        false
    } else if xs.len() == 0 {
        true
    } else {
        xs.last().0 == ys.last().0 && value_eq(xs.last().1, ys.last().1) && entries_eq(
            xs.drop_last(),
            ys.drop_last(),
        )
    }
}

/// Keys in strictly increasing order.
pub open spec fn keys_sorted(entries: Seq<(Seq<char>, ValueModel)>) -> bool {
    forall|i: int, j: int| 0 <= i < j < entries.len() ==> seq_lt(entries[i].0, entries[j].0)
}

/// The value stored under `key`, if any.
pub open spec fn lookup(entries: Seq<(Seq<char>, ValueModel)>, key: Seq<char>) -> Option<ValueModel>
    decreases entries.len(),
{
    if entries.len() == 0 {
        None
    } else if entries.last().0 == key {
        Some(entries.last().1)
    } else {
        lookup(entries.drop_last(), key)
    }
}

/// Whether `needle` equals some element of `values`.
pub open spec fn contains_value(values: Seq<ValueModel>, needle: ValueModel) -> bool {
    exists|i: int| 0 <= i < values.len() && value_eq(#[trigger] values[i], needle)
}

/// A Firestore value.
#[derive(Debug)]
pub struct FirestoreValue {
    kind: ValueKind,
}

/// The kinds of Firestore values.
#[derive(Debug)]
pub enum ValueKind {
    Null,
    Boolean(bool),
    Integer(i64),
    /// The bit pattern of an `f64`.
    Double(u64),
    Timestamp(Timestamp),
    String(String),
    Bytes(BytesValue),
    Reference(String),
    GeoPoint(GeoPoint),
    Array(ArrayValue),
    Mapping(MapValue),
}

/// A byte string.
#[derive(Debug, PartialEq, Eq)]
pub struct BytesValue {
    bytes: Vec<u8>,
}

impl View for BytesValue {
    type V = Seq<u8>;

    closed spec fn view(&self) -> Seq<u8> {
        self.bytes@
    }
}

impl BytesValue {
    pub fn from(bytes: Vec<u8>) -> (b: Self)
        ensures
            b@ == bytes@,
    {
        BytesValue { bytes }
    }

    pub fn as_slice(&self) -> (s: &[u8])
        ensures
            s@ == self@,
    {
        self.bytes.as_slice()
    }
}

/// An ordered list of values.
#[derive(Debug)]
pub struct ArrayValue {
    values: Vec<FirestoreValue>,
}

/// A map from field names to values, ordered by field name.
#[derive(Debug)]
pub struct MapValue {
    entries: Vec<(String, FirestoreValue)>,
}

/// The models of a sequence of values.
pub closed spec fn models_of(vs: Seq<FirestoreValue>) -> Seq<ValueModel>
    decreases vs,
{
    if vs.len() == 0 {
        Seq::<ValueModel>::empty()
    } else {
        models_of(vs.drop_last()).push(model_of(vs.last()))
    }
}

/// The models of a sequence of map entries.
pub closed spec fn entry_models(es: Seq<(String, FirestoreValue)>) -> Seq<(Seq<char>, ValueModel)>
    decreases es,
{
    if es.len() == 0 {
        Seq::<(Seq<char>, ValueModel)>::empty()
    } else {
        entry_models(es.drop_last()).push((es.last().0@, model_of(es.last().1)))
    }
}

/// The model of a value.
pub closed spec fn model_of(v: FirestoreValue) -> ValueModel
    decreases v,
{
    match v.kind {
        ValueKind::Null => ValueModel::Null,
        ValueKind::Boolean(b) => ValueModel::Boolean(b),
        ValueKind::Integer(i) => ValueModel::Integer(i),
        ValueKind::Double(d) => ValueModel::Double(d),
        ValueKind::Timestamp(t) => ValueModel::Timestamp(t),
        ValueKind::String(s) => ValueModel::String(s@),
        ValueKind::Bytes(b) => ValueModel::Bytes(b.bytes@),
        ValueKind::Reference(s) => ValueModel::Reference(s@),
        ValueKind::GeoPoint(g) => ValueModel::GeoPoint(g),
        ValueKind::Array(a) => ValueModel::Array(models_of(a.values@)),
        ValueKind::Mapping(m) => ValueModel::Mapping(entry_models(m.entries@)),
    }
}

impl View for FirestoreValue {
    type V = ValueModel;

    open spec fn view(&self) -> ValueModel {
        model_of(*self)
    }
}

impl View for ArrayValue {
    type V = Seq<ValueModel>;

    closed spec fn view(&self) -> Seq<ValueModel> {
        models_of(self.values@)
    }
}

impl View for MapValue {
    type V = Seq<(Seq<char>, ValueModel)>;

    closed spec fn view(&self) -> Seq<(Seq<char>, ValueModel)> {
        entry_models(self.entries@)
    }
}

pub proof fn lemma_models_of(vs: Seq<FirestoreValue>)
    ensures
        models_of(vs).len() == vs.len(),
        forall|i: int| 0 <= i < vs.len() ==> #[trigger] models_of(vs)[i] == model_of(vs[i]),
    decreases vs.len(),
{
    if vs.len() > 0 {
        lemma_models_of(vs.drop_last());
        assert forall|i: int| 0 <= i < vs.len() implies #[trigger] models_of(vs)[i] == model_of(
            vs[i],
        ) by {
            if i < vs.len() - 1 {
                assert(vs.drop_last()[i] == vs[i]);
            }
        }
    }
}

pub proof fn lemma_entry_models(es: Seq<(String, FirestoreValue)>)
    ensures
        entry_models(es).len() == es.len(),
        forall|i: int|
            0 <= i < es.len() ==> #[trigger] entry_models(es)[i] == (es[i].0@, model_of(es[i].1)),
    decreases es.len(),
{
    if es.len() > 0 {
        lemma_entry_models(es.drop_last());
        assert forall|i: int| 0 <= i < es.len() implies #[trigger] entry_models(es)[i] == (
        es[i].0@, model_of(es[i].1)) by {
            if i < es.len() - 1 {
                assert(es.drop_last()[i] == es[i]);
            }
        }
    }
}

/// Two sequences whose elements have equal models have equal models.
proof fn lemma_models_ext(a: Seq<FirestoreValue>, b: Seq<FirestoreValue>)
    requires
        a.len() == b.len(),
        forall|i: int| 0 <= i < a.len() ==> model_of(#[trigger] a[i]) == model_of(b[i]),
    ensures
        models_of(a) == models_of(b),
{
    lemma_models_of(a);
    lemma_models_of(b);
    assert(models_of(a) =~= models_of(b));
}

proof fn lemma_entry_models_ext(a: Seq<(String, FirestoreValue)>, b: Seq<(String, FirestoreValue)>)
    requires
        a.len() == b.len(),
        forall|i: int|
            0 <= i < a.len() ==> (#[trigger] a[i]).0@ == b[i].0@ && model_of(a[i].1) == model_of(
                b[i].1,
            ),
    ensures
        entry_models(a) == entry_models(b),
{
    lemma_entry_models(a);
    lemma_entry_models(b);
    assert(entry_models(a) =~= entry_models(b));
}

impl FirestoreValue {
    pub fn null() -> (v: Self)
        ensures
            v@ == ValueModel::Null,
    {
        FirestoreValue { kind: ValueKind::Null }
    }

    pub fn from_bool(value: bool) -> (v: Self)
        ensures
            v@ == ValueModel::Boolean(value),
    {
        FirestoreValue { kind: ValueKind::Boolean(value) }
    }

    pub fn from_integer(value: i64) -> (v: Self)
        ensures
            v@ == ValueModel::Integer(value),
    {
        FirestoreValue { kind: ValueKind::Integer(value) }
    }

    /// A double given by the bit pattern of an `f64`.
    pub fn from_double_bits(bits: u64) -> (v: Self)
        ensures
            v@ == ValueModel::Double(bits),
    {
        FirestoreValue { kind: ValueKind::Double(bits) }
    }

    pub fn from_timestamp(value: Timestamp) -> (v: Self)
        ensures
            v@ == ValueModel::Timestamp(value),
    {
        FirestoreValue { kind: ValueKind::Timestamp(value) }
    }

    pub fn from_string(value: String) -> (v: Self)
        ensures
            v@ == ValueModel::String(value@),
    {
        FirestoreValue { kind: ValueKind::String(value) }
    }

    pub fn from_bytes(value: BytesValue) -> (v: Self)
        ensures
            v@ == ValueModel::Bytes(value@),
    {
        FirestoreValue { kind: ValueKind::Bytes(value) }
    }

    pub fn from_reference(path: String) -> (v: Self)
        ensures
            v@ == ValueModel::Reference(path@),
    {
        FirestoreValue { kind: ValueKind::Reference(path) }
    }

    pub fn from_geo_point(value: GeoPoint) -> (v: Self)
        ensures
            v@ == ValueModel::GeoPoint(value),
    {
        FirestoreValue { kind: ValueKind::GeoPoint(value) }
    }

    pub fn from_array(values: Vec<FirestoreValue>) -> (v: Self)
        ensures
            v@ == ValueModel::Array(models_of(values@)),
    {
        FirestoreValue { kind: ValueKind::Array(ArrayValue { values }) }
    }

    /// A map value holding the entries of `map`.
    pub fn from_map(map: MapValue) -> (v: Self)
        ensures
            v@ == ValueModel::Mapping(map@),
    {
        FirestoreValue { kind: ValueKind::Mapping(map) }
    }

    pub fn kind(&self) -> (k: &ValueKind)
        ensures
            *k == self.spec_kind(),
    {
        &self.kind
    }

    /// The kind held by this value.
    pub closed spec fn spec_kind(self) -> ValueKind {
        self.kind
    }

    /// The model of a value follows its kind.
    pub proof fn lemma_kind_model(self)
        ensures
            match self.spec_kind() {
                ValueKind::Null => self@ == ValueModel::Null,
                ValueKind::Boolean(b) => self@ == ValueModel::Boolean(b),
                ValueKind::Integer(i) => self@ == ValueModel::Integer(i),
                ValueKind::Double(d) => self@ == ValueModel::Double(d),
                ValueKind::Timestamp(t) => self@ == ValueModel::Timestamp(t),
                ValueKind::String(s) => self@ == ValueModel::String(s@),
                ValueKind::Bytes(b) => self@ == ValueModel::Bytes(b@),
                ValueKind::Reference(s) => self@ == ValueModel::Reference(s@),
                ValueKind::GeoPoint(g) => self@ == ValueModel::GeoPoint(g),
                ValueKind::Array(a) => self@ == ValueModel::Array(a@),
                ValueKind::Mapping(m) => self@ == ValueModel::Mapping(m@),
            },
    {
    }

    /// Whether this is the null value.
    pub fn is_null(&self) -> (b: bool)
        ensures
            b == (self@ is Null),
    {
        match &self.kind {
            ValueKind::Null => true,
            _ => false,
        }
    }

    /// The map held by this value, if it is a map.
    pub fn as_map(&self) -> (r: Option<&MapValue>)
        ensures
            match r {
                Some(m) => self@ == ValueModel::Mapping(m@),
                None => !(self@ is Mapping),
            },
    {
        match &self.kind {
            ValueKind::Mapping(m) => Some(m),
            _ => None,
        }
    }

    /// The array held by this value, if it is an array.
    pub fn as_array(&self) -> (r: Option<&ArrayValue>)
        ensures
            match r {
                Some(a) => self@ == ValueModel::Array(a@),
                None => !(self@ is Array),
            },
    {
        match &self.kind {
            ValueKind::Array(a) => Some(a),
            _ => None,
        }
    }

    /// The integer held by this value, if it is an integer.
    pub fn as_integer(&self) -> (r: Option<i64>)
        ensures
            match r {
                Some(i) => self@ == ValueModel::Integer(i),
                None => !(self@ is Integer),
            },
    {
        match &self.kind {
            ValueKind::Integer(i) => Some(*i),
            _ => None,
        }
    }

    /// The double bit pattern held by this value, if it is a double.
    pub fn as_double_bits(&self) -> (r: Option<u64>)
        ensures
            match r {
                Some(d) => self@ == ValueModel::Double(d),
                None => !(self@ is Double),
            },
    {
        match &self.kind {
            ValueKind::Double(d) => Some(*d),
            _ => None,
        }
    }

    /// The string held by this value, if it is a string.
    pub fn as_string(&self) -> (r: Option<&str>)
        ensures
            match r {
                Some(s) => self@ == ValueModel::String(s@),
                None => !(self@ is String),
            },
    {
        match &self.kind {
            ValueKind::String(s) => Some(s.as_str()),
            _ => None,
        }
    }

    /// The reference path held by this value, if it is a reference.
    pub fn as_reference(&self) -> (r: Option<&str>)
        ensures
            match r {
                Some(s) => self@ == ValueModel::Reference(s@),
                None => !(self@ is Reference),
            },
    {
        match &self.kind {
            ValueKind::Reference(s) => Some(s.as_str()),
            _ => None,
        }
    }

    /// The boolean held by this value, if it is a boolean.
    pub fn as_bool(&self) -> (r: Option<bool>)
        ensures
            match r {
                Some(b) => self@ == ValueModel::Boolean(b),
                None => !(self@ is Boolean),
            },
    {
        match &self.kind {
            ValueKind::Boolean(b) => Some(*b),
            _ => None,
        }
    }

    /// A copy of this value.
    pub fn deep_clone(&self) -> (r: Self)
        ensures
            r@ == self@,
        decreases self,
    {
        let kind = match &self.kind {
            ValueKind::Null => ValueKind::Null,
            ValueKind::Boolean(b) => ValueKind::Boolean(*b),
            ValueKind::Integer(i) => ValueKind::Integer(*i),
            ValueKind::Double(d) => ValueKind::Double(*d),
            ValueKind::Timestamp(t) => ValueKind::Timestamp(*t),
            ValueKind::String(s) => ValueKind::String(s.clone()),
            ValueKind::Bytes(b) => ValueKind::Bytes(BytesValue { bytes: b.bytes.clone() }),
            ValueKind::Reference(s) => ValueKind::Reference(s.clone()),
            ValueKind::GeoPoint(g) => ValueKind::GeoPoint(*g),
            ValueKind::Array(a) => ValueKind::Array(ArrayValue { values: clone_values(&a.values) }),
            ValueKind::Mapping(m) => {
                proof {
                    use_type_invariant(m);
                }
                let entries = clone_entries(&m.entries);
                ValueKind::Mapping(MapValue { entries })
            },
        };
        let r = FirestoreValue { kind };
        proof {
            match &self.kind {
                ValueKind::Bytes(b) => {
                    assert(r@ == ValueModel::Bytes(b.bytes@));
                },
                _ => {},
            }
        }
        r
    }

    /// Whether two values are equal (`==` on Firestore values).
    pub fn equals(&self, other: &FirestoreValue) -> (b: bool)
        ensures
            b == value_eq(self@, other@),
        decreases self,
    {
        match (&self.kind, &other.kind) {
            (ValueKind::Null, ValueKind::Null) => true,
            (ValueKind::Boolean(a), ValueKind::Boolean(b)) => *a == *b,
            (ValueKind::Integer(a), ValueKind::Integer(b)) => *a == *b,
            (ValueKind::Double(a), ValueKind::Double(b)) => doubles_eq(*a, *b),
            (ValueKind::Timestamp(a), ValueKind::Timestamp(b)) => a.seconds == b.seconds
                && a.nanos == b.nanos,
            (ValueKind::String(a), ValueKind::String(b)) => *a == *b,
            (ValueKind::Bytes(a), ValueKind::Bytes(b)) => bytes_equal(&a.bytes, &b.bytes),
            (ValueKind::Reference(a), ValueKind::Reference(b)) => *a == *b,
            (ValueKind::GeoPoint(a), ValueKind::GeoPoint(b)) => doubles_eq(
                a.latitude_bits,
                b.latitude_bits,
            ) && doubles_eq(a.longitude_bits, b.longitude_bits),
            (ValueKind::Array(a), ValueKind::Array(b)) => arrays_equal(&a.values, &b.values),
            (ValueKind::Mapping(a), ValueKind::Mapping(b)) => map_entries_equal(&a.entries, &b.entries),
            _ => {
                proof {
                    reveal_value_kind_distinct(self, other);
                }
                false
            },
        }
    }
}

/// When two values have different kinds their models have different kinds.
proof fn reveal_value_kind_distinct(a: &FirestoreValue, b: &FirestoreValue)
    ensures
        !(a.kind is Null && b.kind is Null) && !(a.kind is Boolean && b.kind is Boolean) && !(
        a.kind is Integer && b.kind is Integer) && !(a.kind is Double && b.kind is Double) && !(
        a.kind is Timestamp && b.kind is Timestamp) && !(a.kind is String && b.kind is String)
            && !(a.kind is Bytes && b.kind is Bytes) && !(a.kind is Reference && b.kind
            is Reference) && !(a.kind is GeoPoint && b.kind is GeoPoint) && !(a.kind is Array
            && b.kind is Array) && !(a.kind is Mapping && b.kind is Mapping) ==> !value_eq(
            model_of(*a),
            model_of(*b),
        ),
{
}

fn bytes_equal(a: &Vec<u8>, b: &Vec<u8>) -> (r: bool)
    ensures
        r == (a@ == b@),
{
    if a.len() != b.len() {
        return false;
    }
    let mut i: usize = 0;
    while i < a.len()
        invariant
            i <= a.len(),
            a.len() == b.len(),
            forall|k: int| 0 <= k < i ==> a@[k] == b@[k],
        decreases a.len() - i,
    {
        if a[i] != b[i] {
            return false;
        }
        i = i + 1;
    }
    assert(a@ =~= b@);
    true
}

fn arrays_equal(a: &Vec<FirestoreValue>, b: &Vec<FirestoreValue>) -> (r: bool)
    ensures
        r == values_eq(models_of(a@), models_of(b@)),
    decreases a,
{
    proof {
        lemma_models_of(a@);
        lemma_models_of(b@);
    }
    if a.len() != b.len() {
        return false;
    }
    let mut i: usize = 0;
    while i < a.len()
        invariant
            i <= a.len(),
            a.len() == b.len(),
            models_of(a@).len() == a.len(),
            models_of(b@).len() == b.len(),
            forall|k: int| 0 <= k < a.len() ==> #[trigger] models_of(a@)[k] == model_of(a@[k]),
            forall|k: int| 0 <= k < b.len() ==> #[trigger] models_of(b@)[k] == model_of(b@[k]),
            values_eq(models_of(a@).take(i as int), models_of(b@).take(i as int)),
        decreases a.len() - i,
    {
        let same = a[i].equals(&b[i]);
        proof {
            let xa = models_of(a@).take(i + 1);
            let xb = models_of(b@).take(i + 1);
            assert(xa.drop_last() =~= models_of(a@).take(i as int));
            assert(xb.drop_last() =~= models_of(b@).take(i as int));
            assert(xa.last() == model_of(a@[i as int]));
            assert(xb.last() == model_of(b@[i as int]));
        }
        if !same {
            proof {
                if values_eq(models_of(a@), models_of(b@)) {
                    lemma_values_eq_prefix(models_of(a@), models_of(b@), i + 1);
                }
            }
            return false;
        }
        i = i + 1;
    }
    proof {
        assert(models_of(a@).take(a.len() as int) =~= models_of(a@));
        assert(models_of(b@).take(b.len() as int) =~= models_of(b@));
    }
    true
}

/// Equal sequences have equal prefixes.
proof fn lemma_values_eq_prefix(xs: Seq<ValueModel>, ys: Seq<ValueModel>, n: int)
    requires
        0 <= n <= xs.len(),
        xs.len() == ys.len(),
        values_eq(xs, ys),
    ensures
        values_eq(xs.take(n), ys.take(n)),
    decreases xs.len() - n,
{
    if n == xs.len() {
        assert(xs.take(n) =~= xs);
        assert(ys.take(n) =~= ys);
    } else {
        lemma_values_eq_prefix(xs, ys, n + 1);
        assert(xs.take(n + 1).drop_last() =~= xs.take(n));
        assert(ys.take(n + 1).drop_last() =~= ys.take(n));
    }
}

proof fn lemma_entries_eq_prefix(xs: Seq<(Seq<char>, ValueModel)>, ys: Seq<(Seq<char>, ValueModel)>, n: int)
    requires
        0 <= n <= xs.len(),
        xs.len() == ys.len(),
        entries_eq(xs, ys),
    ensures
        entries_eq(xs.take(n), ys.take(n)),
    decreases xs.len() - n,
{
    if n == xs.len() {
        assert(xs.take(n) =~= xs);
        assert(ys.take(n) =~= ys);
    } else {
        lemma_entries_eq_prefix(xs, ys, n + 1);
        assert(xs.take(n + 1).drop_last() =~= xs.take(n));
        assert(ys.take(n + 1).drop_last() =~= ys.take(n));
    }
}

fn map_entries_equal(a: &Vec<(String, FirestoreValue)>, b: &Vec<(String, FirestoreValue)>) -> (r: bool)
    ensures
        r == entries_eq(entry_models(a@), entry_models(b@)),
    decreases a,
{
    proof {
        lemma_entry_models(a@);
        lemma_entry_models(b@);
    }
    if a.len() != b.len() {
        return false;
    }
    let mut i: usize = 0;
    while i < a.len()
        invariant
            i <= a.len(),
            a.len() == b.len(),
            entry_models(a@).len() == a.len(),
            entry_models(b@).len() == b.len(),
            forall|k: int| 0 <= k < a.len() ==> #[trigger] entry_models(a@)[k] == (a@[k].0@, model_of(a@[k].1)),
            forall|k: int| 0 <= k < b.len() ==> #[trigger] entry_models(b@)[k] == (b@[k].0@, model_of(b@[k].1)),
            entries_eq(entry_models(a@).take(i as int), entry_models(b@).take(i as int)),
        decreases a.len() - i,
    {
        let same = a[i].0 == b[i].0 && a[i].1.equals(&b[i].1);
        proof {
            let xa = entry_models(a@).take(i + 1);
            let xb = entry_models(b@).take(i + 1);
            assert(xa.drop_last() =~= entry_models(a@).take(i as int));
            assert(xb.drop_last() =~= entry_models(b@).take(i as int));
            assert(xa.last() == entry_models(a@)[i as int]);
            assert(xb.last() == entry_models(b@)[i as int]);
        }
        if !same {
            proof {
                if entries_eq(entry_models(a@), entry_models(b@)) {
                    lemma_entries_eq_prefix(entry_models(a@), entry_models(b@), i + 1);
                }
            }
            return false;
        }
        i = i + 1;
    }
    proof {
        assert(entry_models(a@).take(a.len() as int) =~= entry_models(a@));
        assert(entry_models(b@).take(b.len() as int) =~= entry_models(b@));
    }
    true
}

/// A copy of a vector of values.
pub fn clone_values(v: &Vec<FirestoreValue>) -> (r: Vec<FirestoreValue>)
    ensures
        models_of(r@) == models_of(v@),
        r@.len() == v@.len(),
    decreases v,
{
    let mut r: Vec<FirestoreValue> = Vec::new();
    let mut i: usize = 0;
    while i < v.len()
        invariant
            i <= v.len(),
            r@.len() == i,
            forall|k: int| 0 <= k < i ==> model_of(#[trigger] r@[k]) == model_of(v@[k]),
        decreases v.len() - i,
    {
        let c = v[i].deep_clone();
        r.push(c);
        i = i + 1;
    }
    proof {
        lemma_models_ext(r@, v@);
    }
    r
}

/// A copy of a vector of map entries.
fn clone_entries(v: &Vec<(String, FirestoreValue)>) -> (r: Vec<(String, FirestoreValue)>)
    ensures
        entry_models(r@) == entry_models(v@),
        r@.len() == v@.len(),
    decreases v,
{
    let mut r: Vec<(String, FirestoreValue)> = Vec::new();
    let mut i: usize = 0;
    while i < v.len()
        invariant
            i <= v.len(),
            r@.len() == i,
            forall|k: int|
                0 <= k < i ==> (#[trigger] r@[k]).0@ == v@[k].0@ && model_of(r@[k].1) == model_of(
                    v@[k].1,
                ),
        decreases v.len() - i,
    {
        let k = v[i].0.clone();
        let c = v[i].1.deep_clone();
        r.push((k, c));
        i = i + 1;
    }
    proof {
        lemma_entry_models_ext(r@, v@);
    }
    r
}

impl Clone for FirestoreValue {
    fn clone(&self) -> (r: Self)
        ensures
            r@ == self@,
    {
        self.deep_clone()
    }
}

/// With keys in strictly increasing order, a key is found exactly at the index
/// that holds it.
pub proof fn lemma_lookup_unique(es: Seq<(Seq<char>, ValueModel)>, k: Seq<char>)
    requires
        keys_sorted(es),
    ensures
        (forall|i: int| 0 <= i < es.len() ==> (#[trigger] es[i]).0 != k) ==> lookup(es, k) is None,
        forall|i: int| 0 <= i < es.len() && (#[trigger] es[i]).0 == k ==> lookup(es, k) == Some(
            es[i].1,
        ),
    decreases es.len(),
{
    if es.len() > 0 {
        let init = es.drop_last();
        assert(keys_sorted(init)) by {
            assert forall|i: int, j: int| 0 <= i < j < init.len() implies seq_lt(
                init[i].0,
                init[j].0,
            ) by {
                assert(init[i] == es[i] && init[j] == es[j]);
            }
        }
        lemma_lookup_unique(init, k);
        assert forall|i: int| 0 <= i < es.len() && (#[trigger] es[i]).0 == k implies lookup(
            es,
            k,
        ) == Some(es[i].1) by {
            if i < es.len() - 1 {
                assert(seq_lt(es[i].0, es[es.len() - 1].0));
                lemma_seq_lt_irreflexive(es[i].0);
                assert(es.last() == es[es.len() - 1]);
                assert(init[i] == es[i]);
            }
        }
        if forall|i: int| 0 <= i < es.len() ==> (#[trigger] es[i]).0 != k {
            assert(es.last() == es[es.len() - 1]);
            assert forall|i: int| 0 <= i < init.len() implies (#[trigger] init[i]).0 != k by {
                assert(init[i] == es[i]);
            }
        }
    }
}

/// Entry models of a vector after one of its entries is replaced.
proof fn lemma_entry_models_update(es: Seq<(String, FirestoreValue)>, i: int, e: (String, FirestoreValue))
    requires
        0 <= i < es.len(),
    ensures
        entry_models(es.update(i, e)) == entry_models(es).update(i, (e.0@, model_of(e.1))),
{
    lemma_entry_models(es);
    lemma_entry_models(es.update(i, e));
    assert(entry_models(es.update(i, e)) =~= entry_models(es).update(i, (e.0@, model_of(e.1))));
}

/// Entry models of a vector after an entry is inserted.
proof fn lemma_entry_models_insert(es: Seq<(String, FirestoreValue)>, i: int, e: (String, FirestoreValue))
    requires
        0 <= i <= es.len(),
    ensures
        entry_models(es.insert(i, e)) == entry_models(es).insert(i, (e.0@, model_of(e.1))),
{
    lemma_entry_models(es);
    lemma_entry_models(es.insert(i, e));
    assert(entry_models(es.insert(i, e)) =~= entry_models(es).insert(i, (e.0@, model_of(e.1))));
}

/// Entry models of a vector after an entry is removed.
proof fn lemma_entry_models_remove(es: Seq<(String, FirestoreValue)>, i: int)
    requires
        0 <= i < es.len(),
    ensures
        entry_models(es.remove(i)) == entry_models(es).remove(i),
{
    lemma_entry_models(es);
    lemma_entry_models(es.remove(i));
    assert(entry_models(es.remove(i)) =~= entry_models(es).remove(i));
}


/// The entries after storing `v` under `k` in a key-ordered entry list.
pub open spec fn insert_sorted(es: Seq<(Seq<char>, ValueModel)>, k: Seq<char>, v: ValueModel) -> Seq<(Seq<char>, ValueModel)>
    decreases es.len(),
{
    if es.len() == 0 {
        seq![(k, v)]
    } else if seq_lt(k, es[0].0) {
        seq![(k, v)] + es
    } else if es[0].0 == k {
        seq![(k, v)] + es.drop_first()
    } else {
        seq![es[0]] + insert_sorted(es.drop_first(), k, v)
    }
}

/// The entries after removing the entry stored under `k`.
pub open spec fn remove_sorted(es: Seq<(Seq<char>, ValueModel)>, k: Seq<char>) -> Seq<(Seq<char>, ValueModel)>
    decreases es.len(),
{
    if es.len() == 0 {
        es
    } else if es[0].0 == k {
        es.drop_first()
    } else {
        seq![es[0]] + remove_sorted(es.drop_first(), k)
    }
}

/// The place of `k` among key-ordered entries: after every smaller key.
proof fn lemma_insert_position(es: Seq<(Seq<char>, ValueModel)>, k: Seq<char>) -> (i: int)
    ensures
        0 <= i <= es.len(),
        forall|j: int| 0 <= j < i ==> seq_lt(#[trigger] es[j].0, k),
        i < es.len() ==> !seq_lt(es[i].0, k),
    decreases es.len(),
{
    if es.len() == 0 {
        0
    } else {
        let init = es.drop_last();
        let p = lemma_insert_position(init, k);
        assert forall|j: int| 0 <= j < p implies seq_lt(#[trigger] es[j].0, k) by {
            assert(init[j] == es[j]);
        }
        if p < init.len() {
            assert(init[p] == es[p]);
            p
        } else if seq_lt(es[es.len() - 1].0, k) {
            es.len() as int
        } else {
            init.len() as int
        }
    }
}

/// Storing `v` under `k` keeps the keys in order, makes `k` read back `v`
/// and leaves every other key as it was.
pub proof fn lemma_insert_sorted(es: Seq<(Seq<char>, ValueModel)>, k: Seq<char>, v: ValueModel)
    requires
        keys_sorted(es),
    ensures
        keys_sorted(insert_sorted(es, k, v)),
        forall|key: Seq<char>|
            #[trigger] lookup(insert_sorted(es, k, v), key) == if key == k {
                Some(v)
            } else {
                lookup(es, key)
            },
{
    let i = lemma_insert_position(es, k);
    lemma_seq_lt_irreflexive(k);
    if i < es.len() {
        lemma_seq_lt_total(es[i].0, k);
    }
    lemma_insert_sorted_at(es, k, v, i);
    lemma_lookup_unique(es, k);
    let kv = (k, v);
    let nm = insert_sorted(es, k, v);
    if i < es.len() && es[i].0 == k {
        assert(nm == es.update(i, kv));
        assert(keys_sorted(nm)) by {
            assert forall|a: int, b: int| 0 <= a < b < nm.len() implies seq_lt(nm[a].0, nm[b].0) by {
                assert(nm[a].0 == es[a].0);
                assert(nm[b].0 == es[b].0);
            }
        }
        assert forall|key: Seq<char>| #[trigger] lookup(nm, key) == if key == k { Some(v) } else { lookup(es, key) } by {
            lemma_lookup_unique(nm, key);
            lemma_lookup_unique(es, key);
            if key != k {
                if exists|j: int| 0 <= j < es.len() && (#[trigger] es[j]).0 == key {
                    let j = choose|j: int| 0 <= j < es.len() && (#[trigger] es[j]).0 == key;
                    assert(nm[j] == es[j]);
                } else {
                    assert forall|j: int| 0 <= j < nm.len() implies (#[trigger] nm[j]).0 != key by {
                        if j != i {
                            assert(nm[j] == es[j]);
                        }
                    }
                }
            } else {
                assert(nm[i] == kv);
            }
        }
    } else {
        assert(nm == es.insert(i, kv));
        assert(keys_sorted(nm)) by {
            assert forall|a: int, b: int| 0 <= a < b < nm.len() implies seq_lt(nm[a].0, nm[b].0) by {
                if b < i {
                    assert(nm[a] == es[a] && nm[b] == es[b]);
                } else if b == i {
                    assert(nm[a] == es[a]);
                } else if a < i {
                    assert(nm[a] == es[a] && nm[b] == es[b - 1]);
                    lemma_seq_lt_transitive(es[a].0, k, es[i].0);
                    if b - 1 > i {
                        lemma_seq_lt_transitive(es[a].0, es[i].0, es[b - 1].0);
                    }
                } else if a == i {
                    assert(nm[b] == es[b - 1]);
                    if b - 1 > i {
                        lemma_seq_lt_transitive(k, es[i].0, es[b - 1].0);
                    }
                } else {
                    assert(nm[a] == es[a - 1] && nm[b] == es[b - 1]);
                }
            }
        }
        assert forall|key: Seq<char>| #[trigger] lookup(nm, key) == if key == k { Some(v) } else { lookup(es, key) } by {
            lemma_lookup_unique(nm, key);
            lemma_lookup_unique(es, key);
            if key != k {
                if exists|j: int| 0 <= j < es.len() && (#[trigger] es[j]).0 == key {
                    let j = choose|j: int| 0 <= j < es.len() && (#[trigger] es[j]).0 == key;
                    if j < i {
                        assert(nm[j] == es[j]);
                    } else {
                        assert(nm[j + 1] == es[j]);
                    }
                } else {
                    assert forall|j: int| 0 <= j < nm.len() implies (#[trigger] nm[j]).0 != key by {
                        if j < i {
                            assert(nm[j] == es[j]);
                        } else if j > i {
                            assert(nm[j] == es[j - 1]);
                        }
                    }
                }
            } else {
                assert(nm[i] == kv);
            }
        }
    }
}

/// Removing `k` keeps the keys in order, makes `k` read back nothing and
/// leaves every other key as it was.
pub proof fn lemma_remove_sorted(es: Seq<(Seq<char>, ValueModel)>, k: Seq<char>)
    requires
        keys_sorted(es),
    ensures
        keys_sorted(remove_sorted(es, k)),
        forall|key: Seq<char>|
            #[trigger] lookup(remove_sorted(es, k), key) == if key == k {
                None
            } else {
                lookup(es, key)
            },
{
    let i = lemma_insert_position(es, k);
    lemma_seq_lt_irreflexive(k);
    lemma_lookup_unique(es, k);
    let found = i < es.len() && es[i].0 == k;
    assert forall|j: int| 0 <= j < i implies (#[trigger] es[j]).0 != k by {
        assert(seq_lt(es[j].0, k));
    }
    if !found {
        assert forall|j: int| 0 <= j < es.len() implies (#[trigger] es[j]).0 != k by {
            if j >= i {
                lemma_seq_lt_total(es[i].0, k);
                if j > i {
                    assert(seq_lt(es[i].0, es[j].0));
                    lemma_seq_lt_transitive(k, es[i].0, es[j].0);
                }
            } else {
                assert(seq_lt(es[j].0, k));
            }
        }
        lemma_remove_sorted_at(es, k, es.len() as int);
    } else {
        lemma_remove_sorted_at(es, k, i);
        let nm = es.remove(i);
        assert(keys_sorted(nm)) by {
            assert forall|a: int, b: int| 0 <= a < b < nm.len() implies seq_lt(nm[a].0, nm[b].0) by {
                if b < i {
                    assert(nm[a] == es[a] && nm[b] == es[b]);
                } else if a < i {
                    assert(nm[a] == es[a] && nm[b] == es[b + 1]);
                } else {
                    assert(nm[a] == es[a + 1] && nm[b] == es[b + 1]);
                }
            }
        }
        assert forall|key: Seq<char>| #[trigger] lookup(nm, key) == if key == k { None } else { lookup(es, key) } by {
            lemma_lookup_unique(nm, key);
            lemma_lookup_unique(es, key);
            if key == k {
                assert forall|j: int| 0 <= j < nm.len() implies (#[trigger] nm[j]).0 != key by {
                    if j < i {
                        assert(nm[j] == es[j]);
                    } else {
                        assert(nm[j] == es[j + 1]);
                        assert(seq_lt(es[i].0, es[j + 1].0));
                        lemma_seq_lt_irreflexive(es[i].0);
                    }
                }
            } else {
                if exists|j: int| 0 <= j < es.len() && (#[trigger] es[j]).0 == key {
                    let j = choose|j: int| 0 <= j < es.len() && (#[trigger] es[j]).0 == key;
                    if j < i {
                        assert(nm[j] == es[j]);
                    } else {
                        assert(j != i);
                        assert(nm[j - 1] == es[j]);
                    }
                } else {
                    assert forall|j: int| 0 <= j < nm.len() implies (#[trigger] nm[j]).0 != key by {
                        if j < i {
                            assert(nm[j] == es[j]);
                        } else {
                            assert(nm[j] == es[j + 1]);
                        }
                    }
                }
            }
        }
    }
}

/// `insert_sorted` as a single insertion or replacement at the position of the
/// key.
pub proof fn lemma_insert_sorted_at(es: Seq<(Seq<char>, ValueModel)>, k: Seq<char>, v: ValueModel, i: int)
    requires
        keys_sorted(es),
        0 <= i <= es.len(),
        forall|j: int| 0 <= j < i ==> seq_lt(#[trigger] es[j].0, k),
        i < es.len() ==> !seq_lt(es[i].0, k),
    ensures
        insert_sorted(es, k, v) == if i < es.len() && es[i].0 == k {
            es.update(i, (k, v))
        } else {
            es.insert(i, (k, v))
        },
    decreases i,
{
    if es.len() == 0 {
        assert(es.insert(0, (k, v)) =~= seq![(k, v)]);
    } else if i == 0 {
        lemma_seq_lt_total(k, es[0].0);
        if es[0].0 == k {
            assert(es.update(0, (k, v)) =~= seq![(k, v)] + es.drop_first());
        } else {
            assert(es.insert(0, (k, v)) =~= seq![(k, v)] + es);
        }
    } else {
        let rest = es.drop_first();
        assert(seq_lt(es[0].0, k));
        lemma_seq_lt_total(k, es[0].0);
        lemma_seq_lt_irreflexive(k);
        assert(keys_sorted(rest)) by {
            assert forall|a: int, b: int| 0 <= a < b < rest.len() implies seq_lt(rest[a].0, rest[b].0) by {
                assert(rest[a] == es[a + 1] && rest[b] == es[b + 1]);
            }
        }
        assert forall|j: int| 0 <= j < i - 1 implies seq_lt(#[trigger] rest[j].0, k) by {
            assert(rest[j] == es[j + 1]);
        }
        lemma_insert_sorted_at(rest, k, v, i - 1);
        if i < es.len() && es[i].0 == k {
            assert(seq![es[0]] + rest.update(i - 1, (k, v)) =~= es.update(i, (k, v)));
        } else {
            assert(seq![es[0]] + rest.insert(i - 1, (k, v)) =~= es.insert(i, (k, v)));
        }
    }
}

/// `remove_sorted` as a single removal at the position of the key, or no
/// change when the key is absent.
pub proof fn lemma_remove_sorted_at(es: Seq<(Seq<char>, ValueModel)>, k: Seq<char>, i: int)
    requires
        0 <= i <= es.len(),
        forall|j: int| 0 <= j < i ==> (#[trigger] es[j]).0 != k,
        i < es.len() ==> es[i].0 == k,
        i == es.len() ==> forall|j: int| 0 <= j < es.len() ==> (#[trigger] es[j]).0 != k,
    ensures
        remove_sorted(es, k) == if i < es.len() {
            es.remove(i)
        } else {
            es
        },
    decreases es.len(),
{
    if es.len() > 0 {
        let rest = es.drop_first();
        if i == 0 {
            assert(es.remove(0) =~= es.drop_first());
        } else {
            assert(es[0].0 != k);
            assert forall|j: int| 0 <= j < i - 1 implies (#[trigger] rest[j]).0 != k by {
                assert(rest[j] == es[j + 1]);
            }
            if i == es.len() {
                assert forall|j: int| 0 <= j < rest.len() implies (#[trigger] rest[j]).0 != k by {
                    assert(rest[j] == es[j + 1]);
                }
            } else {
                assert(rest[i - 1] == es[i]);
            }
            lemma_remove_sorted_at(rest, k, i - 1);
            if i < es.len() {
                assert(seq![es[0]] + rest.remove(i - 1) =~= es.remove(i));
            } else {
                assert(seq![es[0]] + rest =~= es);
            }
        }
    }
}

impl MapValue {
    #[verifier::type_invariant]
    spec fn keys_in_order(&self) -> bool {
        keys_sorted(entry_models(self.entries@))
    }

    /// The empty map.
    pub fn empty() -> (m: Self)
        ensures
            m@ == Seq::<(Seq<char>, ValueModel)>::empty(),
    {
        let m = MapValue { entries: Vec::new() };
        assert(m@ =~= Seq::<(Seq<char>, ValueModel)>::empty());
        m
    }

    /// A map holding the given entries; when a key occurs more than once the
    /// last occurrence wins.
    pub fn new(entries: Vec<(String, FirestoreValue)>) -> (m: Self)
        ensures
            forall|k: Seq<char>| #[trigger] lookup(m@, k) == lookup(entry_models(entries@), k),
            keys_sorted(m@),
    {
        let mut m = MapValue::empty();
        let mut rest = entries;
        let ghost all = entry_models(rest@);
        let mut taken: Vec<(String, FirestoreValue)> = Vec::new();
        proof {
            lemma_entry_models(rest@);
        }
        let n = rest.len();
        let mut i: usize = 0;
        while i < n
            invariant
                i <= n,
                n == all.len(),
                all.len() == rest@.len() + i,
                forall|j: int| 0 <= j < rest@.len() ==> #[trigger] entry_models(rest@)[j] == all[i + j],
                entry_models(rest@).len() == rest@.len(),
                keys_sorted(m@),
                forall|k: Seq<char>| #[trigger] lookup(m@, k) == lookup(all.take(i as int), k),
            decreases n - i,
        {
            let ghost before = m@;
            let ghost rest_before = rest@;
            let (k, v) = rest.remove(0);
            proof {
                lemma_entry_models(rest_before);
                lemma_entry_models(rest@);
                assert(entry_models(rest_before)[0] == all[i as int]);
                assert forall|j: int| 0 <= j < rest@.len() implies #[trigger] entry_models(rest@)[j] == all[i + 1 + j] by {
                    assert(rest@[j] == rest_before[j + 1]);
                    assert(entry_models(rest_before)[j + 1] == all[i + j + 1]);
                }
            }
            let ghost kv = (k@, v@);
            m.insert(k, v);
            proof {
                assert(all.take(i + 1).drop_last() =~= all.take(i as int));
                assert(all.take(i + 1).last() == all[i as int]);
                assert(all[i as int] == kv);
                assert forall|key: Seq<char>| #[trigger] lookup(m@, key) == lookup(all.take(i + 1), key) by {}
            }
            i = i + 1;
        }
        proof {
            assert(all.take(n as int) =~= all);
        }
        m
    }

    /// The entries in key order.
    pub fn fields(&self) -> (r: &Vec<(String, FirestoreValue)>)
        ensures
            entry_models(r@) == self@,
            keys_sorted(self@),
    {
        proof {
            use_type_invariant(self);
        }
        &self.entries
    }

    /// The key and value of the entry at position `i` in key order.
    pub fn entry_at(&self, i: usize) -> (r: (&str, &FirestoreValue))
        requires
            i < self@.len(),
        ensures
            r.0@ == self@[i as int].0,
            r.1@ == self@[i as int].1,
    {
        proof {
            lemma_entry_models(self.entries@);
        }
        (self.entries[i].0.as_str(), &self.entries[i].1)
    }

    /// Number of entries.
    pub fn len(&self) -> (n: usize)
        ensures
            n == self@.len(),
    {
        proof {
            lemma_entry_models(self.entries@);
        }
        self.entries.len()
    }

    /// Whether the map holds no entries.
    pub fn is_empty(&self) -> (b: bool)
        ensures
            b == (self@.len() == 0),
    {
        self.len() == 0
    }

    /// Index of the first entry whose key is not below `key`.
    fn position(&self, key: &str) -> (r: (usize, bool))
        ensures
            r.0 <= self@.len(),
            forall|j: int| 0 <= j < r.0 ==> seq_lt(#[trigger] self@[j].0, key@),
            r.1 == (r.0 < self@.len() && self@[r.0 as int].0 == key@),
            r.0 < self@.len() && !r.1 ==> seq_lt(key@, self@[r.0 as int].0),
            keys_sorted(self@),
    {
        proof {
            use_type_invariant(self);
            lemma_entry_models(self.entries@);
        }
        let n = self.entries.len();
        let mut i: usize = 0;
        while i < n
            invariant
                n == self@.len(),
                n == self.entries@.len(),
                keys_sorted(self@),
                i <= n,
                forall|k: int| 0 <= k < self@.len() ==> #[trigger] self@[k] == (self.entries@[k].0@, model_of(self.entries@[k].1)),
                forall|j: int| 0 <= j < i ==> seq_lt(#[trigger] self@[j].0, key@),
            decreases n - i,
        {
            let o = compare_str(self.entries[i].0.as_str(), key);
            match o {
                Order::Less => {},
                Order::Equal => {
                    return (i, true);
                },
                Order::Greater => {
                    proof {
                        lemma_seq_lt_total(self@[i as int].0, key@);
                    }
                    return (i, false);
                },
            }
            i = i + 1;
        }
        (n, false)
    }

    /// The value stored under `key`.
    pub fn get(&self, key: &str) -> (r: Option<&FirestoreValue>)
        ensures
            match r {
                Some(v) => lookup(self@, key@) == Some(v@),
                None => lookup(self@, key@) is None,
            },
    {
        let (i, found) = self.position(key);
        proof {
            lemma_entry_models(self.entries@);
            lemma_lookup_unique(self@, key@);
        }
        if found {
            Some(&self.entries[i].1)
        } else {
            proof {
                assert forall|j: int| 0 <= j < self@.len() implies (#[trigger] self@[j]).0 != key@ by {
                    if j < i {
                        lemma_seq_lt_irreflexive(key@);
                    } else if j == i {
                    } else {
                        if i < self@.len() {
                            lemma_seq_lt_transitive(key@, self@[i as int].0, self@[j].0);
                            lemma_seq_lt_irreflexive(key@);
                        }
                    }
                }
            }
            None
        }
    }

    /// Whether `key` is present.
    pub fn contains_key(&self, key: &str) -> (b: bool)
        ensures
            b == (lookup(self@, key@) is Some),
    {
        self.get(key).is_some()
    }

    /// Stores `value` under `key`, replacing any previous value.
    pub fn insert(&mut self, key: String, value: FirestoreValue)
        ensures
            forall|k: Seq<char>|
                #[trigger] lookup(final(self)@, k) == if k == key@ {
                    Some(value@)
                } else {
                    lookup(old(self)@, k)
                },
            keys_sorted(final(self)@),
            final(self)@ == insert_sorted(old(self)@, key@, value@),
    {
        let (i, found) = self.position(key.as_str());
        proof {
            lemma_seq_lt_irreflexive(key@);
            if i < self@.len() {
                lemma_seq_lt_total(self@[i as int].0, key@);
            }
            lemma_insert_sorted_at(self@, key@, value@, i as int);
            lemma_insert_sorted(self@, key@, value@);
        }
        let ghost old_models = self@;
        let mut entries: Vec<(String, FirestoreValue)> = Vec::new();
        std::mem::swap(&mut entries, &mut self.entries);
        proof {
            lemma_entry_models(entries@);
            assert(entry_models(entries@) == old_models);
        }
        let ghost kv = (key@, value@);
        if found {
            let ghost before = entries@;
            entries.set(i, (key, value));
            proof {
                lemma_entry_models_update(before, i as int, entries@[i as int]);
            }
        } else {
            let ghost before = entries@;
            entries.insert(i, (key, value));
            proof {
                lemma_entry_models_insert(before, i as int, entries@[i as int]);
            }
        }
        self.entries = entries;
    }

    /// Removes the entry stored under `key`, returning its value.
    pub fn remove(&mut self, key: &str) -> (r: Option<FirestoreValue>)
        ensures
            forall|k: Seq<char>|
                #[trigger] lookup(final(self)@, k) == if k == key@ {
                    None
                } else {
                    lookup(old(self)@, k)
                },
            keys_sorted(final(self)@),
            final(self)@ == remove_sorted(old(self)@, key@),
            match r {
                Some(v) => lookup(old(self)@, key@) == Some(v@),
                None => lookup(old(self)@, key@) is None,
            },
    {
        let (i, found) = self.position(key);
        let ghost old_models = self@;
        proof {
            lemma_lookup_unique(old_models, key@);
            assert forall|j: int| 0 <= j < i implies (#[trigger] old_models[j]).0 != key@ by {
                lemma_seq_lt_irreflexive(key@);
            }
        }
        if !found {
            proof {
                assert forall|j: int| 0 <= j < old_models.len() implies (#[trigger] old_models[j]).0 != key@ by {
                    if j < i {
                        lemma_seq_lt_irreflexive(key@);
                    } else if j > i {
                        lemma_seq_lt_transitive(key@, old_models[i as int].0, old_models[j].0);
                        lemma_seq_lt_irreflexive(key@);
                    }
                }
                lemma_remove_sorted_at(old_models, key@, old_models.len() as int);
                assert forall|k: Seq<char>| #[trigger] lookup(self@, k) == if k == key@ { None } else { lookup(old_models, k) } by {}
            }
            return None;
        }
        let mut entries: Vec<(String, FirestoreValue)> = Vec::new();
        std::mem::swap(&mut entries, &mut self.entries);
        proof {
            lemma_entry_models(entries@);
            assert(entry_models(entries@) == old_models);
        }
        let ghost before = entries@;
        let removed = entries.remove(i);
        proof {
            lemma_entry_models_remove(before, i as int);
            lemma_entry_models(before);
            let nm = entry_models(entries@);
            assert(nm == old_models.remove(i as int));
            assert(keys_sorted(nm)) by {
                assert forall|a: int, b: int| 0 <= a < b < nm.len() implies seq_lt(nm[a].0, nm[b].0) by {
                    if b < i {
                        assert(nm[a] == old_models[a] && nm[b] == old_models[b]);
                    } else if a < i {
                        assert(nm[a] == old_models[a] && nm[b] == old_models[b + 1]);
                    } else {
                        assert(nm[a] == old_models[a + 1] && nm[b] == old_models[b + 1]);
                    }
                }
            }
            assert forall|k: Seq<char>| #[trigger] lookup(nm, k) == if k == key@ { None } else { lookup(old_models, k) } by {
                lemma_lookup_unique(nm, k);
                lemma_lookup_unique(old_models, k);
                if k != key@ {
                    if exists|j: int| 0 <= j < old_models.len() && (#[trigger] old_models[j]).0 == k {
                        let j = choose|j: int| 0 <= j < old_models.len() && (#[trigger] old_models[j]).0 == k;
                        if j < i {
                            assert(nm[j] == old_models[j]);
                        } else {
                            assert(nm[j - 1] == old_models[j]);
                        }
                    } else {
                        assert forall|j: int| 0 <= j < nm.len() implies (#[trigger] nm[j]).0 != k by {
                            if j < i {
                                assert(nm[j] == old_models[j]);
                            } else {
                                assert(nm[j] == old_models[j + 1]);
                            }
                        }
                    }
                } else {
                    assert forall|j: int| 0 <= j < nm.len() implies (#[trigger] nm[j]).0 != k by {
                        if j < i {
                            assert(nm[j] == old_models[j]);
                            lemma_seq_lt_irreflexive(key@);
                        } else {
                            assert(nm[j] == old_models[j + 1]);
                            lemma_seq_lt_irreflexive(key@);
                        }
                    }
                }
            }
            assert(entry_models(before)[i as int] == (removed.0@, model_of(removed.1)));
            lemma_remove_sorted_at(old_models, key@, i as int);
        }
        self.entries = entries;
        Some(removed.1)
    }
}

impl Clone for MapValue {
    fn clone(&self) -> (r: Self)
        ensures
            r@ == self@,
    {
        proof {
            use_type_invariant(self);
        }
        let entries = clone_entries(&self.entries);
        MapValue { entries }
    }
}

impl ArrayValue {
    pub fn new(values: Vec<FirestoreValue>) -> (a: Self)
        ensures
            a@ == models_of(values@),
    {
        ArrayValue { values }
    }

    /// The elements.
    pub fn values(&self) -> (r: &Vec<FirestoreValue>)
        ensures
            models_of(r@) == self@,
            r@.len() == self@.len(),
    {
        proof {
            lemma_models_of(self.values@);
        }
        &self.values
    }

    /// Whether some element equals `needle`.
    pub fn contains(&self, needle: &FirestoreValue) -> (b: bool)
        ensures
            b == contains_value(self@, needle@),
    {
        proof {
            lemma_models_of(self.values@);
        }
        let mut i: usize = 0;
        while i < self.values.len()
            invariant
                i <= self.values@.len(),
                self@ == models_of(self.values@),
                self@.len() == self.values@.len(),
                forall|k: int| 0 <= k < self.values@.len() ==> #[trigger] self@[k] == model_of(self.values@[k]),
                forall|k: int| 0 <= k < i ==> !value_eq(#[trigger] self@[k], needle@),
            decreases self.values@.len() - i,
        {
            if self.values[i].equals(needle) {
                assert(value_eq(self@[i as int], needle@));
                return true;
            }
            i = i + 1;
        }
        false
    }
}

impl Clone for ArrayValue {
    fn clone(&self) -> (r: Self)
        ensures
            r@ == self@,
    {
        ArrayValue { values: clone_values(&self.values) }
    }
}

} // verus!
