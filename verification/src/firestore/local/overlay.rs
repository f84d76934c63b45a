//! Latency-compensated documents: pending writes applied, in order, over the
//! last known version of a document.
//!
//! Sums of doubles are floating-point arithmetic, which this crate does not
//! perform itself: the caller hands in the adder (`f64` addition on bit
//! patterns) as a closure, and the contracts speak of whatever that closure
//! computes. Server timestamps read the clock, so the contracts hold for every
//! sequence of clock readings.
use vstd::prelude::*;

use crate::firestore::api::operations::{
    field_views, lemma_set_at_reads_back, set_at, sorted_along, set_value_at_field_path, value_at, value_for_field_path, FieldTransform,
    TransformOperation,
};
use crate::firestore::error::{invalid_argument, FirestoreErrorCode, FirestoreResult};
use crate::firestore::model::field_path::render_field_path;
use crate::firestore::model::{FieldPath, Timestamp};
use crate::firestore::remote::datastore::WriteOperation;
use crate::firestore::value::number::{int_to_double, int_to_double_bits};
use crate::firestore::value::value::{
    clone_values, contains_value, insert_sorted, lookup, models_of, remove_sorted, FirestoreValue, MapValue,
    ValueModel, lemma_models_of,
};
use crate::text::{owned, string_views};

verus! {

/// Entries of a map, in key order.
pub type Entries = Seq<(Seq<char>, ValueModel)>;

/// A closure that adds two doubles given as bit patterns: callable on every
/// pair, and giving one result for each pair.
pub open spec fn is_adder<F: Fn(u64, u64) -> u64>(adder: F) -> bool {
    &&& forall|a: u64, b: u64| adder.requires((a, b))
    &&& forall|a: u64, b: u64, r: u64, s: u64|
        adder.ensures((a, b), r) && adder.ensures((a, b), s) ==> r == s
}

/// The sum that the adder gives for each pair.
pub open spec fn adder_sum<F: Fn(u64, u64) -> u64>(adder: F) -> spec_fn(u64, u64) -> u64 {
    |a: u64, b: u64| choose|r: u64| adder.ensures((a, b), r)
}

/// The elements of an existing array value; nothing for any other value.
pub open spec fn array_elements(existing: Option<ValueModel>) -> Seq<ValueModel> {
    match existing {
        Some(ValueModel::Array(xs)) => xs,
        _ => Seq::<ValueModel>::empty(),
    }
}

/// `base` followed by each addition that equals nothing before it.
pub open spec fn union_values(base: Seq<ValueModel>, additions: Seq<ValueModel>) -> Seq<ValueModel>
    decreases additions.len(),
{
    if additions.len() == 0 {
        base
    } else {
        let prev = union_values(base, additions.drop_last());
        if contains_value(prev, additions.last()) {
            prev
        } else {
            prev.push(additions.last())
        }
    }
}

/// The elements of `values` that equal none of `removals`, in order.
pub open spec fn remove_values(values: Seq<ValueModel>, removals: Seq<ValueModel>) -> Seq<ValueModel>
    decreases values.len(),
{
    if values.len() == 0 {
        values
    } else {
        let prev = remove_values(values.drop_last(), removals);
        if contains_value(removals, values.last()) {
            prev
        } else {
            prev.push(values.last())
        }
    }
}

/// The value a numeric increment by `operand` leaves in a field that held
/// `existing`; `None` when the operand is not a number. An integer sum that
/// leaves the `i64` range becomes the double sum of both integers.
pub open spec fn increment_value(
    existing: Option<ValueModel>,
    operand: ValueModel,
    sum: spec_fn(u64, u64) -> u64,
) -> Option<ValueModel> {
    match operand {
        ValueModel::Integer(d) => match existing {
            Some(ValueModel::Integer(c)) => if i64::MIN <= c + d <= i64::MAX {
                Some(ValueModel::Integer((c + d) as i64))
            } else {
                Some(ValueModel::Double(sum(int_to_double_bits(c), int_to_double_bits(d))))
            },
            Some(ValueModel::Double(c)) => Some(ValueModel::Double(sum(c, int_to_double_bits(d)))),
            _ => Some(ValueModel::Integer(d)),
        },
        ValueModel::Double(d) => match existing {
            Some(ValueModel::Integer(c)) => Some(ValueModel::Double(sum(int_to_double_bits(c), d))),
            Some(ValueModel::Double(c)) => Some(ValueModel::Double(sum(c, d))),
            _ => Some(ValueModel::Double(d)),
        },
        _ => None,
    }
}

/// What an array union leaves: the existing elements first, unchanged; after
/// them only additions, each equal to nothing before it; and every addition
/// ends up in the result (itself, or an element equal to it).
pub proof fn lemma_union_values(base: Seq<ValueModel>, adds: Seq<ValueModel>)
    ensures
        ({
            let u = union_values(base, adds);
            &&& u.len() >= base.len()
            &&& u.take(base.len() as int) == base
            &&& forall|k: int| base.len() <= k < u.len() ==> exists|i: int| 0 <= i < adds.len() && #[trigger] u[k] == adds[i]
            &&& forall|k: int| base.len() <= k < u.len() ==> !contains_value(u.take(k), #[trigger] u[k])
            &&& forall|i: int| 0 <= i < adds.len() ==> u.contains(#[trigger] adds[i]) || contains_value(u, adds[i])
        }),
    decreases adds.len(),
{
    let u = union_values(base, adds);
    if adds.len() == 0 {
        assert(u.take(base.len() as int) =~= base);
    } else {
        let rest = adds.drop_last();
        let prev = union_values(base, rest);
        lemma_union_values(base, rest);
        let x = adds.last();
        assert forall|k: int| base.len() <= k < prev.len() implies exists|i: int| 0 <= i < adds.len() && #[trigger] prev[k] == adds[i] by {
            let i = choose|i: int| 0 <= i < rest.len() && #[trigger] prev[k] == rest[i];
            assert(adds[i] == rest[i]);
        }
        if contains_value(prev, x) {
            assert(u == prev);
            assert forall|i: int| 0 <= i < adds.len() implies u.contains(#[trigger] adds[i]) || contains_value(u, adds[i]) by {
                if i < rest.len() {
                    assert(adds[i] == rest[i]);
                }
            }
        } else {
            assert(u == prev.push(x));
            assert(u.take(base.len() as int) =~= prev.take(base.len() as int));
            assert forall|k: int| base.len() <= k < u.len() implies exists|i: int| 0 <= i < adds.len() && #[trigger] u[k] == adds[i] by {
                if k < prev.len() {
                    assert(u[k] == prev[k]);
                } else {
                    assert(u[k] == adds[adds.len() - 1]);
                }
            }
            assert forall|k: int| base.len() <= k < u.len() implies !contains_value(u.take(k), #[trigger] u[k]) by {
                if k < prev.len() {
                    assert(u.take(k) =~= prev.take(k));
                    assert(u[k] == prev[k]);
                } else {
                    assert(u.take(k) =~= prev);
                }
            }
            assert forall|i: int| 0 <= i < adds.len() implies u.contains(#[trigger] adds[i]) || contains_value(u, adds[i]) by {
                if i < rest.len() {
                    assert(adds[i] == rest[i]);
                    if prev.contains(rest[i]) {
                        let j = choose|j: int| 0 <= j < prev.len() && prev[j] == rest[i];
                        assert(u[j] == prev[j]);
                    } else {
                        let j = choose|j: int| 0 <= j < prev.len() && crate::firestore::value::value::value_eq(#[trigger] prev[j], rest[i]);
                        assert(u[j] == prev[j]);
                    }
                } else {
                    assert(u[prev.len() as int] == adds[i]);
                }
            }
        }
    }
}

/// What an array removal leaves: the elements that equal no removal, in
/// their order; so no element left equals a removal, every element left was
/// there before, and every element that equals no removal stays.
pub proof fn lemma_remove_values(values: Seq<ValueModel>, removals: Seq<ValueModel>)
    ensures
        ({
            let r = remove_values(values, removals);
            &&& r.len() <= values.len()
            &&& forall|k: int| 0 <= k < r.len() ==> !contains_value(removals, #[trigger] r[k]) && values.contains(r[k])
            &&& forall|i: int| 0 <= i < values.len() && !contains_value(removals, #[trigger] values[i]) ==> r.contains(values[i])
        }),
    decreases values.len(),
{
    let r = remove_values(values, removals);
    if values.len() > 0 {
        let rest = values.drop_last();
        let prev = remove_values(rest, removals);
        lemma_remove_values(rest, removals);
        let x = values.last();
        assert forall|k: int| 0 <= k < prev.len() implies values.contains(#[trigger] prev[k]) by {
            let j = choose|j: int| 0 <= j < rest.len() && rest[j] == prev[k];
            assert(values[j] == rest[j]);
        }
        if contains_value(removals, x) {
            assert(r == prev);
            assert forall|i: int| 0 <= i < values.len() && !contains_value(removals, #[trigger] values[i]) implies r.contains(values[i]) by {
                assert(i < rest.len());
                assert(values[i] == rest[i]);
            }
        } else {
            assert(r == prev.push(x));
            assert forall|k: int| 0 <= k < r.len() implies !contains_value(removals, #[trigger] r[k]) && values.contains(r[k]) by {
                if k < prev.len() {
                    assert(r[k] == prev[k]);
                } else {
                    assert(r[k] == values[values.len() - 1]);
                }
            }
            assert forall|i: int| 0 <= i < values.len() && !contains_value(removals, #[trigger] values[i]) implies r.contains(values[i]) by {
                if i < rest.len() {
                    assert(values[i] == rest[i]);
                    let j = choose|j: int| 0 <= j < prev.len() && prev[j] == rest[i];
                    assert(r[j] == prev[j]);
                } else {
                    assert(r[prev.len() as int] == values[i]);
                }
            }
        }
    }
}


/// A number as the bits of a double: an integer `c` as `c as f64`.
pub open spec fn number_bits(v: ValueModel) -> Option<u64> {
    match v {
        ValueModel::Integer(c) => Some(int_to_double_bits(c)),
        ValueModel::Double(d) => Some(d),
        _ => None,
    }
}

/// What an increment leaves, in terms of the adder: a non-number operand
/// is refused; a field without a number takes the operand; two integers
/// whose sum fits add exactly; any other pair of numbers becomes the
/// adder's sum of the existing number and the operand, both as doubles, so
/// the existing number is never dropped.
pub proof fn lemma_increment_adds(existing: Option<ValueModel>, operand: ValueModel, sum: spec_fn(u64, u64) -> u64)
    ensures
        number_bits(operand) is None ==> increment_value(existing, operand, sum) is None,
        number_bits(operand) is Some && !(existing matches Some(x) && number_bits(x) is Some) ==> increment_value(
            existing,
            operand,
            sum,
        ) == Some(operand),
        existing matches Some(x) && number_bits(x) is Some && number_bits(operand) is Some ==> {
            let x = existing->Some_0;
            if (x matches ValueModel::Integer(c) && operand matches ValueModel::Integer(d) && i64::MIN <= c + d
                <= i64::MAX) {
                increment_value(existing, operand, sum) == Some(
                    ValueModel::Integer((x->Integer_0 + operand->Integer_0) as i64),
                )
            } else {
                increment_value(existing, operand, sum) == Some(
                    ValueModel::Double(sum(number_bits(x)->Some_0, number_bits(operand)->Some_0)),
                )
            }
        },
{
}

/// Incrementing an integer twice by integers, with every sum in range, is
/// incrementing it once by the sum of the two; incrementing by zero keeps an
/// integer.
pub proof fn lemma_increment_integers_compose(c: i64, d1: i64, d2: i64, sum: spec_fn(u64, u64) -> u64)
    requires
        i64::MIN <= c + d1 <= i64::MAX,
        i64::MIN <= d1 + d2 <= i64::MAX,
        i64::MIN <= c + d1 + d2 <= i64::MAX,
    ensures
        increment_value(
            increment_value(Some(ValueModel::Integer(c)), ValueModel::Integer(d1), sum),
            ValueModel::Integer(d2),
            sum,
        ) == increment_value(Some(ValueModel::Integer(c)), ValueModel::Integer((d1 + d2) as i64), sum),
        increment_value(Some(ValueModel::Integer(c)), ValueModel::Integer(0), sum) == Some(ValueModel::Integer(c)),
{
}

/// The model of an optional value.
pub open spec fn opt_model(v: Option<FirestoreValue>) -> Option<ValueModel> {
    match v {
        Some(x) => Some(x@),
        None => None,
    }
}

/// The elements of `existing` when it is an array.
fn existing_elements(existing: Option<FirestoreValue>) -> (r: Vec<FirestoreValue>)
    ensures
        models_of(r@) == array_elements(opt_model(existing)),
{
    match existing {
        Some(value) => match value.as_array() {
            Some(array) => crate::firestore::value::value::clone_values(array.values()),
            None => {
                let r: Vec<FirestoreValue> = Vec::new();
                proof {
                    lemma_models_of(r@);
                }
                assert(models_of(r@) =~= Seq::<ValueModel>::empty());
                r
            },
        },
        None => {
            let r: Vec<FirestoreValue> = Vec::new();
            proof {
                lemma_models_of(r@);
            }
            assert(models_of(r@) =~= Seq::<ValueModel>::empty());
            r
        },
    }
}

/// Whether some element of `values` equals `needle`.
fn vec_contains(values: &Vec<FirestoreValue>, needle: &FirestoreValue) -> (b: bool)
    ensures
        b == contains_value(models_of(values@), needle@),
{
    proof {
        lemma_models_of(values@);
    }
    let mut i: usize = 0;
    while i < values.len()
        invariant
            i <= values@.len(),
            models_of(values@).len() == values@.len(),
            forall|k: int| 0 <= k < values@.len() ==> #[trigger] models_of(values@)[k] == values@[k]@,
            forall|k: int| 0 <= k < i ==> !crate::firestore::value::value::value_eq(
                #[trigger] models_of(values@)[k],
                needle@,
            ),
        decreases values@.len() - i,
    {
        if values[i].equals(needle) {
            assert(crate::firestore::value::value::value_eq(models_of(values@)[i as int], needle@));
            return true;
        }
        i = i + 1;
    }
    false
}

/// An array holding the existing elements followed by each addition not yet
/// present.
pub fn array_union(existing: Option<FirestoreValue>, additions: &Vec<FirestoreValue>) -> (r: FirestoreValue)
    ensures
        r@ == ValueModel::Array(union_values(array_elements(opt_model(existing)), models_of(additions@))),
{
    let ghost base = array_elements(opt_model(existing));
    let mut values = existing_elements(existing);
    proof {
        lemma_models_of(additions@);
    }
    let mut i: usize = 0;
    while i < additions.len()
        invariant
            i <= additions@.len(),
            models_of(additions@).len() == additions@.len(),
            forall|k: int| 0 <= k < additions@.len() ==> #[trigger] models_of(additions@)[k] == additions@[k]@,
            models_of(values@) == union_values(base, models_of(additions@).take(i as int)),
        decreases additions@.len() - i,
    {
        let ghost before = values@;
        let present = vec_contains(&values, &additions[i]);
        proof {
            let t = models_of(additions@).take(i + 1);
            assert(t.drop_last() =~= models_of(additions@).take(i as int));
            assert(t.last() == additions@[i as int]@);
        }
        if !present {
            values.push(additions[i].clone());
            proof {
                lemma_models_of(before);
                lemma_models_of(values@);
                assert(models_of(values@) =~= models_of(before).push(additions@[i as int]@));
            }
        }
        i = i + 1;
    }
    assert(models_of(additions@).take(additions@.len() as int) =~= models_of(additions@));
    FirestoreValue::from_array(values)
}

/// An array holding the existing elements that equal none of `removals`.
pub fn array_remove(existing: Option<FirestoreValue>, removals: &Vec<FirestoreValue>) -> (r: FirestoreValue)
    ensures
        r@ == ValueModel::Array(remove_values(array_elements(opt_model(existing)), models_of(removals@))),
{
    let ghost base = array_elements(opt_model(existing));
    let values = existing_elements(existing);
    proof {
        lemma_models_of(values@);
    }
    let mut kept: Vec<FirestoreValue> = Vec::new();
    proof {
        lemma_models_of(kept@);
        assert(models_of(kept@) =~= remove_values(base.take(0), models_of(removals@)));
    }
    let mut i: usize = 0;
    while i < values.len()
        invariant
            i <= values@.len(),
            models_of(values@) == base,
            base.len() == values@.len(),
            forall|k: int| 0 <= k < values@.len() ==> #[trigger] base[k] == values@[k]@,
            models_of(kept@) == remove_values(base.take(i as int), models_of(removals@)),
        decreases values@.len() - i,
    {
        let ghost before = kept@;
        let removed = vec_contains(removals, &values[i]);
        proof {
            let t = base.take(i + 1);
            assert(t.drop_last() =~= base.take(i as int));
            assert(t.last() == values@[i as int]@);
        }
        if !removed {
            kept.push(values[i].clone());
            proof {
                lemma_models_of(before);
                lemma_models_of(kept@);
                assert(models_of(kept@) =~= models_of(before).push(values@[i as int]@));
            }
        }
        i = i + 1;
    }
    assert(base.take(values@.len() as int) =~= base);
    FirestoreValue::from_array(kept)
}


/// The sum of two doubles as the adder computes it.
fn add_doubles<F: Fn(u64, u64) -> u64>(adder: &F, a: u64, b: u64) -> (r: u64)
    requires
        is_adder(*adder),
    ensures
        r == adder_sum(*adder)(a, b),
{
    let r = adder(a, b);
    assert(adder.ensures((a, b), r));
    r
}

/// The value left by incrementing `existing` by `operand`; fails when the
/// operand is not a number.
pub fn numeric_increment<F: Fn(u64, u64) -> u64>(
    existing: Option<FirestoreValue>,
    operand: &FirestoreValue,
    adder: &F,
) -> (r: FirestoreResult<FirestoreValue>)
    requires
        is_adder(*adder),
    ensures
        match r {
            Ok(v) => increment_value(opt_model(existing), operand@, adder_sum(*adder)) == Some(v@),
            Err(e) => increment_value(opt_model(existing), operand@, adder_sum(*adder)) is None
                && e.code == FirestoreErrorCode::InvalidArgument,
        },
{
    let ghost current = opt_model(existing);
    match (operand.as_integer(), operand.as_double_bits()) {
        (Some(delta), _) => match existing {
            Some(value) => match (value.as_integer(), value.as_double_bits()) {
                (Some(c), _) => match c.checked_add(delta) {
                    Some(total) => Ok(FirestoreValue::from_integer(total)),
                    None => {
                        let a = int_to_double(c);
                        let b = int_to_double(delta);
                        Ok(FirestoreValue::from_double_bits(add_doubles(adder, a, b)))
                    },
                },
                (None, Some(c)) => {
                    let b = int_to_double(delta);
                    Ok(FirestoreValue::from_double_bits(add_doubles(adder, c, b)))
                },
                (None, None) => Ok(FirestoreValue::from_integer(delta)),
            },
            None => Ok(FirestoreValue::from_integer(delta)),
        },
        (None, Some(delta)) => match existing {
            Some(value) => match (value.as_integer(), value.as_double_bits()) {
                (Some(c), _) => {
                    let a = int_to_double(c);
                    Ok(FirestoreValue::from_double_bits(add_doubles(adder, a, delta)))
                },
                (None, Some(c)) => Ok(FirestoreValue::from_double_bits(add_doubles(adder, c, delta))),
                (None, None) => Ok(FirestoreValue::from_double_bits(delta)),
            },
            None => Ok(FirestoreValue::from_double_bits(delta)),
        },
        (None, None) => Err(invalid_argument("FieldValue.increment() requires a numeric operand")),
    }
}


/// A transform as a plain value.
pub enum TransformModel {
    ServerTimestamp,
    ArrayUnion(Seq<ValueModel>),
    ArrayRemove(Seq<ValueModel>),
    NumericIncrement(ValueModel),
}

/// The model of a transform operation.
pub open spec fn transform_model(op: TransformOperation) -> TransformModel {
    match op {
        TransformOperation::ServerTimestamp => TransformModel::ServerTimestamp,
        TransformOperation::ArrayUnion(vs) => TransformModel::ArrayUnion(models_of(vs@)),
        TransformOperation::ArrayRemove(vs) => TransformModel::ArrayRemove(models_of(vs@)),
        TransformOperation::NumericIncrement(v) => TransformModel::NumericIncrement(v@),
    }
}

/// The models of a list of field transforms: each field path with its
/// transform.
pub open spec fn transform_models(ts: Seq<FieldTransform>) -> Seq<(Seq<Seq<char>>, TransformModel)> {
    ts.map_values(|t: FieldTransform| (t.field_path@, transform_model(t.operation)))
}

/// The value a transform stores in a field that held `current`, with `now` as
/// the server time; `None` when the transform cannot apply.
pub open spec fn transform_value(
    op: TransformModel,
    current: Option<ValueModel>,
    now: Timestamp,
    sum: spec_fn(u64, u64) -> u64,
) -> Option<ValueModel> {
    match op {
        TransformModel::ServerTimestamp => Some(ValueModel::Timestamp(now)),
        TransformModel::ArrayUnion(xs) => Some(
            ValueModel::Array(union_values(array_elements(current), xs)),
        ),
        TransformModel::ArrayRemove(xs) => Some(
            ValueModel::Array(remove_values(array_elements(current), xs)),
        ),
        TransformModel::NumericIncrement(d) => increment_value(current, d, sum),
    }
}

/// What each transform leaves in a field: the server time replaces whatever
/// was there; an array union keeps the existing array (none for a non-array)
/// in front and adds to it; an array removal leaves only elements of the
/// existing array (none for a non-array); an increment is a numeric
/// increment of the field.
pub proof fn lemma_transform_effects(
    op: TransformModel,
    current: Option<ValueModel>,
    now: Timestamp,
    sum: spec_fn(u64, u64) -> u64,
)
    ensures
        op is ServerTimestamp ==> transform_value(op, current, now, sum) == Some(ValueModel::Timestamp(now)),
        op matches TransformModel::ArrayUnion(xs) ==> (transform_value(op, current, now, sum) matches Some(
            ValueModel::Array(u),
        ) && u.take(array_elements(current).len() as int) == array_elements(current) && u.len()
            >= array_elements(current).len()),
        op matches TransformModel::ArrayRemove(xs) ==> (transform_value(op, current, now, sum) matches Some(
            ValueModel::Array(r),
        ) && forall|k: int| 0 <= k < r.len() ==> array_elements(current).contains(#[trigger] r[k])),
        !(current matches Some(ValueModel::Array(_))) ==> array_elements(current) == Seq::<ValueModel>::empty(),
        op matches TransformModel::NumericIncrement(d) ==> transform_value(op, current, now, sum)
            == increment_value(current, d, sum),
{
    match op {
        TransformModel::ArrayUnion(xs) => {
            lemma_union_values(array_elements(current), xs);
        },
        TransformModel::ArrayRemove(xs) => {
            lemma_remove_values(array_elements(current), xs);
        },
        _ => {},
    }
}

/// The fields after applying the transforms in order to `fields`, each
/// reading its field from `base` (the fields as they were before any
/// transform) and the `i`-th one seeing the server time `stamps[i]`; `None`
/// when one of them cannot apply.
pub open spec fn transforms_result(
    base: Entries,
    fields: Entries,
    ts: Seq<(Seq<Seq<char>>, TransformModel)>,
    stamps: Seq<Timestamp>,
    sum: spec_fn(u64, u64) -> u64,
) -> Option<Entries>
    decreases ts.len(),
{
    if ts.len() == 0 {
        Some(fields)
    } else {
        match transforms_result(base, fields, ts.drop_last(), stamps.drop_last(), sum) {
            None => None,
            Some(f) => match transform_value(ts.last().1, value_at(base, ts.last().0), stamps.last(), sum) {
                None => None,
                Some(v) => Some(set_at(f, ts.last().0, v)),
            },
        }
    }
}

/// A transform that cannot apply makes every longer list of transforms fail.
proof fn lemma_transforms_none_extends(
    base: Entries,
    fields: Entries,
    ts: Seq<(Seq<Seq<char>>, TransformModel)>,
    stamps: Seq<Timestamp>,
    sum: spec_fn(u64, u64) -> u64,
    k: int,
)
    requires
        0 <= k <= ts.len(),
        stamps.len() == ts.len(),
        transforms_result(base, fields, ts.take(k), stamps.take(k), sum) is None,
    ensures
        transforms_result(base, fields, ts, stamps, sum) is None,
    decreases ts.len(),
{
    if k == ts.len() {
        assert(ts.take(k) =~= ts);
        assert(stamps.take(k) =~= stamps);
    } else {
        assert(ts.drop_last().take(k) =~= ts.take(k));
        assert(stamps.drop_last().take(k) =~= stamps.take(k));
        lemma_transforms_none_extends(base, fields, ts.drop_last(), stamps.drop_last(), sum, k);
    }
}

/// The value a transform stores in a field that held `current`.
pub(crate) fn apply_transform<F: Fn(u64, u64) -> u64>(
    op: &TransformOperation,
    current: Option<FirestoreValue>,
    adder: &F,
) -> (r: (FirestoreResult<FirestoreValue>, Ghost<Timestamp>))
    requires
        is_adder(*adder),
    ensures
        match r.0 {
            Ok(v) => transform_value(transform_model(*op), opt_model(current), r.1@, adder_sum(*adder)) == Some(v@),
            Err(e) => transform_value(transform_model(*op), opt_model(current), r.1@, adder_sum(*adder)) is None
                && e.code == FirestoreErrorCode::InvalidArgument,
        },
{
    match op {
        TransformOperation::ServerTimestamp => {
            let now = Timestamp::now();
            (Ok(FirestoreValue::from_timestamp(now)), Ghost(now))
        },
        TransformOperation::ArrayUnion(elements) => {
            (Ok(array_union(current, elements)), Ghost(Timestamp { seconds: 0, nanos: 0 }))
        },
        TransformOperation::ArrayRemove(elements) => {
            (Ok(array_remove(current, elements)), Ghost(Timestamp { seconds: 0, nanos: 0 }))
        },
        TransformOperation::NumericIncrement(operand) => {
            (numeric_increment(current, operand, adder), Ghost(Timestamp { seconds: 0, nanos: 0 }))
        },
    }
}

/// Applies the transforms in order, each reading its field from the fields as
/// they were before any transform; also gives the server times the
/// transforms saw.
fn apply_field_transforms<F: Fn(u64, u64) -> u64>(
    fields: &mut MapValue,
    transforms: &Vec<FieldTransform>,
    adder: &F,
) -> (r: (FirestoreResult<()>, Ghost<Seq<Timestamp>>))
    requires
        is_adder(*adder),
    ensures
        r.1@.len() == transforms@.len(),
        match r.0 {
            Ok(_) => transforms_result(old(fields)@, old(fields)@, transform_models(transforms@), r.1@, adder_sum(*adder))
                == Some(final(fields)@),
            Err(e) => transforms_result(old(fields)@, old(fields)@, transform_models(transforms@), r.1@, adder_sum(*adder))
                is None && e.code == FirestoreErrorCode::InvalidArgument,
        },
{
    let ghost start = fields@;
    let ghost tm = transform_models(transforms@);
    let ghost sum = adder_sum(*adder);
    let ghost mut stamps: Seq<Timestamp> = Seq::empty();
    if transforms.len() == 0 {
        assert(tm.len() == 0);
        assert(transforms_result(start, start, tm, stamps, sum) == Some(start));
        return (Ok(()), Ghost(stamps));
    }
    let base_map = fields.clone();
    let mut i: usize = 0;
    while i < transforms.len()
        invariant
            i <= transforms@.len(),
            tm == transform_models(transforms@),
            tm.len() == transforms@.len(),
            sum == adder_sum(*adder),
            is_adder(*adder),
            base_map@ == start,
            start == old(fields)@,
            stamps.len() == i,
            transforms_result(start, start, tm.take(i as int), stamps, sum) == Some(fields@),
        decreases transforms@.len() - i,
    {
        let transform = &transforms[i];
        let path = transform.field_path();
        let current_value = value_for_field_path(&base_map, path);
        let (outcome, Ghost(now)) = apply_transform(transform.operation(), current_value, adder);
        let ghost before = stamps;
        proof {
            stamps = stamps.push(now);
            let t = tm.take(i + 1);
            assert(t.drop_last() =~= tm.take(i as int));
            assert(t.last() == tm[i as int]);
            assert(tm[i as int] == (transforms@[i as int].field_path@, transform_model(transforms@[i as int].operation)));
            assert(stamps.drop_last() =~= before);
        }
        match outcome {
            Ok(value) => {
                set_value_at_field_path(fields, path, value);
            },
            Err(e) => {
                let ghost full = stamps + Seq::new((transforms@.len() - (i + 1)) as nat, |k: int| now);
                proof {
                    assert(full.take(i + 1) =~= stamps);
                    lemma_transforms_none_extends(start, start, tm, full, sum, i + 1);
                }
                return (Err(e), Ghost(full));
            },
        }
        i = i + 1;
    }
    assert(tm.take(tm.len() as int) =~= tm);
    (Ok(()), Ghost(stamps))
}

/// The entries after removing the value at the nested path `segments`: a
/// parent map left empty is removed too, and a path through a non-map value
/// changes nothing.
pub open spec fn remove_at(es: Entries, segments: Seq<Seq<char>>) -> Entries
    decreases segments.len(),
{
    if segments.len() == 0 {
        es
    } else if segments.len() == 1 {
        remove_sorted(es, segments[0])
    } else {
        match lookup(es, segments[0]) {
            Some(ValueModel::Mapping(child)) => {
                let c = remove_at(child, segments.drop_first());
                if c.len() == 0 {
                    remove_sorted(es, segments[0])
                } else {
                    insert_sorted(es, segments[0], ValueModel::Mapping(c))
                }
            },
            _ => es,
        }
    }
}

/// Removes the value at `segments[start..]` inside `fields`.
fn remove_value_at_segments(fields: &mut MapValue, segments: &Vec<String>, start: usize)
    requires
        start <= segments@.len(),
    ensures
        final(fields)@ == remove_at(old(fields)@, string_views(segments@).skip(start as int)),
    decreases segments@.len() - start,
{
    let ghost segs = string_views(segments@).skip(start as int);
    if start >= segments.len() {
        return;
    }
    assert(segs[0] == segments@[start as int]@);
    if start + 1 == segments.len() {
        let _ = fields.remove(segments[start].as_str());
        return;
    }
    assert(segs.drop_first() =~= string_views(segments@).skip(start + 1));
    let child = match fields.get(segments[start].as_str()) {
        Some(existing) => match existing.as_map() {
            Some(m) => Some(m.clone()),
            None => None,
        },
        None => None,
    };
    match child {
        Some(mut c) => {
            remove_value_at_segments(&mut c, segments, start + 1);
            if c.is_empty() {
                let _ = fields.remove(segments[start].as_str());
            } else {
                fields.insert(segments[start].clone(), FirestoreValue::from_map(c));
            }
        },
        None => {},
    }
}

/// Removes the value at `path` inside `fields`.
fn remove_value_at_field_path(fields: &mut MapValue, path: &FieldPath)
    ensures
        final(fields)@ == remove_at(old(fields)@, path@),
{
    let segments = path.segments();
    assert(string_views(segments@).skip(0) =~= string_views(segments@));
    remove_value_at_segments(fields, segments, 0);
}

/// The fields after each path of the mask takes its value from `data`, or
/// loses its value when `data` has none there.
pub open spec fn mask_applied(fields: Entries, data: Entries, mask: Seq<Seq<Seq<char>>>) -> Entries
    decreases mask.len(),
{
    if mask.len() == 0 {
        fields
    } else {
        let f = mask_applied(fields, data, mask.drop_last());
        match value_at(data, mask.last()) {
            Some(v) => set_at(f, mask.last(), v),
            None => remove_at(f, mask.last()),
        }
    }
}

/// The fields after each path takes its value from `data`; `None` when `data`
/// has no value at one of the paths.
pub open spec fn updates_applied(fields: Entries, data: Entries, paths: Seq<Seq<Seq<char>>>) -> Option<Entries>
    decreases paths.len(),
{
    if paths.len() == 0 {
        Some(fields)
    } else {
        match updates_applied(fields, data, paths.drop_last()) {
            None => None,
            Some(f) => match value_at(data, paths.last()) {
                None => None,
                Some(v) => Some(set_at(f, paths.last(), v)),
            },
        }
    }
}

/// The fields of a document that may not exist; none when it does not.
pub open spec fn known_fields(doc: Option<Entries>) -> Entries {
    match doc {
        Some(f) => f,
        None => Seq::<(Seq<char>, ValueModel)>::empty(),
    }
}

/// The model of a document that may not exist.
pub open spec fn doc_model(doc: Option<MapValue>) -> Option<Entries> {
    match doc {
        Some(m) => Some(m@),
        None => None,
    }
}

/// The document after one write is laid over `current` (`None`: no
/// document), with `stamps` as the server times its transforms see; `None`
/// when the write cannot apply.
pub open spec fn overlay_result(
    current: Option<Entries>,
    w: WriteOperation,
    stamps: Seq<Timestamp>,
    sum: spec_fn(u64, u64) -> u64,
) -> Option<Option<Entries>> {
    match w {
        WriteOperation::SetData { data, mask, transforms, .. } => {
            let fields = match mask {
                Some(m) => mask_applied(known_fields(current), data@, field_views(m@)),
                None => data@,
            };
            match transforms_result(fields, fields, transform_models(transforms@), stamps, sum) {
                Some(f) => Some(Some(f)),
                None => None,
            }
        },
        WriteOperation::Update { data, field_paths, transforms, .. } => match updates_applied(
            known_fields(current),
            data@,
            field_views(field_paths@),
        ) {
            None => None,
            Some(fields) => match transforms_result(fields, fields, transform_models(transforms@), stamps, sum) {
                Some(f) => Some(Some(f)),
                None => None,
            },
        },
        WriteOperation::Delete { .. } => Some(None),
    }
}

/// The document after the writes are laid over `base` in order, the `i`-th
/// one with `stamps[i]` as its server times; `None` when one cannot apply.
pub open spec fn overlays_result(
    base: Option<Entries>,
    ws: Seq<WriteOperation>,
    stamps: Seq<Seq<Timestamp>>,
    sum: spec_fn(u64, u64) -> u64,
) -> Option<Option<Entries>>
    decreases ws.len(),
{
    if ws.len() == 0 {
        Some(base)
    } else {
        match overlays_result(base, ws.drop_last(), stamps.drop_last(), sum) {
            None => None,
            Some(cur) => overlay_result(cur, ws.last(), stamps.last(), sum),
        }
    }
}

/// The fields of `current`, or none when there is no document.
fn known_map(current: Option<MapValue>) -> (r: MapValue)
    ensures
        r@ == known_fields(doc_model(current)),
{
    match current {
        Some(m) => m,
        None => MapValue::empty(),
    }
}

/// Lays a set write over `current`: the data replaces the document, or only
/// the masked fields when a mask is given; then the transforms apply.
fn apply_set_overlay<F: Fn(u64, u64) -> u64>(
    current: Option<MapValue>,
    data: &MapValue,
    mask: &Option<Vec<FieldPath>>,
    transforms: &Vec<FieldTransform>,
    adder: &F,
) -> (r: (FirestoreResult<Option<MapValue>>, Ghost<Seq<Timestamp>>))
    requires
        is_adder(*adder),
    ensures
        r.1@.len() == transforms@.len(),
        ({
            let fields = match *mask {
                Some(m) => mask_applied(known_fields(doc_model(current)), data@, field_views(m@)),
                None => data@,
            };
            match r.0 {
                Ok(m) => transforms_result(fields, fields, transform_models(transforms@), r.1@, adder_sum(*adder))
                    == Some(known_fields(doc_model(m))) && m is Some,
                Err(e) => transforms_result(fields, fields, transform_models(transforms@), r.1@, adder_sum(*adder))
                    is None && e.code == FirestoreErrorCode::InvalidArgument,
            }
        }),
{
    let mut fields = match mask {
        Some(mask) => {
            let mut fields = known_map(current);
            let ghost start = fields@;
            let mut i: usize = 0;
            while i < mask.len()
                invariant
                    i <= mask@.len(),
                    fields@ == mask_applied(start, data@, field_views(mask@).take(i as int)),
                decreases mask@.len() - i,
            {
                let path = &mask[i];
                proof {
                    let t = field_views(mask@).take(i + 1);
                    assert(t.drop_last() =~= field_views(mask@).take(i as int));
                    assert(t.last() == mask@[i as int]@);
                }
                match value_for_field_path(data, path) {
                    Some(value) => set_value_at_field_path(&mut fields, path, value),
                    None => remove_value_at_field_path(&mut fields, path),
                }
                i = i + 1;
            }
            assert(field_views(mask@).take(mask@.len() as int) =~= field_views(mask@));
            fields
        },
        None => data.clone(),
    };
    let (outcome, stamps) = apply_field_transforms(&mut fields, transforms, adder);
    match outcome {
        Ok(_) => (Ok(Some(fields)), stamps),
        Err(e) => (Err(e), stamps),
    }
}

/// Lays an update write over `current`: each listed path takes its value from
/// the data (failing when the data has none there); then the transforms
/// apply.
fn apply_update_overlay<F: Fn(u64, u64) -> u64>(
    current: Option<MapValue>,
    data: &MapValue,
    field_paths: &Vec<FieldPath>,
    transforms: &Vec<FieldTransform>,
    adder: &F,
) -> (r: (FirestoreResult<Option<MapValue>>, Ghost<Seq<Timestamp>>))
    requires
        is_adder(*adder),
    ensures
        r.1@.len() == transforms@.len(),
        match updates_applied(known_fields(doc_model(current)), data@, field_views(field_paths@)) {
            None => r.0 is Err && r.0->Err_0.code == FirestoreErrorCode::InvalidArgument,
            Some(fields) => match r.0 {
                Ok(m) => transforms_result(fields, fields, transform_models(transforms@), r.1@, adder_sum(*adder))
                    == Some(known_fields(doc_model(m))) && m is Some,
                Err(e) => transforms_result(fields, fields, transform_models(transforms@), r.1@, adder_sum(*adder))
                    is None && e.code == FirestoreErrorCode::InvalidArgument,
            },
        },
{
    let mut fields = known_map(current);
    let ghost start = fields@;
    let ghost paths = field_views(field_paths@);
    let ghost filler = Seq::new(transforms@.len(), |k: int| Timestamp { seconds: 0, nanos: 0 });
    let mut i: usize = 0;
    while i < field_paths.len()
        invariant
            i <= field_paths@.len(),
            paths == field_views(field_paths@),
            start == known_fields(doc_model(current)),
            filler.len() == transforms@.len(),
            updates_applied(start, data@, paths.take(i as int)) == Some(fields@),
        decreases field_paths@.len() - i,
    {
        let path = &field_paths[i];
        proof {
            let t = paths.take(i + 1);
            assert(t.drop_last() =~= paths.take(i as int));
            assert(t.last() == field_paths@[i as int]@);
        }
        match value_for_field_path(data, path) {
            Some(value) => set_value_at_field_path(&mut fields, path, value),
            None => {
                let mut message = owned("Failed to resolve value for update path ");
                let rendered = path.canonical_string();
                message.append(rendered.as_str());
                proof {
                    lemma_updates_none_extends(start, data@, paths, i + 1);
                }
                return (Err(invalid_argument(message.as_str())), Ghost(filler));
            },
        }
        i = i + 1;
    }
    assert(paths.take(paths.len() as int) =~= paths);
    let (outcome, stamps) = apply_field_transforms(&mut fields, transforms, adder);
    match outcome {
        Ok(_) => (Ok(Some(fields)), stamps),
        Err(e) => (Err(e), stamps),
    }
}

/// An update path that the data cannot resolve makes every longer list of
/// paths fail.
proof fn lemma_updates_none_extends(fields: Entries, data: Entries, paths: Seq<Seq<Seq<char>>>, k: int)
    requires
        0 <= k <= paths.len(),
        updates_applied(fields, data, paths.take(k)) is None,
    ensures
        updates_applied(fields, data, paths) is None,
    decreases paths.len(),
{
    if k == paths.len() {
        assert(paths.take(k) =~= paths);
    } else {
        assert(paths.drop_last().take(k) =~= paths.take(k));
        lemma_updates_none_extends(fields, data, paths.drop_last(), k);
    }
}

/// Lays one write over `current`.
fn apply_overlay_once<F: Fn(u64, u64) -> u64>(
    current: Option<MapValue>,
    write: &WriteOperation,
    adder: &F,
) -> (r: (FirestoreResult<Option<MapValue>>, Ghost<Seq<Timestamp>>))
    requires
        is_adder(*adder),
    ensures
        match r.0 {
            Ok(m) => overlay_result(doc_model(current), *write, r.1@, adder_sum(*adder)) == Some(doc_model(m)),
            Err(e) => overlay_result(doc_model(current), *write, r.1@, adder_sum(*adder)) is None
                && e.code == FirestoreErrorCode::InvalidArgument,
        },
{
    match write {
        WriteOperation::SetData { data, mask, transforms, .. } => apply_set_overlay(
            current,
            data,
            mask,
            transforms,
            adder,
        ),
        WriteOperation::Update { data, field_paths, transforms, .. } => apply_update_overlay(
            current,
            data,
            field_paths,
            transforms,
            adder,
        ),
        WriteOperation::Delete { .. } => (Ok(None), Ghost(Seq::empty())),
    }
}

/// A write that cannot apply makes every longer list of writes fail.
proof fn lemma_overlays_none_extends(
    base: Option<Entries>,
    ws: Seq<WriteOperation>,
    stamps: Seq<Seq<Timestamp>>,
    sum: spec_fn(u64, u64) -> u64,
    k: int,
)
    requires
        0 <= k <= ws.len(),
        stamps.len() == ws.len(),
        overlays_result(base, ws.take(k), stamps.take(k), sum) is None,
    ensures
        overlays_result(base, ws, stamps, sum) is None,
    decreases ws.len(),
{
    if k == ws.len() {
        assert(ws.take(k) =~= ws);
        assert(stamps.take(k) =~= stamps);
    } else {
        assert(ws.drop_last().take(k) =~= ws.take(k));
        assert(stamps.drop_last().take(k) =~= stamps.take(k));
        lemma_overlays_none_extends(base, ws.drop_last(), stamps.drop_last(), sum, k);
    }
}

/// The document seen once the pending writes are laid over `base` in order
/// (`None`: no document). Holds for every reading of the clock that server
/// timestamps take; fails, with an invalid-argument error, exactly when one
/// write cannot apply.
pub fn apply_document_overlays<F: Fn(u64, u64) -> u64>(
    base: Option<MapValue>,
    overlays: &Vec<WriteOperation>,
    adder: &F,
) -> (r: FirestoreResult<Option<MapValue>>)
    requires
        is_adder(*adder),
    ensures
        exists|stamps: Seq<Seq<Timestamp>>|
            #![trigger overlays_result(doc_model(base), overlays@, stamps, adder_sum(*adder))]
            stamps.len() == overlays@.len() && match r {
                Ok(m) => overlays_result(doc_model(base), overlays@, stamps, adder_sum(*adder))
                    == Some(doc_model(m)),
                Err(e) => overlays_result(doc_model(base), overlays@, stamps, adder_sum(*adder)) is None
                    && e.code == FirestoreErrorCode::InvalidArgument,
            },
{
    let ghost start = doc_model(base);
    let ghost sum = adder_sum(*adder);
    let ghost mut stamps: Seq<Seq<Timestamp>> = Seq::empty();
    let mut current = base;
    let mut i: usize = 0;
    while i < overlays.len()
        invariant
            i <= overlays@.len(),
            is_adder(*adder),
            sum == adder_sum(*adder),
            stamps.len() == i,
            start == doc_model(base),
            overlays_result(start, overlays@.take(i as int), stamps, sum) == Some(doc_model(current)),
        decreases overlays@.len() - i,
    {
        let (outcome, Ghost(seen)) = apply_overlay_once(current, &overlays[i], adder);
        let ghost before = stamps;
        proof {
            stamps = stamps.push(seen);
            let t = overlays@.take(i + 1);
            assert(t.drop_last() =~= overlays@.take(i as int));
            assert(t.last() == overlays@[i as int]);
            assert(stamps.drop_last() =~= before);
        }
        match outcome {
            Ok(next) => {
                current = next;
            },
            Err(e) => {
                let ghost full = stamps + Seq::new((overlays@.len() - (i + 1)) as nat, |k: int| seen);
                proof {
                    assert(full.take(i + 1) =~= stamps);
                    lemma_overlays_none_extends(start, overlays@, full, sum, i + 1);
                    assert(full.len() == overlays@.len());
                    assert(overlays_result(doc_model(base), overlays@, full, adder_sum(*adder)) is None);
                }
                return Err(e);
            },
        }
        i = i + 1;
    }
    assert(overlays@.take(overlays@.len() as int) =~= overlays@);
    Ok(current)
}

/// A pending delete hides the document, whatever it held.
pub proof fn lemma_delete_overlay_hides(
    current: Option<Entries>,
    w: WriteOperation,
    stamps: Seq<Timestamp>,
    sum: spec_fn(u64, u64) -> u64,
)
    requires
        w is Delete,
    ensures
        overlay_result(current, w, stamps, sum) == Some(None::<Entries>),
{
}

/// A set write without mask or transforms shows exactly its data, whatever
/// the document held.
pub proof fn lemma_set_overlay_replaces(
    current: Option<Entries>,
    w: WriteOperation,
    stamps: Seq<Timestamp>,
    sum: spec_fn(u64, u64) -> u64,
)
    requires
        w matches WriteOperation::SetData { mask, transforms, .. } && mask is None && transforms@.len() == 0,
    ensures
        overlay_result(current, w, stamps, sum) == Some(Some(w->SetData_data@)),
{
    assert(transform_models(w->SetData_transforms@).len() == 0);
}

/// An update of one path without transforms makes that path read back the
/// value the data holds there.
pub proof fn lemma_update_overlay_reads_back(
    current: Option<Entries>,
    w: WriteOperation,
    stamps: Seq<Timestamp>,
    sum: spec_fn(u64, u64) -> u64,
)
    requires
        w matches WriteOperation::Update { data, field_paths, transforms, .. } && field_paths@.len()
            == 1 && transforms@.len() == 0 && value_at(data@, field_paths@[0]@) is Some,
        sorted_along(known_fields(current), w->Update_field_paths@[0]@),
    ensures
        overlay_result(current, w, stamps, sum) matches Some(Some(f)) && value_at(
            f,
            w->Update_field_paths@[0]@,
        ) == value_at(w->Update_data@, w->Update_field_paths@[0]@),
{
    let paths = field_views(w->Update_field_paths@);
    let p = w->Update_field_paths@[0]@;
    let v = value_at(w->Update_data@, p)->Some_0;
    let fields = known_fields(current);
    assert(paths.drop_last() =~= Seq::<Seq<Seq<char>>>::empty());
    assert(paths.last() == p);
    assert(updates_applied(fields, w->Update_data@, paths.drop_last()) == Some(fields));
    assert(updates_applied(fields, w->Update_data@, paths) == Some(set_at(fields, p, v)));
    let tm = transform_models(w->Update_transforms@);
    assert(tm.len() == 0);
    let f = set_at(fields, p, v);
    assert(transforms_result(f, f, tm, stamps, sum) == Some(f));
    lemma_set_at_reads_back(fields, p, v);
}

/// A masked set write on one path that its data holds makes that path read
/// back the data's value.
pub proof fn lemma_masked_set_reads_back(
    current: Option<Entries>,
    w: WriteOperation,
    stamps: Seq<Timestamp>,
    sum: spec_fn(u64, u64) -> u64,
)
    requires
        w matches WriteOperation::SetData { data, mask, transforms, .. } && mask matches Some(m)
            && m@.len() == 1 && transforms@.len() == 0 && value_at(data@, m@[0]@) is Some,
        sorted_along(known_fields(current), w->SetData_mask->Some_0@[0]@),
    ensures
        overlay_result(current, w, stamps, sum) matches Some(Some(f)) && value_at(
            f,
            w->SetData_mask->Some_0@[0]@,
        ) == value_at(w->SetData_data@, w->SetData_mask->Some_0@[0]@),
{
    let m = field_views(w->SetData_mask->Some_0@);
    let p = w->SetData_mask->Some_0@[0]@;
    let v = value_at(w->SetData_data@, p)->Some_0;
    let fields = known_fields(current);
    assert(m.drop_last() =~= Seq::<Seq<Seq<char>>>::empty());
    assert(m.last() == p);
    assert(mask_applied(fields, w->SetData_data@, m.drop_last()) == fields);
    assert(mask_applied(fields, w->SetData_data@, m) == set_at(fields, p, v));
    let tm = transform_models(w->SetData_transforms@);
    assert(tm.len() == 0);
    let f = set_at(fields, p, v);
    assert(transforms_result(f, f, tm, stamps, sum) == Some(f));
    lemma_set_at_reads_back(fields, p, v);
}

/// Laying two runs of writes one after the other is laying them all at once.
pub proof fn lemma_overlays_compose(
    base: Option<Entries>,
    first: Seq<WriteOperation>,
    second: Seq<WriteOperation>,
    first_stamps: Seq<Seq<Timestamp>>,
    second_stamps: Seq<Seq<Timestamp>>,
    sum: spec_fn(u64, u64) -> u64,
)
    requires
        first_stamps.len() == first.len(),
        second_stamps.len() == second.len(),
    ensures
        overlays_result(base, first + second, first_stamps + second_stamps, sum) == match overlays_result(
            base,
            first,
            first_stamps,
            sum,
        ) {
            None => None,
            Some(mid) => overlays_result(mid, second, second_stamps, sum),
        },
    decreases second.len(),
{
    if second.len() == 0 {
        assert(first + second =~= first);
        assert(first_stamps + second_stamps =~= first_stamps);
    } else {
        lemma_overlays_compose(base, first, second.drop_last(), first_stamps, second_stamps.drop_last(), sum);
        assert((first + second).drop_last() =~= first + second.drop_last());
        assert((first_stamps + second_stamps).drop_last() =~= first_stamps + second_stamps.drop_last());
    }
}

/// What a write says, by the views of its parts.
pub enum WriteModel {
    SetData {
        key: Seq<Seq<char>>,
        data: Entries,
        mask: Option<Seq<Seq<Seq<char>>>>,
        transforms: Seq<(Seq<Seq<char>>, TransformModel)>,
    },
    Update {
        key: Seq<Seq<char>>,
        data: Entries,
        field_paths: Seq<Seq<Seq<char>>>,
        transforms: Seq<(Seq<Seq<char>>, TransformModel)>,
    },
    Delete { key: Seq<Seq<char>> },
}

/// The model of a write.
pub open spec fn write_model(w: WriteOperation) -> WriteModel {
    match w {
        WriteOperation::SetData { key, data, mask, transforms } => WriteModel::SetData {
            key: key@,
            data: data@,
            mask: match mask {
                Some(m) => Some(field_views(m@)),
                None => None,
            },
            transforms: transform_models(transforms@),
        },
        WriteOperation::Update { key, data, field_paths, transforms } => WriteModel::Update {
            key: key@,
            data: data@,
            field_paths: field_views(field_paths@),
            transforms: transform_models(transforms@),
        },
        WriteOperation::Delete { key } => WriteModel::Delete { key: key@ },
    }
}

/// The models of a list of writes.
pub open spec fn write_models(ws: Seq<WriteOperation>) -> Seq<WriteModel> {
    ws.map_values(|w: WriteOperation| write_model(w))
}

/// Writes with the same models lay the same document over any base.
pub proof fn lemma_overlays_congruent(
    base: Option<Entries>,
    a: Seq<WriteOperation>,
    b: Seq<WriteOperation>,
    stamps: Seq<Seq<Timestamp>>,
    sum: spec_fn(u64, u64) -> u64,
)
    requires
        write_models(a) == write_models(b),
    ensures
        overlays_result(base, a, stamps, sum) == overlays_result(base, b, stamps, sum),
    decreases a.len(),
{
    assert(a.len() == write_models(a).len() && b.len() == write_models(b).len());
    if a.len() > 0 {
        assert(write_models(a.drop_last()) =~= write_models(a).drop_last());
        assert(write_models(b.drop_last()) =~= write_models(b).drop_last());
        lemma_overlays_congruent(base, a.drop_last(), b.drop_last(), stamps.drop_last(), sum);
        assert(write_model(a.last()) == write_models(a)[a.len() - 1]);
        assert(write_model(b.last()) == write_models(b)[b.len() - 1]);
    }
}

fn clone_field_paths(v: &Vec<FieldPath>) -> (r: Vec<FieldPath>)
    ensures
        field_views(r@) == field_views(v@),
{
    let mut r: Vec<FieldPath> = Vec::new();
    let mut i: usize = 0;
    while i < v.len()
        invariant
            i <= v@.len(),
            field_views(r@) == field_views(v@.take(i as int)),
        decreases v@.len() - i,
    {
        let c = v[i].clone();
        let ghost before = r@;
        r.push(c);
        assert(v@.take(i + 1) =~= v@.take(i as int).push(v@[i as int]));
        assert(r@ =~= before.push(c));
        assert(field_views(r@) =~= field_views(before).push(c@));
        assert(field_views(v@.take(i + 1)) =~= field_views(v@.take(i as int)).push(v@[i as int]@));
        i = i + 1;
    }
    assert(v@.take(i as int) =~= v@);
    r
}

impl Clone for TransformOperation {
    fn clone(&self) -> (r: Self)
        ensures
            transform_model(r) == transform_model(*self),
    {
        match self {
            TransformOperation::ServerTimestamp => TransformOperation::ServerTimestamp,
            TransformOperation::ArrayUnion(vs) => TransformOperation::ArrayUnion(clone_values(vs)),
            TransformOperation::ArrayRemove(vs) => TransformOperation::ArrayRemove(clone_values(vs)),
            TransformOperation::NumericIncrement(v) => TransformOperation::NumericIncrement(v.clone()),
        }
    }
}

impl Clone for FieldTransform {
    fn clone(&self) -> (r: Self)
        ensures
            r.field_path@ == self.field_path@,
            transform_model(r.operation) == transform_model(self.operation),
    {
        FieldTransform { field_path: self.field_path.clone(), operation: self.operation.clone() }
    }
}

fn clone_transforms(v: &Vec<FieldTransform>) -> (r: Vec<FieldTransform>)
    ensures
        transform_models(r@) == transform_models(v@),
{
    let mut r: Vec<FieldTransform> = Vec::new();
    let mut i: usize = 0;
    while i < v.len()
        invariant
            i <= v@.len(),
            transform_models(r@) == transform_models(v@.take(i as int)),
        decreases v@.len() - i,
    {
        let c = v[i].clone();
        let ghost before = r@;
        r.push(c);
        assert(v@.take(i + 1) =~= v@.take(i as int).push(v@[i as int]));
        assert(r@ =~= before.push(c));
        assert(transform_models(r@) =~= transform_models(before).push((c.field_path@, transform_model(c.operation))));
        assert(transform_models(v@.take(i + 1)) =~= transform_models(v@.take(i as int)).push(
            (v@[i as int].field_path@, transform_model(v@[i as int].operation)),
        ));
        i = i + 1;
    }
    assert(v@.take(i as int) =~= v@);
    r
}

impl Clone for WriteOperation {
    fn clone(&self) -> (r: Self)
        ensures
            write_model(r) == write_model(*self),
    {
        match self {
            WriteOperation::SetData { key, data, mask, transforms } => WriteOperation::SetData {
                key: key.clone(),
                data: data.clone(),
                mask: match mask {
                    Some(m) => Some(clone_field_paths(m)),
                    None => None,
                },
                transforms: clone_transforms(transforms),
            },
            WriteOperation::Update { key, data, field_paths, transforms } => WriteOperation::Update {
                key: key.clone(),
                data: data.clone(),
                field_paths: clone_field_paths(field_paths),
                transforms: clone_transforms(transforms),
            },
            WriteOperation::Delete { key } => WriteOperation::Delete { key: key.clone() },
        }
    }
}

} // verus!
