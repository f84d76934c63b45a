//! Evaluation of a query definition over candidate documents: filtering,
//! ordering, cursors and limits.
use vstd::prelude::*;

use crate::firestore::api::operations::value_at;
use crate::firestore::api::query::{
    Bound, FieldFilter, FilterOperator, LimitType, OrderBy, OrderDirection, QueryDefinition,
};
use crate::firestore::api::snapshot::{DocModel, DocumentSnapshot};
use crate::firestore::model::field_path::document_id_segments;
use crate::firestore::model::resource_path::render_path;
use crate::firestore::model::FieldPath;
use crate::firestore::value::number::{
    compare_doubles, compare_ints, double_order, int_order, int_to_double, int_to_double_bits,
};
use crate::firestore::value::value::{
    contains_value, lemma_models_of, models_of, value_eq, FirestoreValue, ValueModel,
};
use crate::text::{compare_str, flip, lemma_seq_lt_irreflexive, lemma_seq_lt_total, seq_order, Order};

verus! {

/// The value a query reads from a document at `field`: the document's path for
/// the document-id field, else the nested field value, if present.
pub open spec fn field_value_of(doc: DocModel, field: Seq<Seq<char>>) -> Option<ValueModel> {
    if field == document_id_segments() {
        Some(ValueModel::String(render_path(doc.key)))
    } else {
        match doc.data {
            Some(es) => value_at(es, field),
            None => None,
        }
    }
}

/// How two values are ordered: nulls are equal, booleans put `false` first,
/// numbers compare by value (an integer against a double as `i64 as f64`),
/// strings and references compare lexicographically; no order otherwise.
pub open spec fn compare_models(a: ValueModel, b: ValueModel) -> Option<Order> {
    match (a, b) {
        (ValueModel::Null, ValueModel::Null) => Some(Order::Equal),
        (ValueModel::Boolean(x), ValueModel::Boolean(y)) => Some(
            int_order(
                if x {
                    1
                } else {
                    0
                },
                if y {
                    1
                } else {
                    0
                },
            ),
        ),
        (ValueModel::Integer(x), ValueModel::Integer(y)) => Some(int_order(x as int, y as int)),
        (ValueModel::Double(x), ValueModel::Double(y)) => double_order(x, y),
        (ValueModel::Integer(x), ValueModel::Double(y)) => double_order(int_to_double_bits(x), y),
        (ValueModel::Double(x), ValueModel::Integer(y)) => double_order(x, int_to_double_bits(y)),
        (ValueModel::String(x), ValueModel::String(y)) => Some(seq_order(x, y)),
        (ValueModel::Reference(x), ValueModel::Reference(y)) => Some(seq_order(x, y)),
        _ => None,
    }
}

/// Whether `value` passes a filter with operator `op` and operand `operand`.
pub open spec fn filter_holds(op: FilterOperator, operand: ValueModel, value: ValueModel) -> bool {
    match op {
        FilterOperator::Equal => value_eq(value, operand),
        FilterOperator::NotEqual => !value_eq(value, operand),
        FilterOperator::LessThan => compare_models(value, operand) == Some(Order::Less),
        FilterOperator::LessThanOrEqual => compare_models(value, operand) == Some(Order::Less)
            || compare_models(value, operand) == Some(Order::Equal),
        FilterOperator::GreaterThan => compare_models(value, operand) == Some(Order::Greater),
        FilterOperator::GreaterThanOrEqual => compare_models(value, operand) == Some(
            Order::Greater,
        ) || compare_models(value, operand) == Some(Order::Equal),
        FilterOperator::ArrayContains => match value {
            ValueModel::Array(xs) => contains_value(xs, operand),
            _ => false,
        },
        FilterOperator::ArrayContainsAny => match (value, operand) {
            (ValueModel::Array(xs), ValueModel::Array(ns)) => exists|j: int|
                0 <= j < ns.len() && contains_value(xs, #[trigger] ns[j]),
            _ => false,
        },
        FilterOperator::In => match operand {
            ValueModel::Array(ns) => exists|j: int|
                0 <= j < ns.len() && value_eq(#[trigger] ns[j], value),
            _ => false,
        },
        FilterOperator::NotIn => match operand {
            ValueModel::Array(ns) => !(value is Null) && forall|j: int|
                0 <= j < ns.len() ==> !value_eq(#[trigger] ns[j], value),
            _ => false,
        },
    }
}

/// How the comparison filters relate, for every operand and value: `<` and
/// `>` hold exactly when the value compares below or above the operand (and
/// so when the operand compares above or below the value); `<=` and `>=`
/// are `<` and `>` widened by the values that compare equal; no value is
/// both below and above; on comparable values `>=` is the negation of `<`
/// and `<=` of `>`; `!=` is the negation of `==`.
pub proof fn lemma_comparison_filters(operand: ValueModel, value: ValueModel)
    ensures
        filter_holds(FilterOperator::LessThan, operand, value) <==> compare_models(value, operand) == Some(
            Order::Less,
        ),
        filter_holds(FilterOperator::GreaterThan, operand, value) <==> compare_models(value, operand) == Some(
            Order::Greater,
        ),
        filter_holds(FilterOperator::GreaterThan, operand, value) <==> compare_models(operand, value) == Some(
            Order::Less,
        ),
        filter_holds(FilterOperator::LessThan, operand, value) <==> compare_models(operand, value) == Some(
            Order::Greater,
        ),
        filter_holds(FilterOperator::LessThanOrEqual, operand, value) <==> (filter_holds(
            FilterOperator::LessThan,
            operand,
            value,
        ) || compare_models(value, operand) == Some(Order::Equal)),
        filter_holds(FilterOperator::GreaterThanOrEqual, operand, value) <==> (filter_holds(
            FilterOperator::GreaterThan,
            operand,
            value,
        ) || compare_models(value, operand) == Some(Order::Equal)),
        compare_models(value, operand) == Some(Order::Equal) ==> filter_holds(
            FilterOperator::GreaterThanOrEqual,
            operand,
            value,
        ) && filter_holds(FilterOperator::LessThanOrEqual, operand, value) && !filter_holds(
            FilterOperator::GreaterThan,
            operand,
            value,
        ) && !filter_holds(FilterOperator::LessThan, operand, value),
        !(filter_holds(FilterOperator::LessThan, operand, value) && filter_holds(
            FilterOperator::GreaterThan,
            operand,
            value,
        )),
        compare_models(value, operand) is Some ==> (filter_holds(
            FilterOperator::GreaterThanOrEqual,
            operand,
            value,
        ) <==> !filter_holds(FilterOperator::LessThan, operand, value)) && (filter_holds(
            FilterOperator::LessThanOrEqual,
            operand,
            value,
        ) <==> !filter_holds(FilterOperator::GreaterThan, operand, value)),
        compare_models(value, operand) is None ==> !filter_holds(FilterOperator::LessThan, operand, value)
            && !filter_holds(FilterOperator::LessThanOrEqual, operand, value) && !filter_holds(
            FilterOperator::GreaterThan,
            operand,
            value,
        ) && !filter_holds(FilterOperator::GreaterThanOrEqual, operand, value),
        filter_holds(FilterOperator::Equal, operand, value) <==> value_eq(value, operand),
        filter_holds(FilterOperator::NotEqual, operand, value) <==> !filter_holds(
            FilterOperator::Equal,
            operand,
            value,
        ),
{
    lemma_compare_models_flip(value, operand);
}

/// On integers the filters are the arithmetic relations of the value to
/// the operand.
pub proof fn lemma_integer_filters(operand: i64, value: i64)
    ensures
        filter_holds(FilterOperator::LessThan, ValueModel::Integer(operand), ValueModel::Integer(value)) <==> value
            < operand,
        filter_holds(FilterOperator::LessThanOrEqual, ValueModel::Integer(operand), ValueModel::Integer(value))
            <==> value <= operand,
        filter_holds(FilterOperator::GreaterThan, ValueModel::Integer(operand), ValueModel::Integer(value))
            <==> value > operand,
        filter_holds(FilterOperator::GreaterThanOrEqual, ValueModel::Integer(operand), ValueModel::Integer(value))
            <==> value >= operand,
        filter_holds(FilterOperator::Equal, ValueModel::Integer(operand), ValueModel::Integer(value)) <==> value
            == operand,
        filter_holds(FilterOperator::NotEqual, ValueModel::Integer(operand), ValueModel::Integer(value)) <==> value
            != operand,
{
}

/// How the membership filters relate: `not-in` holds of a non-null value
/// exactly when `in` does not; `in` a one-element list is `==` that element
/// (compared the same way); `array-contains-any` of one element is
/// `array-contains` of it; a value that is no array contains nothing.
pub proof fn lemma_membership_filters(ns: Seq<ValueModel>, n: ValueModel, value: ValueModel)
    ensures
        filter_holds(FilterOperator::NotIn, ValueModel::Array(ns), value) <==> (!(value is Null) && !filter_holds(
            FilterOperator::In,
            ValueModel::Array(ns),
            value,
        )),
        filter_holds(FilterOperator::In, ValueModel::Array(seq![n]), value) <==> value_eq(n, value),
        (value is Array) ==> (filter_holds(
            FilterOperator::ArrayContainsAny,
            ValueModel::Array(seq![n]),
            value,
        ) <==> filter_holds(FilterOperator::ArrayContains, n, value)),
        !(value is Array) ==> !filter_holds(FilterOperator::ArrayContains, n, value) && !filter_holds(
            FilterOperator::ArrayContainsAny,
            ValueModel::Array(ns),
            value,
        ),
{
    if filter_holds(FilterOperator::In, ValueModel::Array(seq![n]), value) {
        let j = choose|j: int| 0 <= j < seq![n].len() && value_eq(#[trigger] seq![n][j], value);
        assert(j == 0);
    }
    if value_eq(n, value) {
        assert(value_eq(seq![n][0], value));
    }
    if let ValueModel::Array(xs) = value {
        if filter_holds(FilterOperator::ArrayContainsAny, ValueModel::Array(seq![n]), value) {
            let j = choose|j: int| 0 <= j < seq![n].len() && contains_value(xs, #[trigger] seq![n][j]);
            assert(j == 0);
        }
        if filter_holds(FilterOperator::ArrayContains, n, value) {
            assert(contains_value(xs, seq![n][0]));
        }
    }
}

/// Whether a document passes one filter. A missing field passes only a
/// `!=` filter whose operand is not null.
pub open spec fn filter_passes(doc: DocModel, f: FieldFilter) -> bool {
    match field_value_of(doc, f.field@) {
        Some(v) => filter_holds(f.operator, f.value@, v),
        None => f.operator == FilterOperator::NotEqual && filter_holds(
            FilterOperator::NotEqual,
            f.value@,
            ValueModel::Null,
        ),
    }
}

/// Whether a document passes every filter.
pub open spec fn satisfies_filters(doc: DocModel, fs: Seq<FieldFilter>) -> bool {
    forall|i: int| 0 <= i < fs.len() ==> filter_passes(doc, #[trigger] fs[i])
}

/// The value read at `field`, or null when there is none.
pub open spec fn field_or_null(doc: DocModel, field: Seq<Seq<char>>) -> ValueModel {
    match field_value_of(doc, field) {
        Some(v) => v,
        None => ValueModel::Null,
    }
}

/// The order of two values as a sort key: values without an order tie.
pub open spec fn key_order(a: ValueModel, b: ValueModel) -> Order {
    match compare_models(a, b) {
        Some(o) => o,
        None => Order::Equal,
    }
}

/// An order turned around for descending sorts.
pub open spec fn directed(o: Order, d: OrderDirection) -> Order {
    if d == OrderDirection::Descending {
        flip(o)
    } else {
        o
    }
}

/// The order of two documents by the orderings from position `i` on: the
/// first ordering that does not tie decides.
pub open spec fn docs_order_from(l: DocModel, r: DocModel, obs: Seq<OrderBy>, i: int) -> Order
    decreases obs.len() - i,
{
    if i < 0 || i >= obs.len() {
        Order::Equal
    } else {
        let o = directed(
            key_order(field_or_null(l, obs[i].field@), field_or_null(r, obs[i].field@)),
            obs[i].direction,
        );
        if o != Order::Equal {
            o
        } else {
            docs_order_from(l, r, obs, i + 1)
        }
    }
}

/// The order of two documents under a query's orderings.
#[verifier::opaque]
pub open spec fn docs_order(l: DocModel, r: DocModel, obs: Seq<OrderBy>) -> Order {
    docs_order_from(l, r, obs, 0)
}

/// The order of a document against cursor values from position `i` on; the
/// cursor speaks only of as many orderings as it has values.
pub open spec fn bound_order_from(doc: DocModel, vals: Seq<ValueModel>, obs: Seq<OrderBy>, i: int) -> Order
    decreases obs.len() - i,
{
    if i < 0 || i >= obs.len() || i >= vals.len() {
        Order::Equal
    } else {
        let o = directed(key_order(field_or_null(doc, obs[i].field@), vals[i]), obs[i].direction);
        if o != Order::Equal {
            o
        } else {
            bound_order_from(doc, vals, obs, i + 1)
        }
    }
}

/// The order of a document against a cursor.
pub open spec fn bound_order(doc: DocModel, b: Bound, obs: Seq<OrderBy>) -> Order {
    bound_order_from(doc, models_of(b.values@), obs, 0)
}

/// Whether a document comes before a start cursor.
pub open spec fn before_start(doc: DocModel, b: Bound, obs: Seq<OrderBy>) -> bool {
    if b.inclusive {
        bound_order(doc, b, obs) == Order::Less
    } else {
        bound_order(doc, b, obs) != Order::Greater
    }
}

/// Whether a document comes after an end cursor.
pub open spec fn after_end(doc: DocModel, b: Bound, obs: Seq<OrderBy>) -> bool {
    if b.inclusive {
        bound_order(doc, b, obs) == Order::Greater
    } else {
        bound_order(doc, b, obs) != Order::Less
    }
}

/// How cursors cut: a document ordered before a start cursor is cut and one
/// after it kept; one level with it is kept by an inclusive cursor and cut
/// by an exclusive one. An end cursor mirrors this.
pub proof fn lemma_cursor_cuts(doc: DocModel, b: Bound, obs: Seq<OrderBy>)
    ensures
        bound_order(doc, b, obs) == Order::Less ==> before_start(doc, b, obs) && !after_end(doc, b, obs),
        bound_order(doc, b, obs) == Order::Greater ==> !before_start(doc, b, obs) && after_end(doc, b, obs),
        bound_order(doc, b, obs) == Order::Equal ==> (before_start(doc, b, obs) <==> !b.inclusive) && (after_end(
            doc,
            b,
            obs,
        ) <==> !b.inclusive),
{
}

/// A limit keeps at most that many documents: the first ones for a limit
/// on the first results, the last ones otherwise, in their order; without
/// a limit everything stays.
pub proof fn lemma_limit_cuts(s: Seq<DocModel>, limit: Option<u32>, limit_type: LimitType)
    ensures
        limit is None ==> apply_limit(s, limit, limit_type) == s,
        limit matches Some(n) ==> {
            let r = apply_limit(s, limit, limit_type);
            let k = if s.len() < n { s.len() as int } else { n as int };
            &&& r.len() == k
            &&& limit_type == LimitType::First ==> r == s.subrange(0, k)
            &&& limit_type == LimitType::Last ==> r == s.subrange(s.len() - k, s.len() as int)
        },
{
    if let Some(n) = limit {
        if s.len() <= n {
            assert(s.subrange(0, s.len() as int) =~= s);
            assert(s.subrange(0, s.len() as int) =~= s);
        }
    }
}

/// The order of two optional orders with sides swapped.
pub open spec fn flip_option(o: Option<Order>) -> Option<Order> {
    match o {
        Some(x) => Some(flip(x)),
        None => None,
    }
}

/// Comparing values the other way round gives the flipped order.
pub proof fn lemma_compare_models_flip(a: ValueModel, b: ValueModel)
    ensures
        compare_models(b, a) == flip_option(compare_models(a, b)),
{
    match (a, b) {
        (ValueModel::String(x), ValueModel::String(y)) => {
            lemma_seq_lt_total(x, y);
        },
        (ValueModel::Reference(x), ValueModel::Reference(y)) => {
            lemma_seq_lt_total(x, y);
        },
        _ => {},
    }
}

proof fn lemma_docs_order_from_flip(l: DocModel, r: DocModel, obs: Seq<OrderBy>, i: int)
    ensures
        docs_order_from(r, l, obs, i) == flip(docs_order_from(l, r, obs, i)),
    decreases obs.len() - i,
{
    if !(i < 0 || i >= obs.len()) {
        lemma_compare_models_flip(field_or_null(l, obs[i].field@), field_or_null(r, obs[i].field@));
        lemma_docs_order_from_flip(l, r, obs, i + 1);
    }
}

/// Comparing documents the other way round gives the flipped order.
pub proof fn lemma_docs_order_flip(l: DocModel, r: DocModel, obs: Seq<OrderBy>)
    ensures
        docs_order(r, l, obs) == flip(docs_order(l, r, obs)),
{
    reveal(docs_order);
    lemma_docs_order_from_flip(l, r, obs, 0);
}

/// Every document ties with itself under any orderings.
pub proof fn lemma_docs_order_reflexive(d: DocModel, obs: Seq<OrderBy>)
    ensures
        docs_order(d, d, obs) == Order::Equal,
{
    lemma_docs_order_flip(d, d, obs);
}

/// The order of two values, as `FirestoreValue`s are compared when sorting
/// and filtering; `None` when the values have no order.
pub fn compare_values(left: &FirestoreValue, right: &FirestoreValue) -> (r: Option<Order>)
    ensures
        r == compare_models(left@, right@),
{
    if left.is_null() && right.is_null() {
        return Some(Order::Equal);
    }
    if let Some(a) = left.as_bool() {
        if let Some(b) = right.as_bool() {
            let x: i64 = if a {
                1
            } else {
                0
            };
            let y: i64 = if b {
                1
            } else {
                0
            };
            return Some(compare_ints(x, y));
        }
        return None;
    }
    if let Some(a) = left.as_integer() {
        if let Some(b) = right.as_integer() {
            return Some(compare_ints(a, b));
        }
        if let Some(b) = right.as_double_bits() {
            return compare_doubles(int_to_double(a), b);
        }
        return None;
    }
    if let Some(a) = left.as_double_bits() {
        if let Some(b) = right.as_double_bits() {
            return compare_doubles(a, b);
        }
        if let Some(b) = right.as_integer() {
            return compare_doubles(a, int_to_double(b));
        }
        return None;
    }
    if let Some(a) = left.as_string() {
        if let Some(b) = right.as_string() {
            return Some(compare_str(a, b));
        }
        return None;
    }
    if let Some(a) = left.as_reference() {
        if let Some(b) = right.as_reference() {
            return Some(compare_str(a, b));
        }
        return None;
    }
    None
}

/// Whether `value` equals some element of `values`.
fn any_equal(values: &Vec<FirestoreValue>, value: &FirestoreValue) -> (r: bool)
    ensures
        r == exists|j: int| 0 <= j < values@.len() && value_eq(#[trigger] models_of(values@)[j], value@),
{
    proof {
        lemma_models_of(values@);
    }
    let mut i: usize = 0;
    while i < values.len()
        invariant
            i <= values@.len(),
            models_of(values@).len() == values@.len(),
            forall|k: int| 0 <= k < values@.len() ==> #[trigger] models_of(values@)[k] == values@[k]@,
            forall|k: int| 0 <= k < i ==> !value_eq(#[trigger] models_of(values@)[k], value@),
        decreases values@.len() - i,
    {
        if values[i].equals(value) {
            assert(value_eq(models_of(values@)[i as int], value@));
            return true;
        }
        i = i + 1;
    }
    false
}

/// Whether `value` passes a filter with the given operator and operand.
pub fn evaluate_filter(op: FilterOperator, operand: &FirestoreValue, value: &FirestoreValue) -> (r: bool)
    ensures
        r == filter_holds(op, operand@, value@),
{
    match op {
        FilterOperator::Equal => value.equals(operand),
        FilterOperator::NotEqual => !value.equals(operand),
        FilterOperator::LessThan => {
            let c = compare_values(value, operand);
            c == Some(Order::Less)
        },
        FilterOperator::LessThanOrEqual => {
            let c = compare_values(value, operand);
            c == Some(Order::Less) || c == Some(Order::Equal)
        },
        FilterOperator::GreaterThan => {
            let c = compare_values(value, operand);
            c == Some(Order::Greater)
        },
        FilterOperator::GreaterThanOrEqual => {
            let c = compare_values(value, operand);
            c == Some(Order::Greater) || c == Some(Order::Equal)
        },
        FilterOperator::ArrayContains => match value.as_array() {
            Some(array) => array.contains(operand),
            None => false,
        },
        FilterOperator::ArrayContainsAny => match (value.as_array(), operand.as_array()) {
            (Some(array), Some(needles)) => {
                let ns = needles.values();
                proof {
                    lemma_models_of(ns@);
                }
                let mut j: usize = 0;
                while j < ns.len()
                    invariant
                        j <= ns@.len(),
                        op == FilterOperator::ArrayContainsAny,
                        value@ == ValueModel::Array(array@),
                        operand@ == ValueModel::Array(needles@),
                        models_of(ns@) == needles@,
                        needles@.len() == ns@.len(),
                        forall|k: int| 0 <= k < ns@.len() ==> #[trigger] needles@[k] == ns@[k]@,
                        forall|k: int| 0 <= k < j ==> !contains_value(array@, #[trigger] needles@[k]),
                    decreases ns@.len() - j,
                {
                    if array.contains(&ns[j]) {
                        assert(contains_value(array@, needles@[j as int]));
                        return true;
                    }
                    j = j + 1;
                }
                false
            },
            _ => false,
        },
        FilterOperator::In => match operand.as_array() {
            Some(values) => {
                let vs = values.values();
                any_equal(vs, value)
            },
            None => false,
        },
        FilterOperator::NotIn => match operand.as_array() {
            Some(values) => {
                let vs = values.values();
                !value.is_null() && !any_equal(vs, value)
            },
            None => false,
        },
    }
}

/// The value a query reads from `snapshot` at `field`.
pub fn get_field_value(snapshot: &DocumentSnapshot, field: &FieldPath) -> (r: Option<FirestoreValue>)
    ensures
        match r {
            Some(v) => field_value_of(snapshot@, field@) == Some(v@),
            None => field_value_of(snapshot@, field@) is None,
        },
{
    if field.is_document_id() {
        let key = snapshot.document_key();
        return Some(FirestoreValue::from_string(key.path().canonical_string()));
    }
    match snapshot.map_value() {
        Some(map) => crate::firestore::api::operations::value_for_field_path(map, field),
        None => None,
    }
}

/// Whether `snapshot` passes every filter.
pub fn document_satisfies_filters(snapshot: &DocumentSnapshot, filters: &Vec<FieldFilter>) -> (r: bool)
    ensures
        r == satisfies_filters(snapshot@, filters@),
{
    let mut i: usize = 0;
    while i < filters.len()
        invariant
            i <= filters@.len(),
            forall|k: int| 0 <= k < i ==> filter_passes(snapshot@, #[trigger] filters@[k]),
        decreases filters@.len() - i,
    {
        let filter = &filters[i];
        let passes = match get_field_value(snapshot, &filter.field) {
            Some(value) => evaluate_filter(filter.operator, &filter.value, &value),
            None => match filter.operator {
                FilterOperator::NotEqual => {
                    let null = FirestoreValue::null();
                    evaluate_filter(filter.operator, &filter.value, &null)
                },
                _ => false,
            },
        };
        if !passes {
            assert(!filter_passes(snapshot@, filters@[i as int]));
            return false;
        }
        i = i + 1;
    }
    true
}

/// The value at `field`, or null.
fn field_or_null_value(snapshot: &DocumentSnapshot, field: &FieldPath) -> (r: FirestoreValue)
    ensures
        r@ == field_or_null(snapshot@, field@),
{
    match get_field_value(snapshot, field) {
        Some(v) => v,
        None => FirestoreValue::null(),
    }
}

/// The order of two snapshots under `order_by`.
pub fn compare_snapshots(left: &DocumentSnapshot, right: &DocumentSnapshot, order_by: &Vec<OrderBy>) -> (r: Order)
    ensures
        r == docs_order(left@, right@, order_by@),
{
    proof {
        reveal(docs_order);
    }
    let mut i: usize = 0;
    while i < order_by.len()
        invariant
            i <= order_by@.len(),
            docs_order(left@, right@, order_by@) == docs_order_from(left@, right@, order_by@, i as int),
        decreases order_by@.len() - i,
    {
        let order = &order_by[i];
        let lv = field_or_null_value(left, &order.field);
        let rv = field_or_null_value(right, &order.field);
        let mut o = match compare_values(&lv, &rv) {
            Some(o) => o,
            None => Order::Equal,
        };
        if order.direction == OrderDirection::Descending {
            o = o.reverse();
        }
        if o != Order::Equal {
            return o;
        }
        i = i + 1;
    }
    Order::Equal
}

/// The order of `snapshot` against the cursor `bound` under `order_by`.
pub fn compare_snapshot_to_bound(snapshot: &DocumentSnapshot, bound: &Bound, order_by: &Vec<OrderBy>) -> (r: Order)
    ensures
        r == bound_order(snapshot@, *bound, order_by@),
{
    let values = &bound.values;
    proof {
        lemma_models_of(values@);
    }
    let mut i: usize = 0;
    while i < order_by.len()
        invariant
            i <= order_by@.len(),
            models_of(values@).len() == values@.len(),
            forall|k: int| 0 <= k < values@.len() ==> #[trigger] models_of(values@)[k] == values@[k]@,
            bound_order(snapshot@, *bound, order_by@) == bound_order_from(
                snapshot@,
                models_of(values@),
                order_by@,
                i as int,
            ),
        decreases order_by@.len() - i,
    {
        if i >= values.len() {
            return Order::Equal;
        }
        let order = &order_by[i];
        let sv = field_or_null_value(snapshot, &order.field);
        let mut o = match compare_values(&sv, &values[i]) {
            Some(o) => o,
            None => Order::Equal,
        };
        if order.direction == OrderDirection::Descending {
            o = o.reverse();
        }
        if o != Order::Equal {
            return o;
        }
        i = i + 1;
    }
    Order::Equal
}

/// Whether `snapshot` comes before the start cursor `bound`.
pub fn is_before_start_bound(snapshot: &DocumentSnapshot, bound: &Bound, order_by: &Vec<OrderBy>) -> (r: bool)
    ensures
        r == before_start(snapshot@, *bound, order_by@),
{
    let o = compare_snapshot_to_bound(snapshot, bound, order_by);
    if bound.inclusive {
        o == Order::Less
    } else {
        o != Order::Greater
    }
}

/// Whether `snapshot` comes after the end cursor `bound`.
pub fn is_after_end_bound(snapshot: &DocumentSnapshot, bound: &Bound, order_by: &Vec<OrderBy>) -> (r: bool)
    ensures
        r == after_end(snapshot@, *bound, order_by@),
{
    let o = compare_snapshot_to_bound(snapshot, bound, order_by);
    if bound.inclusive {
        o == Order::Greater
    } else {
        o != Order::Less
    }
}

/// The contents of a sequence of snapshots.
pub open spec fn doc_views(s: Seq<DocumentSnapshot>) -> Seq<DocModel> {
    s.map_values(|d: DocumentSnapshot| d@)
}

/// Each document is ordered no later than the next one.
pub open spec fn sorted_by(s: Seq<DocModel>, obs: Seq<OrderBy>) -> bool {
    forall|i: int, j: int|
        0 <= i && j == i + 1 && j < s.len() ==> docs_order(#[trigger] s[i], #[trigger] s[j], obs)
            != Order::Greater
}

/// `out` holds the documents of `input` rearranged: `out[k]` is
/// `input[idx[k]]`, each input position is used once, and two documents change
/// their relative order only when the later one orders strictly first.
pub open spec fn is_arrangement(input: Seq<DocModel>, out: Seq<DocModel>, idx: Seq<int>, obs: Seq<OrderBy>) -> bool {
    &&& idx.len() == input.len()
    &&& out.len() == input.len()
    &&& forall|k: int| 0 <= k < out.len() ==> 0 <= #[trigger] idx[k] < input.len() && out[k] == input[idx[k]]
    &&& forall|k: int, l: int| 0 <= k < l < out.len() ==> #[trigger] idx[k] != #[trigger] idx[l]
    &&& forall|k: int, l: int|
        0 <= k < l < out.len() && #[trigger] idx[k] > #[trigger] idx[l] ==> docs_order(
            out[k],
            out[l],
            obs,
        ) == Order::Less
}

/// `out` is a stable sort of `input` under the orderings.
pub open spec fn is_stable_sort(input: Seq<DocModel>, out: Seq<DocModel>, obs: Seq<OrderBy>) -> bool {
    sorted_by(out, obs) && exists|idx: Seq<int>| is_arrangement(input, out, idx, obs)
}

proof fn lemma_views_insert(s: Seq<DocumentSnapshot>, p: int, x: DocumentSnapshot)
    requires
        0 <= p <= s.len(),
    ensures
        doc_views(s.insert(p, x)) == doc_views(s).insert(p, x@),
{
    assert(doc_views(s.insert(p, x)) =~= doc_views(s).insert(p, x@));
}

proof fn lemma_insert_sorted(v: Seq<DocModel>, x: DocModel, p: int, obs: Seq<OrderBy>)
    requires
        0 <= p <= v.len(),
        sorted_by(v, obs),
        p > 0 ==> docs_order(v[p - 1], x, obs) != Order::Greater,
        forall|q: int| p <= q < v.len() ==> docs_order(#[trigger] v[q], x, obs) == Order::Greater,
    ensures
        sorted_by(v.insert(p, x), obs),
{
    let w = v.insert(p, x);
    assert forall|i: int, j: int|
        0 <= i && j == i + 1 && j < w.len() implies docs_order(#[trigger] w[i], #[trigger] w[j], obs)
        != Order::Greater by {
        if i < p - 1 {
            assert(w[i] == v[i] && w[j] == v[j]);
        } else if i == p - 1 {
            assert(w[i] == v[p - 1] && w[j] == x);
        } else if i == p {
            assert(w[j] == v[p]);
            assert(docs_order(v[p], x, obs) == Order::Greater);
            lemma_docs_order_flip(v[p], x, obs);
        } else {
            assert(w[i] == v[i - 1] && w[j] == v[j - 1]);
        }
    }
}

proof fn lemma_insert_arrangement(
    input: Seq<DocModel>,
    v: Seq<DocModel>,
    idx: Seq<int>,
    x: DocModel,
    p: int,
    obs: Seq<OrderBy>,
)
    requires
        0 <= p <= v.len(),
        is_arrangement(input, v, idx, obs),
        forall|q: int| p <= q < v.len() ==> docs_order(#[trigger] v[q], x, obs) == Order::Greater,
    ensures
        is_arrangement(input.push(x), v.insert(p, x), idx.insert(p, input.len() as int), obs),
{
    let n = input.len() as int;
    let w = v.insert(p, x);
    let jdx = idx.insert(p, n);
    let inp = input.push(x);
    assert forall|k: int| 0 <= k < w.len() implies 0 <= #[trigger] jdx[k] < inp.len() && w[k]
        == inp[jdx[k]] by {
        if k < p {
            assert(jdx[k] == idx[k]);
        } else if k == p {
        } else {
            assert(jdx[k] == idx[k - 1]);
        }
    }
    assert forall|k: int, l: int| 0 <= k < l < w.len() implies #[trigger] jdx[k] != #[trigger] jdx[l] by {
        let a = if k < p {
            k
        } else {
            k - 1
        };
        let b = if l < p {
            l
        } else {
            l - 1
        };
        if k != p && l != p {
            assert(jdx[k] == idx[a] && jdx[l] == idx[b]);
        } else if k == p {
            assert(jdx[l] == idx[b]);
            assert(0 <= idx[b] < n);
        } else {
            assert(jdx[k] == idx[a]);
            assert(0 <= idx[a] < n);
        }
    }
    assert forall|k: int, l: int|
        0 <= k < l < w.len() && #[trigger] jdx[k] > #[trigger] jdx[l] implies docs_order(
        w[k],
        w[l],
        obs,
    ) == Order::Less by {
        let a = if k < p {
            k
        } else {
            k - 1
        };
        let b = if l < p {
            l
        } else {
            l - 1
        };
        if k != p && l != p {
            assert(jdx[k] == idx[a] && jdx[l] == idx[b]);
            assert(w[k] == v[a] && w[l] == v[b]);
        } else if k == p {
            assert(w[l] == v[b]);
            assert(docs_order(v[b], x, obs) == Order::Greater);
            lemma_docs_order_flip(v[b], x, obs);
        } else {
            assert(jdx[k] == idx[a]);
            assert(0 <= idx[a] < n);
        }
    }
}

/// A stable sort of `docs` under `order_by`.
pub fn sort_snapshots(docs: &Vec<DocumentSnapshot>, order_by: &Vec<OrderBy>) -> (r: Vec<DocumentSnapshot>)
    ensures
        is_stable_sort(doc_views(docs@), doc_views(r@), order_by@),
{
    let mut out: Vec<DocumentSnapshot> = Vec::new();
    let ghost mut idx: Seq<int> = Seq::empty();
    let mut i: usize = 0;
    assert(doc_views(docs@).take(0) =~= Seq::<DocModel>::empty());
    assert(doc_views(out@) =~= Seq::<DocModel>::empty());
    while i < docs.len()
        invariant
            i <= docs@.len(),
            out@.len() == i,
            sorted_by(doc_views(out@), order_by@),
            is_arrangement(doc_views(docs@).take(i as int), doc_views(out@), idx, order_by@),
        decreases docs@.len() - i,
    {
        let x = docs[i].clone();
        let mut p: usize = out.len();
        loop
            invariant
                p <= out@.len(),
                out@.len() == i,
                forall|q: int|
                    p <= q < out@.len() ==> docs_order(#[trigger] doc_views(out@)[q], x@, order_by@)
                        == Order::Greater,
            ensures
                p <= out@.len(),
                forall|q: int|
                    p <= q < out@.len() ==> docs_order(#[trigger] doc_views(out@)[q], x@, order_by@)
                        == Order::Greater,
                p > 0 ==> docs_order(doc_views(out@)[p - 1], x@, order_by@) != Order::Greater,
            decreases p,
        {
            if p == 0 {
                break;
            }
            let o = compare_snapshots(&out[p - 1], &x, order_by);
            if o != Order::Greater {
                break;
            }
            p = p - 1;
        }
        let ghost before = out@;
        proof {
            lemma_insert_sorted(doc_views(before), x@, p as int, order_by@);
            lemma_insert_arrangement(
                doc_views(docs@).take(i as int),
                doc_views(before),
                idx,
                x@,
                p as int,
                order_by@,
            );
            lemma_views_insert(before, p as int, x);
            assert(doc_views(docs@).take(i as int).push(x@) =~= doc_views(docs@).take(i + 1));
            idx = idx.insert(p as int, i as int);
        }
        out.insert(p, x);
        i = i + 1;
    }
    assert(doc_views(docs@).take(i as int) =~= doc_views(docs@));
    out
}

/// The documents that exist and pass every filter, in their given order.
pub open spec fn query_candidates(docs: Seq<DocModel>, fs: Seq<FieldFilter>) -> Seq<DocModel>
    decreases docs.len(),
{
    if docs.len() == 0 {
        Seq::<DocModel>::empty()
    } else {
        let rest = query_candidates(docs.drop_last(), fs);
        if docs.last().data is Some && satisfies_filters(docs.last(), fs) {
            rest.push(docs.last())
        } else {
            rest
        }
    }
}

/// Whether a document lies within the query's cursors.
pub open spec fn within_bounds(d: DocModel, def: QueryDefinition) -> bool {
    &&& match def.start_at {
        Some(b) => !before_start(d, b, def.order_by@),
        None => true,
    }
    &&& match def.end_at {
        Some(b) => !after_end(d, b, def.order_by@),
        None => true,
    }
}

/// The documents that lie within the query's cursors, in their given order.
pub open spec fn keep_within_bounds(s: Seq<DocModel>, def: QueryDefinition) -> Seq<DocModel>
    decreases s.len(),
{
    if s.len() == 0 {
        Seq::<DocModel>::empty()
    } else {
        let rest = keep_within_bounds(s.drop_last(), def);
        if within_bounds(s.last(), def) {
            rest.push(s.last())
        } else {
            rest
        }
    }
}

/// The first or the last `limit` documents, when there are more.
pub open spec fn apply_limit(s: Seq<DocModel>, limit: Option<u32>, limit_type: LimitType) -> Seq<DocModel> {
    match limit {
        Some(n) => if s.len() > n {
            if limit_type == LimitType::First {
                s.take(n as int)
            } else {
                s.skip(s.len() - n)
            }
        } else {
            s
        },
        None => s,
    }
}

/// Whether `out` is what the query gives for the documents `input`: the
/// existing ones that pass every filter, sorted stably by the query's
/// orderings, without those outside the cursors, cut to the limit.
pub open spec fn query_outcome(input: Seq<DocModel>, def: QueryDefinition, out: Seq<DocModel>) -> bool {
    exists|sorted: Seq<DocModel>|
        is_stable_sort(query_candidates(input, def.filters@), sorted, def.order_by@) && out
            == apply_limit(keep_within_bounds(sorted, def), def.limit, def.limit_type)
}

/// Whether `d` lies within the cursors of `definition`.
fn snapshot_within_bounds(d: &DocumentSnapshot, definition: &QueryDefinition) -> (r: bool)
    ensures
        r == within_bounds(d@, *definition),
{
    let order_by = definition.result_order_by();
    let after_start = match definition.result_start_at() {
        Some(b) => !is_before_start_bound(d, b, order_by),
        None => true,
    };
    let before_end = match definition.result_end_at() {
        Some(b) => !is_after_end_bound(d, b, order_by),
        None => true,
    };
    after_start && before_end
}

/// Applies a query to candidate documents: keeps the existing ones that pass
/// every filter, sorts them stably by the query's orderings, drops those
/// outside the cursors and keeps the first (or last) `limit` of the rest.
pub fn apply_query_to_documents(documents: Vec<DocumentSnapshot>, definition: &QueryDefinition) -> (r: Vec<DocumentSnapshot>)
    ensures
        query_outcome(doc_views(documents@), *definition, doc_views(r@)),
{
    let filters = definition.filters();
    let mut filtered: Vec<DocumentSnapshot> = Vec::new();
    let mut i: usize = 0;
    assert(doc_views(documents@).take(0) =~= Seq::<DocModel>::empty());
    assert(doc_views(filtered@) =~= Seq::<DocModel>::empty());
    while i < documents.len()
        invariant
            i <= documents@.len(),
            *filters == definition.filters,
            doc_views(filtered@) == query_candidates(
                doc_views(documents@).take(i as int),
                definition.filters@,
            ),
        decreases documents@.len() - i,
    {
        let d = &documents[i];
        let keep = d.document_exists() && document_satisfies_filters(d, filters);
        proof {
            assert(doc_views(documents@).take(i + 1).drop_last() =~= doc_views(documents@).take(
                i as int,
            ));
        }
        if keep {
            let c = d.clone();
            filtered.push(c);
            assert(doc_views(filtered@) =~= doc_views(filtered@.drop_last()).push(c@));
        }
        i = i + 1;
    }
    assert(doc_views(documents@).take(i as int) =~= doc_views(documents@));
    let sorted = sort_snapshots(&filtered, definition.result_order_by());
    let mut bounded: Vec<DocumentSnapshot> = Vec::new();
    let mut j: usize = 0;
    assert(doc_views(sorted@).take(0) =~= Seq::<DocModel>::empty());
    assert(doc_views(bounded@) =~= Seq::<DocModel>::empty());
    while j < sorted.len()
        invariant
            j <= sorted@.len(),
            doc_views(bounded@) == keep_within_bounds(doc_views(sorted@).take(j as int), *definition),
        decreases sorted@.len() - j,
    {
        let d = &sorted[j];
        let keep = snapshot_within_bounds(d, definition);
        proof {
            assert(doc_views(sorted@).take(j + 1).drop_last() =~= doc_views(sorted@).take(j as int));
        }
        if keep {
            let c = d.clone();
            bounded.push(c);
            assert(doc_views(bounded@) =~= doc_views(bounded@.drop_last()).push(c@));
        }
        j = j + 1;
    }
    assert(doc_views(sorted@).take(j as int) =~= doc_views(sorted@));
    let ghost kept = doc_views(bounded@);
    if let Some(limit) = definition.limit() {
        let n = limit as usize;
        if bounded.len() > n {
            match definition.limit_type() {
                LimitType::First => {
                    bounded.truncate(n);
                    assert(doc_views(bounded@) =~= kept.take(n as int));
                },
                LimitType::Last => {
                    let start = bounded.len() - n;
                    let tail = bounded.split_off(start);
                    assert(doc_views(tail@) =~= kept.skip(kept.len() - n));
                    return tail;
                },
            }
        }
    }
    bounded
}

/// The candidates of a query exist and pass every filter.
proof fn lemma_candidates_pass(docs: Seq<DocModel>, fs: Seq<FieldFilter>)
    ensures
        forall|i: int|
            0 <= i < query_candidates(docs, fs).len() ==> (#[trigger] query_candidates(docs, fs)[i]).data is Some
                && satisfies_filters(query_candidates(docs, fs)[i], fs),
    decreases docs.len(),
{
    if docs.len() > 0 {
        lemma_candidates_pass(docs.drop_last(), fs);
    }
}

/// What holds of every document of `s` holds of every document kept within
/// the cursors, and those lie within them.
proof fn lemma_bounded_keep(s: Seq<DocModel>, def: QueryDefinition, p: spec_fn(DocModel) -> bool)
    requires
        forall|i: int| 0 <= i < s.len() ==> p(#[trigger] s[i]),
    ensures
        forall|i: int|
            0 <= i < keep_within_bounds(s, def).len() ==> p(#[trigger] keep_within_bounds(s, def)[i])
                && within_bounds(keep_within_bounds(s, def)[i], def),
    decreases s.len(),
{
    if s.len() > 0 {
        assert forall|i: int| 0 <= i < s.drop_last().len() implies p(#[trigger] s.drop_last()[i]) by {
            assert(s.drop_last()[i] == s[i]);
        }
        lemma_bounded_keep(s.drop_last(), def, p);
        assert(p(s[s.len() - 1]));
        let rest = keep_within_bounds(s.drop_last(), def);
        let kb = keep_within_bounds(s, def);
        assert forall|i: int| 0 <= i < kb.len() implies p(#[trigger] kb[i]) && within_bounds(kb[i], def) by {
            if i < rest.len() {
                assert(kb[i] == rest[i]);
            } else {
                assert(kb[i] == s.last());
            }
        }
    }
}

/// Every document a query gives exists, passes every filter and lies within
/// the cursors, and there are no more of them than the limit.
pub proof fn lemma_query_results_match(input: Seq<DocModel>, def: QueryDefinition, out: Seq<DocModel>)
    requires
        query_outcome(input, def, out),
    ensures
        forall|i: int|
            0 <= i < out.len() ==> (#[trigger] out[i]).data is Some && satisfies_filters(out[i], def.filters@)
                && within_bounds(out[i], def),
        def.limit matches Some(n) ==> out.len() <= n,
{
    let fs = def.filters@;
    let cands = query_candidates(input, fs);
    let sorted = choose|sorted: Seq<DocModel>|
        is_stable_sort(cands, sorted, def.order_by@) && out == apply_limit(
            keep_within_bounds(sorted, def),
            def.limit,
            def.limit_type,
        );
    lemma_candidates_pass(input, fs);
    let idx = choose|idx: Seq<int>| is_arrangement(cands, sorted, idx, def.order_by@);
    let p = |d: DocModel| d.data is Some && satisfies_filters(d, fs);
    assert forall|i: int| 0 <= i < sorted.len() implies p(#[trigger] sorted[i]) by {
        assert(sorted[i] == cands[idx[i]]);
    }
    lemma_bounded_keep(sorted, def, p);
    let kb = keep_within_bounds(sorted, def);
    assert forall|i: int| 0 <= i < out.len() implies (#[trigger] out[i]).data is Some && satisfies_filters(
        out[i],
        fs,
    ) && within_bounds(out[i], def) by {
        match def.limit {
            Some(n) => if kb.len() > n {
                if def.limit_type == LimitType::First {
                    assert(out[i] == kb[i]);
                } else {
                    assert(out[i] == kb[i + (kb.len() - n)]);
                }
            } else {
                assert(out[i] == kb[i]);
            },
            None => {
                assert(out[i] == kb[i]);
            },
        }
    }
}

} // verus!
