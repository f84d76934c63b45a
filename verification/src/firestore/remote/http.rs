//! The REST datastore's requests and responses that need no network: resource
//! paths, document names, the structured queries sent, and the decoding of
//! query, lookup and aggregation responses.
use vstd::prelude::*;

use crate::firestore::api::aggregate::{AggregateDefinition, AggregateOperation};
use crate::firestore::api::operations::FieldTransform;
use crate::firestore::api::query::{Bound, FieldFilter, FilterOperator, LimitType, OrderBy, OrderDirection, QueryDefinition};
use crate::firestore::api::snapshot::{opt_map_view, DocModel, DocumentSnapshot, SnapshotMetadata};
use crate::firestore::error::{internal_error, invalid_argument, FirestoreErrorCode, FirestoreResult};
use crate::firestore::model::document_key::is_document_path;
use crate::firestore::model::field_path::{document_id_segments, render_field_path};
use crate::firestore::model::resource_path::{parse_resource_path, render_path};
use crate::firestore::model::{DocumentKey, FieldPath, ResourcePath};
use crate::firestore::remote::serializer::{
    database_name_text, decoded, decoded_map, decode_value, encode_value, encoded, JsonProtoSerializer,
};
use crate::firestore::value::value::{insert_sorted, ValueModel};
use crate::firestore::value::MapValue;
use crate::json::{json_member, json_models, json_str, lemma_json_models, lemma_json_models_push, lemma_member_models, member_models, JsonModel, JsonNumber, JsonValue};
use crate::text::{owned, starts_with_str};

verus! {

/// Entries of a map, in key order.
pub type Entries = Seq<(Seq<char>, ValueModel)>;

/// The path of a request on the documents under `parent`: `documents:{verb}`
/// at the root, `documents/{parent}:{verb}` below it.
pub open spec fn request_path_text(parent: Seq<Seq<char>>, verb: Seq<char>) -> Seq<char> {
    if parent.len() == 0 {
        "documents:"@ + verb
    } else {
        "documents/"@ + render_path(parent) + ":"@ + verb
    }
}

/// The path of a request such as `runQuery` on the documents under `parent`.
pub fn request_path(parent: &ResourcePath, verb: &str) -> (r: String)
    ensures
        r@ == request_path_text(parent@, verb@),
{
    if parent.is_empty() {
        let mut r = owned("documents:");
        r.append(verb);
        r
    } else {
        let mut r = owned("documents/");
        let rendered = parent.canonical_string();
        r.append(rendered.as_str());
        r.append(":");
        r.append(verb);
        r
    }
}

/// The path of the document `key`: `documents/{path}`.
pub fn document_path(key: &DocumentKey) -> (r: String)
    ensures
        r@ == "documents/"@ + render_path(key@),
{
    let mut r = owned("documents/");
    let rendered = key.path().canonical_string();
    r.append(rendered.as_str());
    r
}

/// An update must name a field or carry a transform.
pub fn check_update_request(field_paths: &Vec<FieldPath>, transforms: &Vec<FieldTransform>) -> (r: FirestoreResult<()>)
    ensures
        match r {
            Ok(_) => field_paths@.len() > 0 || transforms@.len() > 0,
            Err(e) => field_paths@.len() == 0 && transforms@.len() == 0 && e.code
                == FirestoreErrorCode::InvalidArgument,
        },
{
    if field_paths.len() == 0 && transforms.len() == 0 {
        return Err(invalid_argument("update_document requires at least one field path"));
    }
    Ok(())
}

/// The key named by a document's resource name: the database's name and
/// `/documents/` followed by a document path. A foreign prefix is an internal
/// error; a path that names no document is an invalid argument.
pub open spec fn key_of_name(db: (Seq<char>, Seq<char>), name: Seq<char>) -> Result<Seq<Seq<char>>, FirestoreErrorCode> {
    let prefix = database_name_text(db) + "/documents/"@;
    if prefix.len() <= name.len() && name.take(prefix.len() as int) == prefix {
        match parse_resource_path(name.skip(prefix.len() as int)) {
            Some(p) => if is_document_path(p) {
                Ok(p)
            } else {
                Err(FirestoreErrorCode::InvalidArgument)
            },
            None => Err(FirestoreErrorCode::InvalidArgument),
        }
    } else {
        Err(FirestoreErrorCode::Internal)
    }
}

/// The key named by a document's resource name.
pub fn parse_document_name(serializer: &JsonProtoSerializer, name: &str) -> (r: FirestoreResult<DocumentKey>)
    ensures
        match r {
            Ok(k) => key_of_name(serializer@, name@) == Ok::<Seq<Seq<char>>, FirestoreErrorCode>(k@),
            Err(e) => key_of_name(serializer@, name@) == Err::<Seq<Seq<char>>, FirestoreErrorCode>(e.code),
        },
{
    let mut prefix = serializer.database_name();
    prefix.append("/documents/");
    if !starts_with_str(name, prefix.as_str()) {
        let mut message = owned("Unexpected document name '");
        message.append(name);
        message.append("' returned by Firestore");
        return Err(internal_error(message.as_str()));
    }
    let start = prefix.unicode_len();
    let end = name.unicode_len();
    let relative = name.substring_char(start, end);
    assert(relative@ =~= name@.skip(start as int));
    match DocumentKey::from_string(relative) {
        Ok(k) => Ok(k),
        Err(e) => Err(e),
    }
}

/// The fields of a document resource: its `fields` decoded, or none when the
/// resource has no `fields`; `None` when they do not decode.
pub open spec fn document_fields(doc: JsonModel) -> Option<Entries> {
    if json_member(doc, "fields"@) is Some {
        decoded_map(doc)
    } else {
        Some(Seq::<(Seq<char>, ValueModel)>::empty())
    }
}

/// The snapshots of a `runQuery` response: one for each entry that holds a
/// `document`, in order, keyed by the document's name and holding its
/// fields. `Err` gives the code of the first failure.
pub open spec fn query_response_docs(db: (Seq<char>, Seq<char>), entries: Seq<JsonModel>) -> Result<Seq<DocModel>, FirestoreErrorCode>
    decreases entries.len(),
{
    if entries.len() == 0 {
        Ok(Seq::<DocModel>::empty())
    } else {
        match query_response_docs(db, entries.drop_last()) {
            Err(code) => Err(code),
            Ok(prev) => match json_member(entries.last(), "document"@) {
                None => Ok(prev),
                Some(doc) => match json_member(doc, "name"@) {
                    None => Err(FirestoreErrorCode::Internal),
                    Some(n) => match json_str(n) {
                        None => Err(FirestoreErrorCode::Internal),
                        Some(name) => match key_of_name(db, name) {
                            Err(code) => Err(code),
                            Ok(key) => match document_fields(doc) {
                                None => Err(FirestoreErrorCode::InvalidArgument),
                                Some(fields) => Ok(
                                    prev.push(
                                        DocModel {
                                            key,
                                            data: Some(fields),
                                            metadata: SnapshotMetadata { from_cache: false, has_pending_writes: false },
                                        },
                                    ),
                                ),
                            },
                        },
                    },
                },
            },
        }
    }
}

/// The snapshots of a `runQuery` response, which must be an array.
pub open spec fn query_response(db: (Seq<char>, Seq<char>), response: JsonModel) -> Result<Seq<DocModel>, FirestoreErrorCode> {
    match response {
        JsonModel::Array(entries) => query_response_docs(db, entries),
        _ => Err(FirestoreErrorCode::Internal),
    }
}

/// The views of a sequence of snapshots.
pub open spec fn snapshot_views(s: Seq<DocumentSnapshot>) -> Seq<DocModel> {
    s.map_values(|d: DocumentSnapshot| d@)
}

/// The snapshots of the documents in a `runQuery` response.
pub fn decode_run_query_response(serializer: &JsonProtoSerializer, response: &JsonValue) -> (r: FirestoreResult<Vec<DocumentSnapshot>>)
    ensures
        match r {
            Ok(docs) => query_response(serializer@, response@) == Ok::<Seq<DocModel>, FirestoreErrorCode>(snapshot_views(docs@)),
            Err(e) => query_response(serializer@, response@) == Err::<Seq<DocModel>, FirestoreErrorCode>(e.code),
        },
{
    let entries = match response.as_array() {
        Some(xs) => xs,
        None => {
            return Err(internal_error("Firestore runQuery response must be an array"));
        },
    };
    proof {
        lemma_json_models(entries@);
    }
    let ghost ms = json_models(entries@);
    let mut snapshots: Vec<DocumentSnapshot> = Vec::new();
    assert(ms.take(0) =~= Seq::<JsonModel>::empty());
    assert(snapshot_views(snapshots@) =~= Seq::<DocModel>::empty());
    let mut i: usize = 0;
    while i < entries.len()
        invariant
            i <= entries@.len(),
            response@ == JsonModel::Array(ms),
            ms == json_models(entries@),
            ms.len() == entries@.len(),
            forall|k: int| 0 <= k < entries@.len() ==> #[trigger] ms[k] == entries@[k]@,
            query_response_docs(serializer@, ms.take(i as int)) == Ok::<Seq<DocModel>, FirestoreErrorCode>(snapshot_views(snapshots@)),
        decreases entries@.len() - i,
    {
        proof {
            let t = ms.take(i + 1);
            assert(t.drop_last() =~= ms.take(i as int));
            assert(t.last() == entries@[i as int]@);
        }
        match entries[i].get("document") {
            None => {},
            Some(document) => {
                let name = match document.get("name") {
                    Some(n) => match n.as_str() {
                        Some(s) => s,
                        None => {
                            proof {
                                lemma_query_docs_err_extends(serializer@, ms, i + 1);
                            }
                            return Err(internal_error("Firestore runQuery document missing 'name' field"));
                        },
                    },
                    None => {
                        proof {
                            lemma_query_docs_err_extends(serializer@, ms, i + 1);
                        }
                        return Err(internal_error("Firestore runQuery document missing 'name' field"));
                    },
                };
                let key = match parse_document_name(serializer, name) {
                    Ok(k) => k,
                    Err(e) => {
                        proof {
                            lemma_query_docs_err_extends(serializer@, ms, i + 1);
                        }
                        return Err(e);
                    },
                };
                let fields = match serializer.decode_document_fields(document) {
                    Ok(Some(m)) => m,
                    Ok(None) => MapValue::empty(),
                    Err(e) => {
                        proof {
                            lemma_query_docs_err_extends(serializer@, ms, i + 1);
                        }
                        return Err(e);
                    },
                };
                let ghost before = snapshots@;
                snapshots.push(DocumentSnapshot::new(key, Some(fields), SnapshotMetadata::new(false, false)));
                proof {
                    assert(snapshot_views(snapshots@) =~= snapshot_views(before).push(snapshots@.last()@));
                }
            },
        }
        i = i + 1;
    }
    assert(ms.take(ms.len() as int) =~= ms);
    Ok(snapshots)
}

/// A failure on a prefix of the entries is the failure of the whole response.
proof fn lemma_query_docs_err_extends(db: (Seq<char>, Seq<char>), entries: Seq<JsonModel>, k: int)
    requires
        0 <= k <= entries.len(),
        query_response_docs(db, entries.take(k)) is Err,
    ensures
        query_response_docs(db, entries) == query_response_docs(db, entries.take(k)),
    decreases entries.len(),
{
    if k == entries.len() {
        assert(entries.take(k) =~= entries);
    } else {
        assert(entries.drop_last().take(k) =~= entries.take(k));
        lemma_query_docs_err_extends(db, entries.drop_last(), k);
    }
}

/// The snapshot of a document lookup: the document's fields when the
/// service returned it, no document otherwise.
pub fn document_snapshot_from_response(
    serializer: &JsonProtoSerializer,
    key: DocumentKey,
    response: Option<&JsonValue>,
) -> (r: FirestoreResult<DocumentSnapshot>)
    ensures
        match response {
            None => r matches Ok(s) && s@ == (DocModel {
                key: key@,
                data: None,
                metadata: SnapshotMetadata { from_cache: false, has_pending_writes: false },
            }),
            Some(json) => match document_fields(json@) {
                Some(fields) => r matches Ok(s) && s@ == (DocModel {
                    key: key@,
                    data: Some(fields),
                    metadata: SnapshotMetadata { from_cache: false, has_pending_writes: false },
                }),
                None => r matches Err(e) && e.code == FirestoreErrorCode::InvalidArgument,
            },
        },
{
    match response {
        Some(json) => {
            let fields = match serializer.decode_document_fields(json) {
                Ok(Some(m)) => m,
                Ok(None) => MapValue::empty(),
                Err(e) => {
                    return Err(e);
                },
            };
            Ok(DocumentSnapshot::new(key, Some(fields), SnapshotMetadata::new(false, false)))
        },
        None => Ok(DocumentSnapshot::new(key, None, SnapshotMetadata::new(false, false))),
    }
}

/// The aggregates after storing each member of `fields`, in order, under its
/// alias; `None` when a value does not decode.
pub open spec fn aggregate_fields(acc: Entries, fields: Seq<(Seq<char>, JsonModel)>) -> Option<Entries>
    decreases fields.len(),
{
    if fields.len() == 0 {
        Some(acc)
    } else {
        match aggregate_fields(acc, fields.drop_last()) {
            None => None,
            Some(prev) => match decoded(fields.last().1) {
                None => None,
                Some(v) => Some(insert_sorted(prev, fields.last().0, v)),
            },
        }
    }
}

/// The aggregates of the entries of a `runAggregationQuery` response: each
/// entry with a `result` must hold an object of `aggregateFields`, whose
/// values are stored under their aliases. `Err` gives the code of the first
/// failure.
pub open spec fn aggregate_entries(entries: Seq<JsonModel>) -> Result<Entries, FirestoreErrorCode>
    decreases entries.len(),
{
    if entries.len() == 0 {
        Ok(Seq::<(Seq<char>, ValueModel)>::empty())
    } else {
        match aggregate_entries(entries.drop_last()) {
            Err(code) => Err(code),
            Ok(prev) => match json_member(entries.last(), "result"@) {
                None => Ok(prev),
                Some(result) => match json_member(result, "aggregateFields"@) {
                    Some(JsonModel::Object(fields)) => match aggregate_fields(prev, fields) {
                        None => Err(FirestoreErrorCode::InvalidArgument),
                        Some(next) => Ok(next),
                    },
                    _ => Err(FirestoreErrorCode::Internal),
                },
            },
        }
    }
}

/// The aggregates of a `runAggregationQuery` response, which must be an array
/// and must hold at least one aggregate.
pub open spec fn aggregate_response(response: JsonModel) -> Result<Entries, FirestoreErrorCode> {
    match response {
        JsonModel::Array(entries) => match aggregate_entries(entries) {
            Err(code) => Err(code),
            Ok(aggregates) => if aggregates.len() == 0 {
                Err(FirestoreErrorCode::Internal)
            } else {
                Ok(aggregates)
            },
        },
        _ => Err(FirestoreErrorCode::Internal),
    }
}

/// A failure on a prefix of the entries is the failure of all of them.
proof fn lemma_aggregate_err_extends(entries: Seq<JsonModel>, k: int)
    requires
        0 <= k <= entries.len(),
        aggregate_entries(entries.take(k)) is Err,
    ensures
        aggregate_entries(entries) == aggregate_entries(entries.take(k)),
    decreases entries.len(),
{
    if k == entries.len() {
        assert(entries.take(k) =~= entries);
    } else {
        assert(entries.drop_last().take(k) =~= entries.take(k));
        lemma_aggregate_err_extends(entries.drop_last(), k);
    }
}

/// A failure on a prefix of the fields is the failure of all of them.
proof fn lemma_aggregate_fields_none_extends(acc: Entries, fields: Seq<(Seq<char>, JsonModel)>, k: int)
    requires
        0 <= k <= fields.len(),
        aggregate_fields(acc, fields.take(k)) is None,
    ensures
        aggregate_fields(acc, fields) is None,
    decreases fields.len(),
{
    if k == fields.len() {
        assert(fields.take(k) =~= fields);
    } else {
        assert(fields.drop_last().take(k) =~= fields.take(k));
        lemma_aggregate_fields_none_extends(acc, fields.drop_last(), k);
    }
}

/// Stores each aggregate of `fields` in `aggregates`.
fn store_aggregates(aggregates: &mut MapValue, fields: &Vec<(String, JsonValue)>) -> (r: FirestoreResult<()>)
    ensures
        match r {
            Ok(_) => aggregate_fields(old(aggregates)@, member_models(fields@)) == Some(final(aggregates)@),
            Err(e) => aggregate_fields(old(aggregates)@, member_models(fields@)) is None && e.code
                == FirestoreErrorCode::InvalidArgument,
        },
{
    proof {
        lemma_member_models(fields@);
    }
    let ghost start = aggregates@;
    let ghost fs = member_models(fields@);
    let mut i: usize = 0;
    assert(fs.take(0) =~= Seq::<(Seq<char>, JsonModel)>::empty());
    while i < fields.len()
        invariant
            i <= fields@.len(),
            fs == member_models(fields@),
            fs.len() == fields@.len(),
            forall|k: int| 0 <= k < fields@.len() ==> #[trigger] fs[k] == (fields@[k].0@, fields@[k].1@),
            start == old(aggregates)@,
            aggregate_fields(start, fs.take(i as int)) == Some(aggregates@),
        decreases fields@.len() - i,
    {
        proof {
            let t = fs.take(i + 1);
            assert(t.drop_last() =~= fs.take(i as int));
            assert(t.last() == fs[i as int]);
        }
        match decode_value(&fields[i].1) {
            Ok(v) => {
                aggregates.insert(fields[i].0.clone(), v);
            },
            Err(e) => {
                proof {
                    lemma_aggregate_fields_none_extends(start, fs, i + 1);
                }
                return Err(e);
            },
        }
        i = i + 1;
    }
    assert(fs.take(fs.len() as int) =~= fs);
    Ok(())
}

/// The aggregates of a `runAggregationQuery` response, keyed by alias.
pub fn decode_aggregate_response(response: &JsonValue) -> (r: FirestoreResult<MapValue>)
    ensures
        match r {
            Ok(m) => aggregate_response(response@) == Ok::<Entries, FirestoreErrorCode>(m@),
            Err(e) => aggregate_response(response@) == Err::<Entries, FirestoreErrorCode>(e.code),
        },
{
    let entries = match response.as_array() {
        Some(xs) => xs,
        None => {
            return Err(internal_error("Firestore runAggregationQuery response must be an array"));
        },
    };
    proof {
        lemma_json_models(entries@);
    }
    let ghost ms = json_models(entries@);
    let mut aggregates = MapValue::empty();
    assert(ms.take(0) =~= Seq::<JsonModel>::empty());
    let mut i: usize = 0;
    while i < entries.len()
        invariant
            i <= entries@.len(),
            response@ == JsonModel::Array(ms),
            ms == json_models(entries@),
            ms.len() == entries@.len(),
            forall|k: int| 0 <= k < entries@.len() ==> #[trigger] ms[k] == entries@[k]@,
            aggregate_entries(ms.take(i as int)) == Ok::<Entries, FirestoreErrorCode>(aggregates@),
        decreases entries@.len() - i,
    {
        proof {
            let t = ms.take(i + 1);
            assert(t.drop_last() =~= ms.take(i as int));
            assert(t.last() == entries@[i as int]@);
        }
        match entries[i].get("result") {
            None => {},
            Some(result) => {
                let fields = match result.get("aggregateFields") {
                    Some(f) => match f.as_object() {
                        Some(members) => members,
                        None => {
                            proof {
                                lemma_aggregate_err_extends(ms, i + 1);
                            }
                            return Err(internal_error("Firestore runAggregationQuery response missing aggregateFields"));
                        },
                    },
                    None => {
                        proof {
                            lemma_aggregate_err_extends(ms, i + 1);
                        }
                        return Err(internal_error("Firestore runAggregationQuery response missing aggregateFields"));
                    },
                };
                match store_aggregates(&mut aggregates, fields) {
                    Ok(_) => {},
                    Err(e) => {
                        proof {
                            lemma_aggregate_err_extends(ms, i + 1);
                        }
                        return Err(e);
                    },
                }
            },
        }
        i = i + 1;
    }
    assert(ms.take(ms.len() as int) =~= ms);
    if aggregates.is_empty() {
        return Err(internal_error("Firestore runAggregationQuery response contained no aggregation results"));
    }
    Ok(aggregates)
}

/// The wire name of a filter operator.
pub open spec fn op_name(op: FilterOperator) -> Seq<char> {
    match op {
        FilterOperator::LessThan => "LESS_THAN"@,
        FilterOperator::LessThanOrEqual => "LESS_THAN_OR_EQUAL"@,
        FilterOperator::Equal => "EQUAL"@,
        FilterOperator::NotEqual => "NOT_EQUAL"@,
        FilterOperator::GreaterThanOrEqual => "GREATER_THAN_OR_EQUAL"@,
        FilterOperator::GreaterThan => "GREATER_THAN"@,
        FilterOperator::ArrayContains => "ARRAY_CONTAINS"@,
        FilterOperator::ArrayContainsAny => "ARRAY_CONTAINS_ANY"@,
        FilterOperator::In => "IN"@,
        FilterOperator::NotIn => "NOT_IN"@,
    }
}

/// The wire name of a sort direction.
pub open spec fn direction_name(d: OrderDirection) -> Seq<char> {
    match d {
        OrderDirection::Ascending => "ASCENDING"@,
        OrderDirection::Descending => "DESCENDING"@,
    }
}

/// A string as JSON.
pub open spec fn json_text(s: Seq<char>) -> JsonModel {
    JsonModel::String(s, None)
}

/// `{"fieldPath": path}`.
pub open spec fn field_reference(path: Seq<Seq<char>>) -> JsonModel {
    JsonModel::Object(seq![("fieldPath"@, json_text(render_field_path(path)))])
}

/// `{"fieldFilter": {"field": .., "op": .., "value": ..}}`.
pub open spec fn field_filter_json(f: FieldFilter) -> JsonModel {
    JsonModel::Object(
        seq![
            ("fieldFilter"@, JsonModel::Object(
                seq![
                    ("field"@, field_reference(f.field@)),
                    ("op"@, json_text(op_name(f.operator))),
                    ("value"@, encoded(f.value@)),
                ],
            )),
        ],
    )
}

/// One filter as it stands, several joined by `AND` in a composite filter.
pub open spec fn filters_json(fs: Seq<FieldFilter>) -> JsonModel {
    if fs.len() == 1 {
        field_filter_json(fs[0])
    } else {
        JsonModel::Object(
            seq![
                ("compositeFilter"@, JsonModel::Object(
                    seq![
                        ("op"@, json_text("AND"@)),
                        ("filters"@, JsonModel::Array(fs.map_values(|f: FieldFilter| field_filter_json(f)))),
                    ],
                )),
            ],
        )
    }
}

/// `{"field": {"fieldPath": ..}, "direction": ..}`.
pub open spec fn order_json(field: Seq<Seq<char>>, direction: OrderDirection) -> JsonModel {
    JsonModel::Object(seq![("field"@, field_reference(field)), ("direction"@, json_text(direction_name(direction)))])
}

/// The other direction.
pub open spec fn flipped(d: OrderDirection) -> OrderDirection {
    match d {
        OrderDirection::Ascending => OrderDirection::Descending,
        OrderDirection::Descending => OrderDirection::Ascending,
    }
}

/// The direction asked of the server: a query limited to its last results
/// is answered from the other end, so each direction flips.
pub open spec fn request_direction(d: OrderDirection, t: LimitType) -> OrderDirection {
    if t == LimitType::Last {
        flipped(d)
    } else {
        d
    }
}

/// Whether a query orders by document name itself.
pub open spec fn orders_by_name(d: QueryDefinition) -> bool {
    exists|i: int| 0 <= i < d.order_by@.len() && (#[trigger] d.order_by@[i]).field@ == document_id_segments()
}

/// The direction of the last ordering of a query; ascending without any.
pub open spec fn last_direction(d: QueryDefinition) -> OrderDirection {
    if d.order_by@.len() > 0 {
        d.order_by@.last().direction
    } else {
        OrderDirection::Ascending
    }
}

/// The orderings sent for a query: its own, then, unless it already orders
/// by document name, by document name in the direction of its last
/// ordering; each in the direction asked of the server.
pub open spec fn request_orders_json(d: QueryDefinition) -> Seq<JsonModel> {
    let own = d.order_by@.map_values(|o: OrderBy| order_json(o.field@, request_direction(o.direction, d.limit_type)));
    if orders_by_name(d) {
        own
    } else {
        own.push(order_json(document_id_segments(), request_direction(last_direction(d), d.limit_type)))
    }
}

/// `{"values": [..], "before": before}`.
pub open spec fn cursor_json(b: Bound, before: bool) -> JsonModel {
    JsonModel::Object(
        seq![
            ("values"@, JsonModel::Array(b.values@.map_values(|v: crate::firestore::value::FirestoreValue| encoded(v@)))),
            ("before"@, JsonModel::Bool(before)),
        ],
    )
}

/// The id of the queried collection: the last segment of its path.
pub open spec fn collection_id_text(path: Seq<Seq<char>>) -> Seq<char> {
    if path.len() > 0 {
        path.last()
    } else {
        Seq::empty()
    }
}

/// The structured query for a definition: the collection it reads from, the
/// filters (when there are some), the orderings (see [`request_orders_json`]),
/// then the limit and the cursors, each when the definition has it. A start
/// cursor is `before` when inclusive, an end cursor when exclusive; a query
/// limited to its last results is asked from the other end, its end cursor
/// sent as the start and its start cursor as the end.
pub open spec fn structured_query_json(d: QueryDefinition) -> JsonModel {
    let from = JsonModel::Object(
        seq![("collectionId"@, json_text(collection_id_text(d.collection_path@))), ("allDescendants"@, JsonModel::Bool(false))],
    );
    let m0 = seq![("from"@, JsonModel::Array(seq![from]))];
    let m1 = if d.filters@.len() > 0 {
        m0.push(("where"@, filters_json(d.filters@)))
    } else {
        m0
    };
    let m2 = m1.push(("orderBy"@, JsonModel::Array(request_orders_json(d))));
    let m3 = match d.limit {
        Some(l) => m2.push(("limit"@, JsonModel::Number(JsonNumber { as_i64: Some(l as i64), as_f64: None }))),
        None => m2,
    };
    let (start, end) = if d.limit_type == LimitType::Last {
        (d.end_at, d.start_at)
    } else {
        (d.start_at, d.end_at)
    };
    let m4 = match start {
        Some(b) => m3.push(("startAt"@, cursor_json(b, b.inclusive))),
        None => m3,
    };
    let m5 = match end {
        Some(b) => m4.push(("endAt"@, cursor_json(b, !b.inclusive))),
        None => m4,
    };
    JsonModel::Object(m5)
}

impl FilterOperator {
    /// The operator's wire name.
    pub fn as_str(&self) -> (r: &'static str)
        ensures
            r@ == op_name(*self),
    {
        proof {
            reveal_strlit("LESS_THAN");
            reveal_strlit("LESS_THAN_OR_EQUAL");
            reveal_strlit("EQUAL");
            reveal_strlit("NOT_EQUAL");
            reveal_strlit("GREATER_THAN_OR_EQUAL");
            reveal_strlit("GREATER_THAN");
            reveal_strlit("ARRAY_CONTAINS");
            reveal_strlit("ARRAY_CONTAINS_ANY");
            reveal_strlit("IN");
            reveal_strlit("NOT_IN");
        }
        match self {
            FilterOperator::LessThan => "LESS_THAN",
            FilterOperator::LessThanOrEqual => "LESS_THAN_OR_EQUAL",
            FilterOperator::Equal => "EQUAL",
            FilterOperator::NotEqual => "NOT_EQUAL",
            FilterOperator::GreaterThanOrEqual => "GREATER_THAN_OR_EQUAL",
            FilterOperator::GreaterThan => "GREATER_THAN",
            FilterOperator::ArrayContains => "ARRAY_CONTAINS",
            FilterOperator::ArrayContainsAny => "ARRAY_CONTAINS_ANY",
            FilterOperator::In => "IN",
            FilterOperator::NotIn => "NOT_IN",
        }
    }
}

impl OrderDirection {
    /// The direction's wire name.
    pub fn as_str(&self) -> (r: &'static str)
        ensures
            r@ == direction_name(*self),
    {
        proof {
            reveal_strlit("ASCENDING");
            reveal_strlit("DESCENDING");
        }
        match self {
            OrderDirection::Ascending => "ASCENDING",
            OrderDirection::Descending => "DESCENDING",
        }
    }
}

/// An object with the given members, in order.
fn object_of(members: Vec<(String, JsonValue)>) -> (r: JsonValue)
    ensures
        r@ == JsonModel::Object(member_models(members@)),
{
    JsonValue::object(members)
}

/// `{"fieldPath": path}` for a field.
fn encode_field_reference(field: &FieldPath) -> (r: JsonValue)
    ensures
        r@ == field_reference(field@),
{
    let text = JsonValue::string(field.canonical_string());
    crate::json::object1("fieldPath", text)
}

/// A field filter as JSON.
pub fn encode_field_filter(filter: &FieldFilter) -> (r: JsonValue)
    ensures
        r@ == field_filter_json(*filter),
{
    let field = encode_field_reference(filter.field());
    let op = JsonValue::string_from(filter.operator().as_str());
    let value = encode_value(filter.value());
    let ghost (fv, ov, vv) = (field@, op@, value@);
    let mut members: Vec<(String, JsonValue)> = Vec::new();
    members.push((owned("field"), field));
    members.push((owned("op"), op));
    members.push((owned("value"), value));
    proof {
        lemma_member_models(members@);
        assert(member_models(members@) =~= seq![("field"@, fv), ("op"@, ov), ("value"@, vv)]);
    }
    let inner = object_of(members);
    crate::json::object1("fieldFilter", inner)
}

/// The filters of a query as JSON: one as it stands, several joined by
/// `AND`.
pub fn encode_filters(filters: &Vec<FieldFilter>) -> (r: JsonValue)
    ensures
        r@ == filters_json(filters@),
{
    if filters.len() == 1 {
        return encode_field_filter(&filters[0]);
    }
    let mut nested: Vec<JsonValue> = Vec::new();
    proof {
        lemma_json_models_push(nested@, JsonValue::Null);
        assert(filters@.take(0).map_values(|f: FieldFilter| field_filter_json(f)) =~= Seq::<JsonModel>::empty());
    }
    let mut i: usize = 0;
    while i < filters.len()
        invariant
            i <= filters@.len(),
            json_models(nested@) == filters@.take(i as int).map_values(|f: FieldFilter| field_filter_json(f)),
        decreases filters@.len() - i,
    {
        let e = encode_field_filter(&filters[i]);
        let ghost before = nested@;
        let ghost ev = e;
        nested.push(e);
        proof {
            assert(nested@ =~= before.push(ev));
            lemma_json_models_push(before, ev);
            assert(filters@.take(i + 1) =~= filters@.take(i as int).push(filters@[i as int]));
            assert(json_models(nested@) =~= filters@.take(i + 1).map_values(|f: FieldFilter| field_filter_json(f)));
        }
        i = i + 1;
    }
    assert(filters@.take(i as int) =~= filters@);
    let list = JsonValue::array(nested);
    let and = JsonValue::string_from("AND");
    let ghost (lv, av) = (list@, and@);
    let mut members: Vec<(String, JsonValue)> = Vec::new();
    members.push((owned("op"), and));
    members.push((owned("filters"), list));
    proof {
        reveal_strlit("AND");
        lemma_member_models(members@);
        assert(member_models(members@) =~= seq![("op"@, av), ("filters"@, lv)]);
    }
    let composite = object_of(members);
    crate::json::object1("compositeFilter", composite)
}

/// The values of a cursor, encoded.
fn encode_cursor_values(values: &Vec<crate::firestore::value::FirestoreValue>) -> (r: JsonValue)
    ensures
        r@ == JsonModel::Array(values@.map_values(|v: crate::firestore::value::FirestoreValue| encoded(v@))),
{
    let mut out: Vec<JsonValue> = Vec::new();
    proof {
        lemma_json_models_push(out@, JsonValue::Null);
        assert(values@.take(0).map_values(|v: crate::firestore::value::FirestoreValue| encoded(v@)) =~= Seq::<JsonModel>::empty());
    }
    let mut i: usize = 0;
    while i < values.len()
        invariant
            i <= values@.len(),
            json_models(out@) == values@.take(i as int).map_values(|v: crate::firestore::value::FirestoreValue| encoded(v@)),
        decreases values@.len() - i,
    {
        let e = encode_value(&values[i]);
        let ghost before = out@;
        let ghost ev = e;
        out.push(e);
        proof {
            assert(out@ =~= before.push(ev));
            lemma_json_models_push(before, ev);
            assert(values@.take(i + 1) =~= values@.take(i as int).push(values@[i as int]));
            assert(json_models(out@) =~= values@.take(i + 1).map_values(
                |v: crate::firestore::value::FirestoreValue| encoded(v@),
            ));
        }
        i = i + 1;
    }
    assert(values@.take(i as int) =~= values@);
    JsonValue::array(out)
}

/// A cursor as JSON, with the given `before` flag.
fn encode_cursor(bound: &Bound, before: bool) -> (r: JsonValue)
    ensures
        r@ == cursor_json(*bound, before),
{
    let values = encode_cursor_values(bound.values());
    let flag = JsonValue::Bool(before);
    proof {
        crate::json::lemma_json_container_views(flag);
    }
    let ghost (vv, fv) = (values@, flag@);
    let mut members: Vec<(String, JsonValue)> = Vec::new();
    members.push((owned("values"), values));
    members.push((owned("before"), flag));
    proof {
        lemma_member_models(members@);
        assert(member_models(members@) =~= seq![("values"@, vv), ("before"@, fv)]);
    }
    object_of(members)
}

/// A start cursor: `before` when the cursor is inclusive.
pub fn encode_start_cursor(bound: &Bound) -> (r: JsonValue)
    ensures
        r@ == cursor_json(*bound, bound.inclusive),
{
    encode_cursor(bound, bound.inclusive())
}

/// An end cursor: `before` when the cursor is exclusive.
pub fn encode_end_cursor(bound: &Bound) -> (r: JsonValue)
    ensures
        r@ == cursor_json(*bound, !bound.inclusive),
{
    encode_cursor(bound, !bound.inclusive())
}

/// An ordering as JSON.
fn encode_order(field: &FieldPath, direction: OrderDirection) -> (r: JsonValue)
    ensures
        r@ == order_json(field@, direction),
{
    let field = encode_field_reference(field);
    let direction = JsonValue::string_from(direction.as_str());
    let ghost (fv, dv) = (field@, direction@);
    let mut members: Vec<(String, JsonValue)> = Vec::new();
    members.push((owned("field"), field));
    members.push((owned("direction"), direction));
    proof {
        lemma_member_models(members@);
        assert(member_models(members@) =~= seq![("field"@, fv), ("direction"@, dv)]);
    }
    object_of(members)
}

/// The structured query sent for a definition; see [`structured_query_json`].
pub fn build_structured_query(definition: &QueryDefinition) -> (r: JsonValue)
    ensures
        r@ == structured_query_json(*definition),
{
    let collection_id = match definition.collection_path.last_segment() {
        Some(s) => owned(s),
        None => String::new(),
    };
    let id = JsonValue::string(collection_id);
    let all = JsonValue::Bool(false);
    proof {
        crate::json::lemma_json_container_views(all);
    }
    let ghost (iv, av) = (id@, all@);
    let mut from_members: Vec<(String, JsonValue)> = Vec::new();
    from_members.push((owned("collectionId"), id));
    from_members.push((owned("allDescendants"), all));
    proof {
        lemma_member_models(from_members@);
        assert(member_models(from_members@) =~= seq![("collectionId"@, iv), ("allDescendants"@, av)]);
    }
    let from = object_of(from_members);
    let ghost fv = from@;
    let mut from_list: Vec<JsonValue> = Vec::new();
    from_list.push(from);
    proof {
        lemma_json_models(from_list@);
        assert(json_models(from_list@) =~= seq![fv]);
    }
    let mut members: Vec<(String, JsonValue)> = Vec::new();
    members.push((owned("from"), JsonValue::array(from_list)));
    let ghost d = *definition;
    let ghost from_model = JsonModel::Object(
        seq![("collectionId"@, json_text(collection_id_text(d.collection_path@))), ("allDescendants"@, JsonModel::Bool(false))],
    );
    let ghost mut expected: Seq<(Seq<char>, JsonModel)> = seq![("from"@, JsonModel::Array(seq![from_model]))];
    proof {
        lemma_member_models(members@);
        assert(member_models(members@) =~= expected);
    }
    if definition.filters.len() > 0 {
        let w = encode_filters(&definition.filters);
        let ghost before = members@;
        members.push((owned("where"), w));
        proof {
            expected = expected.push(("where"@, filters_json(d.filters@)));
            lemma_member_models(members@);
            lemma_member_models(before);
            assert(member_models(members@) =~= expected);
        }
    }
    let last_type = definition.limit_type == LimitType::Last;
    let mut orders: Vec<JsonValue> = Vec::new();
    proof {
        lemma_json_models_push(orders@, JsonValue::Null);
    }
    let ghost own = d.order_by@.map_values(|o: OrderBy| order_json(o.field@, request_direction(o.direction, d.limit_type)));
    assert(own.take(0) =~= Seq::<JsonModel>::empty());
    let mut by_name = false;
    let mut i: usize = 0;
    while i < definition.order_by.len()
        invariant
            i <= definition.order_by@.len(),
            d == *definition,
            last_type == (d.limit_type == LimitType::Last),
            own == d.order_by@.map_values(|o: OrderBy| order_json(o.field@, request_direction(o.direction, d.limit_type))),
            json_models(orders@) == own.take(i as int),
            by_name == exists|j: int| 0 <= j < i && (#[trigger] d.order_by@[j]).field@ == document_id_segments(),
        decreases definition.order_by@.len() - i,
    {
        let o = &definition.order_by[i];
        let direction = if last_type {
            match o.direction {
                OrderDirection::Ascending => OrderDirection::Descending,
                OrderDirection::Descending => OrderDirection::Ascending,
            }
        } else {
            o.direction
        };
        let e = encode_order(&o.field, direction);
        if o.field.is_document_id() {
            by_name = true;
        }
        let ghost before = orders@;
        let ghost ev = e;
        orders.push(e);
        proof {
            assert(orders@ =~= before.push(ev));
            lemma_json_models_push(before, ev);
            assert(own.take(i + 1) =~= own.take(i as int).push(own[i as int]));
            assert(json_models(orders@) =~= own.take(i + 1));
            if exists|j: int| 0 <= j < i + 1 && (#[trigger] d.order_by@[j]).field@ == document_id_segments() {
                let j = choose|j: int| 0 <= j < i + 1 && (#[trigger] d.order_by@[j]).field@ == document_id_segments();
                if j < i {
                    assert(exists|j: int| 0 <= j < i && (#[trigger] d.order_by@[j]).field@ == document_id_segments());
                }
            }
        }
        i = i + 1;
    }
    assert(own.take(i as int) =~= own);
    if !by_name {
        let last = if definition.order_by.len() > 0 {
            definition.order_by[definition.order_by.len() - 1].direction
        } else {
            OrderDirection::Ascending
        };
        let direction = if last_type {
            match last {
                OrderDirection::Ascending => OrderDirection::Descending,
                OrderDirection::Descending => OrderDirection::Ascending,
            }
        } else {
            last
        };
        let name = FieldPath::document_id();
        let e = encode_order(&name, direction);
        let ghost before = orders@;
        let ghost ev = e;
        orders.push(e);
        proof {
            assert(orders@ =~= before.push(ev));
            lemma_json_models_push(before, ev);
        }
    }
    assert(json_models(orders@) =~= request_orders_json(d));
    let ghost before = members@;
    members.push((owned("orderBy"), JsonValue::array(orders)));
    proof {
        expected = expected.push(("orderBy"@, JsonModel::Array(request_orders_json(d))));
        lemma_member_models(members@);
        lemma_member_models(before);
        assert(member_models(members@) =~= expected);
    }
    if let Some(limit) = definition.limit {
        let ghost before = members@;
        members.push((owned("limit"), JsonValue::integer(limit as i64)));
        proof {
            expected = expected.push(("limit"@, JsonModel::Number(JsonNumber { as_i64: Some(limit as i64), as_f64: None })));
            lemma_member_models(members@);
            lemma_member_models(before);
            assert(member_models(members@) =~= expected);
        }
    }
    let (start_bound, end_bound) = if last_type {
        (&definition.end_at, &definition.start_at)
    } else {
        (&definition.start_at, &definition.end_at)
    };
    if let Some(start) = start_bound {
        let ghost before = members@;
        members.push((owned("startAt"), encode_start_cursor(start)));
        proof {
            expected = expected.push(("startAt"@, cursor_json(*start, start.inclusive)));
            lemma_member_models(members@);
            lemma_member_models(before);
            assert(member_models(members@) =~= expected);
        }
    }
    if let Some(end) = end_bound {
        let ghost before = members@;
        members.push((owned("endAt"), encode_end_cursor(end)));
        proof {
            expected = expected.push(("endAt"@, cursor_json(*end, !end.inclusive)));
            lemma_member_models(members@);
            lemma_member_models(before);
            assert(member_models(members@) =~= expected);
        }
    }
    assert(JsonModel::Object(expected) == structured_query_json(d));
    object_of(members)
}

/// The body of a query request: `{"structuredQuery": ..}`.
pub fn run_query_body(definition: &QueryDefinition) -> (r: JsonValue)
    ensures
        r@ == JsonModel::Object(seq![("structuredQuery"@, structured_query_json(*definition))]),
{
    crate::json::object1("structuredQuery", build_structured_query(definition))
}

/// One aggregation as JSON: its alias, then `"count": {}`, or `"sum"` or
/// `"avg"` with the field it reads.
pub open spec fn aggregation_json(a: AggregateDefinition) -> JsonModel {
    let op = match a.operation {
        AggregateOperation::Count => ("count"@, JsonModel::Object(Seq::empty())),
        AggregateOperation::Sum(f) => ("sum"@, JsonModel::Object(seq![("field"@, field_reference(f@))])),
        AggregateOperation::Average(f) => ("avg"@, JsonModel::Object(seq![("field"@, field_reference(f@))])),
    };
    JsonModel::Object(seq![("alias"@, json_text(a.alias@)), op])
}

/// The body of an aggregation request: the structured query of the
/// definition and the aggregations, in order.
pub open spec fn aggregation_body_json(d: QueryDefinition, aggregations: Seq<AggregateDefinition>) -> JsonModel {
    JsonModel::Object(
        seq![
            ("structuredAggregationQuery"@, JsonModel::Object(
                seq![
                    ("structuredQuery"@, structured_query_json(d)),
                    ("aggregations"@, JsonModel::Array(aggregations.map_values(|a: AggregateDefinition| aggregation_json(a)))),
                ],
            )),
        ],
    )
}

/// One aggregation as JSON; see [`aggregation_json`].
fn encode_aggregation(a: &AggregateDefinition) -> (r: JsonValue)
    ensures
        r@ == aggregation_json(*a),
{
    let alias = JsonValue::string(owned(a.alias()));
    let ghost av = alias@;
    let (name, body) = match a.operation() {
        AggregateOperation::Count => {
            let empty: Vec<(String, JsonValue)> = Vec::new();
            proof {
                lemma_member_models(empty@);
                assert(member_models(empty@) =~= Seq::<(Seq<char>, JsonModel)>::empty());
            }
            (owned("count"), object_of(empty))
        },
        AggregateOperation::Sum(f) => (owned("sum"), crate::json::object1("field", encode_field_reference(f))),
        AggregateOperation::Average(f) => (owned("avg"), crate::json::object1("field", encode_field_reference(f))),
    };
    proof {
        reveal_strlit("count");
        reveal_strlit("sum");
        reveal_strlit("avg");
    }
    let ghost op = (name@, body@);
    let mut members: Vec<(String, JsonValue)> = Vec::new();
    members.push((owned("alias"), alias));
    members.push((name, body));
    proof {
        lemma_member_models(members@);
        assert(member_models(members@) =~= seq![("alias"@, av), op]);
    }
    object_of(members)
}

/// The body of an aggregation request; see [`aggregation_body_json`].
pub fn build_aggregation_body(definition: &QueryDefinition, aggregations: &Vec<AggregateDefinition>) -> (r: JsonValue)
    ensures
        r@ == aggregation_body_json(*definition, aggregations@),
{
    let mut entries: Vec<JsonValue> = Vec::new();
    let mut i: usize = 0;
    proof {
        lemma_json_models(entries@);
        assert(json_models(entries@) =~= aggregations@.take(0).map_values(|a: AggregateDefinition| aggregation_json(a)));
    }
    while i < aggregations.len()
        invariant
            i <= aggregations@.len(),
            json_models(entries@) == aggregations@.take(i as int).map_values(|a: AggregateDefinition| aggregation_json(a)),
        decreases aggregations@.len() - i,
    {
        let e = encode_aggregation(&aggregations[i]);
        proof {
            lemma_json_models_push(entries@, e);
        }
        let ghost before = entries@;
        entries.push(e);
        proof {
            assert(aggregations@.take(i + 1).map_values(|a: AggregateDefinition| aggregation_json(a)) =~= aggregations@.take(
                i as int,
            ).map_values(|a: AggregateDefinition| aggregation_json(a)).push(aggregation_json(aggregations@[i as int])));
        }
        i = i + 1;
    }
    proof {
        assert(aggregations@.take(i as int) =~= aggregations@);
    }
    let query = build_structured_query(definition);
    let ghost (qv, ev) = (query@, json_models(entries@));
    let mut members: Vec<(String, JsonValue)> = Vec::new();
    members.push((owned("structuredQuery"), query));
    members.push((owned("aggregations"), JsonValue::array(entries)));
    proof {
        lemma_member_models(members@);
        assert(member_models(members@) =~= seq![("structuredQuery"@, qv), ("aggregations"@, JsonModel::Array(ev))]);
    }
    crate::json::object1("structuredAggregationQuery", object_of(members))
}

} // verus!
