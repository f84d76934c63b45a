use firebase_rs_sdk::firestore::api::query::{
    Bound, FieldFilter, FilterOperator, LimitType, OrderBy, OrderDirection, QueryDefinition,
};
use firebase_rs_sdk::firestore::model::{DatabaseId, FieldPath, ResourcePath};
use firebase_rs_sdk::firestore::api::aggregate::{AggregateDefinition, AggregateOperation};
use firebase_rs_sdk::firestore::remote::http::{
    build_aggregation_body, build_structured_query, encode_filters, run_query_body,
};
use firebase_rs_sdk::firestore::remote::listen::{encode_watch_request, ListenTarget, TargetPayload};
use firebase_rs_sdk::firestore::remote::serializer::JsonProtoSerializer;
use firebase_rs_sdk::firestore::value::FirestoreValue;
use firebase_rs_sdk::json::JsonValue;

fn path(s: &str) -> FieldPath {
    FieldPath::from_dot_separated(s).unwrap()
}

fn cities() -> QueryDefinition {
    QueryDefinition::new(ResourcePath::from_string("cities").unwrap())
}

fn text_at<'a>(v: &'a JsonValue, keys: &[&str]) -> Option<&'a str> {
    let mut cur = v;
    for k in keys {
        cur = cur.get(k)?;
    }
    cur.as_str()
}

#[test]
fn structured_query_names_the_collection() {
    let q = build_structured_query(&cities());
    let from = q.get("from").unwrap().as_array().unwrap();
    assert_eq!(from.len(), 1);
    assert_eq!(text_at(&from[0], &["collectionId"]), Some("cities"));
    assert!(matches!(from[0].get("allDescendants"), Some(JsonValue::Bool(false))));
    assert!(q.get("where").is_none());
    let orders = q.get("orderBy").unwrap().as_array().unwrap();
    assert_eq!(orders.len(), 1);
    assert_eq!(text_at(&orders[0], &["field", "fieldPath"]), Some("__name__"));
    assert_eq!(text_at(&orders[0], &["direction"]), Some("ASCENDING"));
    assert!(q.get("limit").is_none());
    assert!(q.get("startAt").is_none());
    assert!(q.get("endAt").is_none());
}

#[test]
fn single_filter_is_a_field_filter() {
    let filters = vec![FieldFilter::new(path("population"), FilterOperator::GreaterThan, FirestoreValue::from_integer(5))];
    let f = encode_filters(&filters);
    assert_eq!(text_at(&f, &["fieldFilter", "field", "fieldPath"]), Some("population"));
    assert_eq!(text_at(&f, &["fieldFilter", "op"]), Some("GREATER_THAN"));
    assert_eq!(text_at(&f, &["fieldFilter", "value", "integerValue"]), Some("5"));
}

#[test]
fn several_filters_are_joined_by_and() {
    let filters = vec![
        FieldFilter::new(path("state"), FilterOperator::Equal, FirestoreValue::from_string("CA".to_string())),
        FieldFilter::new(path("tags"), FilterOperator::ArrayContains, FirestoreValue::from_string("west".to_string())),
    ];
    let f = encode_filters(&filters);
    assert_eq!(text_at(&f, &["compositeFilter", "op"]), Some("AND"));
    let nested = f.get("compositeFilter").unwrap().get("filters").unwrap().as_array().unwrap();
    assert_eq!(nested.len(), 2);
    assert_eq!(text_at(&nested[0], &["fieldFilter", "op"]), Some("EQUAL"));
    assert_eq!(text_at(&nested[1], &["fieldFilter", "op"]), Some("ARRAY_CONTAINS"));
}

#[test]
fn orderings_limit_and_cursors_are_encoded() {
    let mut def = cities();
    def.order_by.push(OrderBy::new(path("population"), OrderDirection::Descending));
    def.limit = Some(3);
    def.limit_type = LimitType::First;
    def.start_at = Some(Bound::new(vec![FirestoreValue::from_integer(10)], true));
    def.end_at = Some(Bound::new(vec![FirestoreValue::from_integer(1)], true));
    let q = build_structured_query(&def);
    let orders = q.get("orderBy").unwrap().as_array().unwrap();
    assert_eq!(text_at(&orders[0], &["field", "fieldPath"]), Some("population"));
    assert_eq!(text_at(&orders[0], &["direction"]), Some("DESCENDING"));
    assert_eq!(orders.len(), 2);
    assert_eq!(text_at(&orders[1], &["field", "fieldPath"]), Some("__name__"));
    assert_eq!(text_at(&orders[1], &["direction"]), Some("DESCENDING"));
    assert_eq!(q.get("limit").unwrap().as_i64(), Some(3));
    assert!(matches!(q.get("startAt").unwrap().get("before"), Some(JsonValue::Bool(true))));
    assert!(matches!(q.get("endAt").unwrap().get("before"), Some(JsonValue::Bool(false))));
    let start_values = q.get("startAt").unwrap().get("values").unwrap().as_array().unwrap();
    assert_eq!(text_at(&start_values[0], &["integerValue"]), Some("10"));
}

#[test]
fn filter_operator_wire_names() {
    assert_eq!(FilterOperator::LessThanOrEqual.as_str(), "LESS_THAN_OR_EQUAL");
    assert_eq!(FilterOperator::NotIn.as_str(), "NOT_IN");
    assert_eq!(FilterOperator::ArrayContainsAny.as_str(), "ARRAY_CONTAINS_ANY");
    assert_eq!(OrderDirection::Ascending.as_str(), "ASCENDING");
}

#[test]
fn query_body_wraps_the_structured_query() {
    let body = run_query_body(&cities());
    let from = body.get("structuredQuery").unwrap().get("from").unwrap().as_array().unwrap();
    assert_eq!(text_at(&from[0], &["collectionId"]), Some("cities"));
}

fn serializer() -> JsonProtoSerializer {
    JsonProtoSerializer::new(DatabaseId::new("test", "(default)"))
}

#[test]
fn listen_target_for_query_names_parent_and_query() {
    let target = ListenTarget::for_query(&serializer(), 1, &cities()).unwrap();
    assert_eq!(target.target_id(), 1);
    assert!(target.resume_token().is_none());
    match target.payload() {
        TargetPayload::Query { parent, structured_query } => {
            assert_eq!(parent, "projects/test/databases/(default)/documents");
            let from = structured_query.get("from").unwrap().as_array().unwrap();
            assert_eq!(text_at(&from[0], &["collectionId"]), Some("cities"));
        }
        TargetPayload::Documents { .. } => panic!("expected a query payload"),
    }
    let nested = QueryDefinition::new(ResourcePath::from_string("rooms/a/messages").unwrap());
    let target = ListenTarget::for_query(&serializer(), 2, &nested).unwrap();
    match target.payload() {
        TargetPayload::Query { parent, .. } => {
            assert_eq!(parent, "projects/test/databases/(default)/documents/rooms/a");
        }
        TargetPayload::Documents { .. } => panic!("expected a query payload"),
    }
}

#[test]
fn watch_request_carries_target_token_and_labels() {
    let target = ListenTarget::for_query(&serializer(), 7, &cities())
        .unwrap()
        .set_resume_token(vec![1, 2, 3])
        .set_once(true)
        .set_labels(vec![("goog-listen-tags".to_string(), "existence-filter-mismatch".to_string())]);
    let request = encode_watch_request(&serializer(), &target);
    assert_eq!(text_at(&request, &["database"]), Some("projects/test/databases/(default)"));
    let add = request.get("addTarget").unwrap();
    assert_eq!(add.get("targetId").unwrap().as_i64(), Some(7));
    assert!(matches!(add.get("once"), Some(JsonValue::Bool(true))));
    assert_eq!(text_at(add, &["resumeToken"]), Some("AQID"));
    assert_eq!(text_at(add, &["query", "parent"]), Some("projects/test/databases/(default)/documents"));
    assert_eq!(text_at(&request, &["labels", "goog-listen-tags"]), Some("existence-filter-mismatch"));

    let plain = ListenTarget::for_query(&serializer(), 8, &cities()).unwrap();
    let request = encode_watch_request(&serializer(), &plain);
    let add = request.get("addTarget").unwrap();
    assert!(add.get("once").is_none());
    assert!(add.get("resumeToken").is_none());
    assert!(request.get("labels").is_none());
}

#[test]
fn aggregation_body_lists_each_aggregation_after_the_query() {
    let aggregations = vec![
        AggregateDefinition::new("total".to_string(), AggregateOperation::Count),
        AggregateDefinition::new("people".to_string(), AggregateOperation::Sum(path("population"))),
        AggregateDefinition::new("mean".to_string(), AggregateOperation::Average(path("stats.age"))),
    ];
    let body = build_aggregation_body(&cities(), &aggregations);
    let query = body.get("structuredAggregationQuery").unwrap();
    let from = query.get("structuredQuery").unwrap().get("from").unwrap().as_array().unwrap();
    assert_eq!(text_at(&from[0], &["collectionId"]), Some("cities"));
    let entries = query.get("aggregations").unwrap().as_array().unwrap();
    assert_eq!(entries.len(), 3);
    assert_eq!(text_at(&entries[0], &["alias"]), Some("total"));
    assert!(entries[0].get("count").unwrap().as_object().unwrap().is_empty());
    assert_eq!(text_at(&entries[1], &["alias"]), Some("people"));
    assert_eq!(text_at(&entries[1], &["sum", "field", "fieldPath"]), Some("population"));
    assert_eq!(text_at(&entries[2], &["alias"]), Some("mean"));
    assert_eq!(text_at(&entries[2], &["avg", "field", "fieldPath"]), Some("stats.age"));
    assert!(entries[2].get("sum").is_none());
}

#[test]
fn limit_to_last_is_asked_from_the_other_end() {
    let mut def = cities();
    def.order_by.push(OrderBy::new(path("population"), OrderDirection::Ascending));
    def.limit = Some(2);
    def.limit_type = LimitType::Last;
    def.start_at = Some(Bound::new(vec![FirestoreValue::from_integer(10)], true));
    def.end_at = Some(Bound::new(vec![FirestoreValue::from_integer(90)], false));
    let q = build_structured_query(&def);
    let orders = q.get("orderBy").unwrap().as_array().unwrap();
    assert_eq!(orders.len(), 2);
    assert_eq!(text_at(&orders[0], &["direction"]), Some("DESCENDING"));
    assert_eq!(text_at(&orders[1], &["field", "fieldPath"]), Some("__name__"));
    assert_eq!(text_at(&orders[1], &["direction"]), Some("DESCENDING"));
    let start_values = q.get("startAt").unwrap().get("values").unwrap().as_array().unwrap();
    assert_eq!(text_at(&start_values[0], &["integerValue"]), Some("90"));
    assert!(matches!(q.get("startAt").unwrap().get("before"), Some(JsonValue::Bool(false))));
    let end_values = q.get("endAt").unwrap().get("values").unwrap().as_array().unwrap();
    assert_eq!(text_at(&end_values[0], &["integerValue"]), Some("10"));
    assert!(matches!(q.get("endAt").unwrap().get("before"), Some(JsonValue::Bool(false))));
}

#[test]
fn ordering_by_name_adds_no_second_name_ordering() {
    let mut def = cities();
    def.order_by.push(OrderBy::new(FieldPath::document_id(), OrderDirection::Descending));
    let q = build_structured_query(&def);
    let orders = q.get("orderBy").unwrap().as_array().unwrap();
    assert_eq!(orders.len(), 1);
    assert_eq!(text_at(&orders[0], &["direction"]), Some("DESCENDING"));
}
