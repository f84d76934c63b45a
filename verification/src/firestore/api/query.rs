//! Queries over a collection: filters, ordering, cursors and limits, and
//! the snapshots of their results, raw or read through a converter.
use vstd::prelude::*;

use std::sync::Arc;

use crate::firestore::api::converter::FirestoreDataConverter;
use crate::firestore::api::database::Firestore;
use crate::firestore::api::snapshot::{DocModel, DocumentSnapshot, TypedDocumentSnapshot};
use crate::firestore::error::{invalid_argument, FirestoreErrorCode, FirestoreResult};
use crate::firestore::model::{DocumentKey, FieldPath, ResourcePath};
use crate::firestore::value::FirestoreValue;

verus! {

/// Comparison operators of field filters.
#[derive(Clone, Copy, Debug, PartialEq, Eq, Structural)]
pub enum FilterOperator {
    LessThan,
    LessThanOrEqual,
    Equal,
    NotEqual,
    GreaterThanOrEqual,
    GreaterThan,
    ArrayContains,
    ArrayContainsAny,
    In,
    NotIn,
}

/// A condition on one field.
pub struct FieldFilter {
    pub field: FieldPath,
    pub operator: FilterOperator,
    pub value: FirestoreValue,
}

impl FieldFilter {
    pub fn new(field: FieldPath, operator: FilterOperator, value: FirestoreValue) -> (f: Self)
        ensures
            f.field == field,
            f.operator == operator,
            f.value == value,
    {
        FieldFilter { field, operator, value }
    }

    pub fn field(&self) -> (r: &FieldPath)
        ensures
            *r == self.field,
    {
        &self.field
    }

    pub fn operator(&self) -> (r: FilterOperator)
        ensures
            r == self.operator,
    {
        self.operator
    }

    pub fn value(&self) -> (r: &FirestoreValue)
        ensures
            *r == self.value,
    {
        &self.value
    }
}

/// Sort direction of an ordering.
#[derive(Clone, Copy, Debug, PartialEq, Eq, Structural)]
pub enum OrderDirection {
    Ascending,
    Descending,
}

/// Ordering by one field.
pub struct OrderBy {
    pub field: FieldPath,
    pub direction: OrderDirection,
}

impl OrderBy {
    pub fn new(field: FieldPath, direction: OrderDirection) -> (o: Self)
        ensures
            o.field == field,
            o.direction == direction,
    {
        OrderBy { field, direction }
    }

    pub fn field(&self) -> (r: &FieldPath)
        ensures
            *r == self.field,
    {
        &self.field
    }

    pub fn direction(&self) -> (r: OrderDirection)
        ensures
            r == self.direction,
    {
        self.direction
    }
}

/// A query cursor: values for the leading orderings, inclusive or not.
pub struct Bound {
    pub values: Vec<FirestoreValue>,
    pub inclusive: bool,
}

impl Bound {
    pub fn new(values: Vec<FirestoreValue>, inclusive: bool) -> (b: Self)
        ensures
            b.values == values,
            b.inclusive == inclusive,
    {
        Bound { values, inclusive }
    }

    pub fn values(&self) -> (r: &Vec<FirestoreValue>)
        ensures
            *r == self.values,
    {
        &self.values
    }

    pub fn inclusive(&self) -> (r: bool)
        ensures
            r == self.inclusive,
    {
        self.inclusive
    }
}

/// Whether a limit keeps the first or the last results.
#[derive(Clone, Copy, Debug, PartialEq, Eq, Structural)]
pub enum LimitType {
    First,
    Last,
}

/// Everything a query asks for.
pub struct QueryDefinition {
    pub collection_path: ResourcePath,
    pub filters: Vec<FieldFilter>,
    pub order_by: Vec<OrderBy>,
    pub start_at: Option<Bound>,
    pub end_at: Option<Bound>,
    pub limit: Option<u32>,
    pub limit_type: LimitType,
}

impl QueryDefinition {
    /// A definition that selects every document of the collection.
    pub fn new(collection_path: ResourcePath) -> (d: Self)
        ensures
            d.collection_path == collection_path,
            d.filters@.len() == 0,
            d.order_by@.len() == 0,
            d.start_at is None,
            d.end_at is None,
            d.limit is None,
            d.limit_type == LimitType::First,
    {
        QueryDefinition {
            collection_path,
            filters: Vec::new(),
            order_by: Vec::new(),
            start_at: None,
            end_at: None,
            limit: None,
            limit_type: LimitType::First,
        }
    }

    /// Whether the document lies directly in the queried collection.
    pub fn matches(&self, key: &DocumentKey) -> (b: bool)
        ensures
            b == (key@.drop_last() == self.collection_path@),
    {
        key.collection_path().equals(&self.collection_path)
    }

    pub fn filters(&self) -> (r: &Vec<FieldFilter>)
        ensures
            *r == self.filters,
    {
        &self.filters
    }

    /// The orderings that decide the order of results.
    pub fn result_order_by(&self) -> (r: &Vec<OrderBy>)
        ensures
            *r == self.order_by,
    {
        &self.order_by
    }

    pub fn result_start_at(&self) -> (r: Option<&Bound>)
        ensures
            match r {
                Some(b) => self.start_at == Some(*b),
                None => self.start_at is None,
            },
    {
        match &self.start_at {
            Some(b) => Some(b),
            None => None,
        }
    }

    pub fn result_end_at(&self) -> (r: Option<&Bound>)
        ensures
            match r {
                Some(b) => self.end_at == Some(*b),
                None => self.end_at is None,
            },
    {
        match &self.end_at {
            Some(b) => Some(b),
            None => None,
        }
    }

    pub fn limit(&self) -> (r: Option<u32>)
        ensures
            r == self.limit,
    {
        self.limit
    }

    pub fn limit_type(&self) -> (r: LimitType)
        ensures
            r == self.limit_type,
    {
        self.limit_type
    }
}

/// A query on one collection.
pub struct Query {
    firestore: Firestore,
    definition: QueryDefinition,
}

/// Two definitions read the same collection between the same cursors, with
/// the same limit.
pub open spec fn same_scope(a: QueryDefinition, b: QueryDefinition) -> bool {
    &&& a.collection_path == b.collection_path
    &&& a.start_at == b.start_at
    &&& a.end_at == b.end_at
    &&& a.limit == b.limit
    &&& a.limit_type == b.limit_type
}

/// Two definitions agree on everything but their cursors and limit.
pub open spec fn same_selection(a: QueryDefinition, b: QueryDefinition) -> bool {
    &&& a.collection_path == b.collection_path
    &&& a.filters == b.filters
    &&& a.order_by == b.order_by
}

impl Query {
    /// A query always names a collection: its path has an odd number of
    /// segments.
    #[verifier::type_invariant]
    spec fn names_collection(&self) -> bool {
        self.definition.collection_path@.len() % 2 == 1
    }

    /// A query selecting every document of the collection at `collection_path`;
    /// paths with an even number of segments do not name a collection and are
    /// refused.
    pub fn new(firestore: Firestore, collection_path: ResourcePath) -> (r: FirestoreResult<Self>)
        ensures
            match r {
                Ok(q) => collection_path@.len() % 2 == 1 && q.spec_firestore() == firestore
                    && q.spec_definition().collection_path == collection_path
                    && q.spec_definition().filters@.len() == 0 && q.spec_definition().order_by@.len() == 0
                    && q.spec_definition().start_at is None && q.spec_definition().end_at is None
                    && q.spec_definition().limit is None && q.spec_definition().limit_type == LimitType::First,
                Err(e) => collection_path@.len() % 2 == 0 && e.code
                    == FirestoreErrorCode::InvalidArgument,
            },
    {
        if collection_path.len() % 2 == 0 {
            return Err(
                invalid_argument("Queries must reference a collection (odd number of path segments)"),
            );
        }
        Ok(Query { firestore, definition: QueryDefinition::new(collection_path) })
    }

    /// The definition this query carries.
    pub closed spec fn spec_definition(&self) -> QueryDefinition {
        self.definition
    }

    /// The database this query runs against.
    pub closed spec fn spec_firestore(&self) -> Firestore {
        self.firestore
    }

    /// The database the query runs against.
    pub fn firestore(&self) -> (r: &Firestore)
        ensures
            *r == self.spec_firestore(),
    {
        &self.firestore
    }

    /// The path of the queried collection.
    pub fn collection_path(&self) -> (r: &ResourcePath)
        ensures
            *r == self.spec_definition().collection_path,
            r@.len() % 2 == 1,
    {
        proof {
            use_type_invariant(self);
        }
        &self.definition.collection_path
    }

    /// The identifier of the queried collection (its last segment).
    pub fn collection_id(&self) -> (r: &str)
        ensures
            self.spec_definition().collection_path@.len() % 2 == 1,
            r@ == self.spec_definition().collection_path@.last(),
    {
        proof {
            use_type_invariant(self);
        }
        match self.definition.collection_path.last_segment() {
            Some(s) => s,
            None => "",
        }
    }

    /// The query's definition.
    pub fn definition(&self) -> (r: &QueryDefinition)
        ensures
            *r == self.spec_definition(),
            r.collection_path@.len() % 2 == 1,
    {
        proof {
            use_type_invariant(self);
        }
        &self.definition
    }

    /// Adds a field filter.
    pub fn where_filter(self, filter: FieldFilter) -> (q: Self)
        ensures
            q.spec_firestore() == self.spec_firestore(),
            q.spec_definition().filters@ == self.spec_definition().filters@.push(filter),
            q.spec_definition().order_by == self.spec_definition().order_by,
            same_scope(q.spec_definition(), self.spec_definition()),
    {
        proof {
            use_type_invariant(&self);
        }
        let Query { firestore, mut definition } = self;
        definition.filters.push(filter);
        Query { firestore, definition }
    }

    /// Adds an ordering.
    pub fn order_by(self, field: FieldPath, direction: OrderDirection) -> (r: FirestoreResult<Self>)
        ensures
            r matches Ok(q) && q.spec_firestore() == self.spec_firestore() && q.spec_definition().order_by@
                == self.spec_definition().order_by@.push(OrderBy { field, direction })
                && q.spec_definition().filters == self.spec_definition().filters && same_scope(
                q.spec_definition(),
                self.spec_definition(),
            ),
    {
        proof {
            use_type_invariant(&self);
        }
        let Query { firestore, mut definition } = self;
        definition.order_by.push(OrderBy { field, direction });
        Ok(Query { firestore, definition })
    }

    /// Keeps at most `limit` results from the start; zero is refused.
    pub fn limit(self, limit: u32) -> (r: FirestoreResult<Self>)
        ensures
            match r {
                Ok(q) => limit > 0 && q.spec_firestore() == self.spec_firestore() && q.spec_definition().limit
                    == Some(limit) && q.spec_definition().limit_type == LimitType::First && same_selection(
                    q.spec_definition(),
                    self.spec_definition(),
                ) && q.spec_definition().start_at == self.spec_definition().start_at
                    && q.spec_definition().end_at == self.spec_definition().end_at,
                Err(e) => limit == 0 && e.code == FirestoreErrorCode::InvalidArgument,
            },
    {
        proof {
            use_type_invariant(&self);
        }
        if limit == 0 {
            return Err(invalid_argument("limit must be greater than zero"));
        }
        let Query { firestore, mut definition } = self;
        definition.limit = Some(limit);
        definition.limit_type = LimitType::First;
        Ok(Query { firestore, definition })
    }

    /// Keeps at most `limit` results from the end; zero is refused.
    pub fn limit_to_last(self, limit: u32) -> (r: FirestoreResult<Self>)
        ensures
            match r {
                Ok(q) => limit > 0 && q.spec_firestore() == self.spec_firestore() && q.spec_definition().limit
                    == Some(limit) && q.spec_definition().limit_type == LimitType::Last && same_selection(
                    q.spec_definition(),
                    self.spec_definition(),
                ) && q.spec_definition().start_at == self.spec_definition().start_at
                    && q.spec_definition().end_at == self.spec_definition().end_at,
                Err(e) => limit == 0 && e.code == FirestoreErrorCode::InvalidArgument,
            },
    {
        proof {
            use_type_invariant(&self);
        }
        if limit == 0 {
            return Err(invalid_argument("limit must be greater than zero"));
        }
        let Query { firestore, mut definition } = self;
        definition.limit = Some(limit);
        definition.limit_type = LimitType::Last;
        Ok(Query { firestore, definition })
    }

    /// Starts the results at a cursor.
    pub fn start_at(self, bound: Bound) -> (q: Self)
        ensures
            q.spec_firestore() == self.spec_firestore(),
            q.spec_definition().start_at == Some(bound),
            same_selection(q.spec_definition(), self.spec_definition()),
            q.spec_definition().end_at == self.spec_definition().end_at,
            q.spec_definition().limit == self.spec_definition().limit,
            q.spec_definition().limit_type == self.spec_definition().limit_type,
    {
        proof {
            use_type_invariant(&self);
        }
        let Query { firestore, mut definition } = self;
        definition.start_at = Some(bound);
        Query { firestore, definition }
    }

    /// Ends the results at a cursor.
    pub fn end_at(self, bound: Bound) -> (q: Self)
        ensures
            q.spec_firestore() == self.spec_firestore(),
            q.spec_definition().end_at == Some(bound),
            same_selection(q.spec_definition(), self.spec_definition()),
            q.spec_definition().start_at == self.spec_definition().start_at,
            q.spec_definition().limit == self.spec_definition().limit,
            q.spec_definition().limit_type == self.spec_definition().limit_type,
    {
        proof {
            use_type_invariant(&self);
        }
        let Query { firestore, mut definition } = self;
        definition.end_at = Some(bound);
        Query { firestore, definition }
    }
}

/// A query whose results are read through a converter.
pub struct ConvertedQuery<C: FirestoreDataConverter> {
    inner: Query,
    converter: Arc<C>,
}

impl<C: FirestoreDataConverter> ConvertedQuery<C> {
    /// The definition of the underlying query.
    pub closed spec fn raw_definition(&self) -> QueryDefinition {
        self.inner.spec_definition()
    }

    pub fn new(inner: Query, converter: Arc<C>) -> (q: Self)
        ensures
            q.raw_definition() == inner.spec_definition(),
            q.spec_converter() == converter,
    {
        ConvertedQuery { inner, converter }
    }

    /// The untyped query.
    pub fn raw(&self) -> (r: &Query)
        ensures
            r.spec_definition() == self.raw_definition(),
    {
        &self.inner
    }

    /// The converter this query reads through.
    pub closed spec fn spec_converter(&self) -> Arc<C> {
        self.converter
    }

    /// The converter.
    pub fn converter(&self) -> (r: &Arc<C>)
        ensures
            *r == self.spec_converter(),
    {
        &self.converter
    }
}

impl Query {
    /// This query read through `converter`.
    pub fn with_converter<C: FirestoreDataConverter>(self, converter: C) -> (q: ConvertedQuery<C>)
        ensures
            q.raw_definition() == self.spec_definition(),
    {
        ConvertedQuery::new(self, Arc::new(converter))
    }
}

/// The contents of a sequence of snapshots.
pub open spec fn snapshot_models(s: Seq<DocumentSnapshot>) -> Seq<DocModel> {
    s.map_values(|d: DocumentSnapshot| d@)
}

/// The results of a query.
pub struct QuerySnapshot {
    query: Query,
    documents: Vec<DocumentSnapshot>,
}

impl QuerySnapshot {
    /// The definition of the query that gave the results.
    pub closed spec fn query_definition(&self) -> QueryDefinition {
        self.query.spec_definition()
    }

    /// The results, in order.
    pub closed spec fn document_models(&self) -> Seq<DocModel> {
        snapshot_models(self.documents@)
    }

    pub fn new(query: Query, documents: Vec<DocumentSnapshot>) -> (s: Self)
        ensures
            s.query_definition() == query.spec_definition(),
            s.document_models() == snapshot_models(documents@),
    {
        QuerySnapshot { query, documents }
    }

    /// The query that gave the results.
    pub fn query(&self) -> (r: &Query)
        ensures
            r.spec_definition() == self.query_definition(),
    {
        &self.query
    }

    /// The results, in order.
    pub fn documents(&self) -> (r: &Vec<DocumentSnapshot>)
        ensures
            snapshot_models(r@) == self.document_models(),
    {
        &self.documents
    }

    /// Whether there are no results.
    pub fn is_empty(&self) -> (b: bool)
        ensures
            b == (self.document_models().len() == 0),
    {
        self.documents.len() == 0
    }

    /// The number of results.
    pub fn len(&self) -> (n: usize)
        ensures
            n == self.document_models().len(),
    {
        self.documents.len()
    }

    /// The results, taken out of the snapshot.
    pub fn into_documents(self) -> (r: Vec<DocumentSnapshot>)
        ensures
            snapshot_models(r@) == self.document_models(),
    {
        self.documents
    }
}

/// The results of a query read through a converter.
pub struct TypedQuerySnapshot<C: FirestoreDataConverter> {
    base: QuerySnapshot,
    converter: Arc<C>,
}

impl<C: FirestoreDataConverter> TypedQuerySnapshot<C> {
    /// The results of the underlying snapshot.
    pub closed spec fn raw_models(&self) -> Seq<DocModel> {
        self.base.document_models()
    }

    pub fn new(base: QuerySnapshot, converter: Arc<C>) -> (t: Self)
        ensures
            t.raw_models() == base.document_models(),
    {
        TypedQuerySnapshot { base, converter }
    }

    /// The untyped snapshot.
    pub fn raw(&self) -> (r: &QuerySnapshot)
        ensures
            r.document_models() == self.raw_models(),
    {
        &self.base
    }

    /// Each result read through the converter, in order.
    pub fn documents(&self) -> (r: Vec<TypedDocumentSnapshot<C>>)
        ensures
            r@.len() == self.raw_models().len(),
            forall|i: int| 0 <= i < r@.len() ==> (#[trigger] r@[i]).raw_view() == self.raw_models()[i],
    {
        let docs = self.base.documents();
        let mut out: Vec<TypedDocumentSnapshot<C>> = Vec::new();
        let mut i: usize = 0;
        while i < docs.len()
            invariant
                i <= docs@.len(),
                snapshot_models(docs@) == self.raw_models(),
                out@.len() == i,
                forall|j: int| 0 <= j < i ==> (#[trigger] out@[j]).raw_view() == docs@[j]@,
            decreases docs@.len() - i,
        {
            let converter = self.converter.clone();
            out.push(docs[i].to_typed(converter));
            i = i + 1;
        }
        out
    }

    /// Each result read through the converter, in order, taken out of the
    /// snapshot.
    pub fn into_documents(self) -> (r: Vec<TypedDocumentSnapshot<C>>)
        ensures
            r@.len() == self.raw_models().len(),
            forall|i: int| 0 <= i < r@.len() ==> (#[trigger] r@[i]).raw_view() == self.raw_models()[i],
    {
        let TypedQuerySnapshot { base, converter } = self;
        let docs = base.into_documents();
        let ghost models = snapshot_models(docs@);
        let mut out: Vec<TypedDocumentSnapshot<C>> = Vec::new();
        let mut rest = docs;
        let mut i: usize = 0;
        let n = rest.len();
        while i < n
            invariant
                n == models.len(),
                i <= n,
                rest@.len() == n - i,
                forall|j: int| 0 <= j < rest@.len() ==> (#[trigger] rest@[j])@ == models[i + j],
                out@.len() == i,
                forall|j: int| 0 <= j < i ==> (#[trigger] out@[j]).raw_view() == models[j],
            decreases n - i,
        {
            let d = rest.remove(0);
            out.push(d.into_typed(converter.clone()));
            i = i + 1;
        }
        out
    }
}

} // verus!
