//! Aggregations a query can ask the server for.
use vstd::prelude::*;

use crate::firestore::model::FieldPath;

verus! {

/// What an aggregation computes over the documents of a query.
pub enum AggregateOperation {
    /// The number of documents.
    Count,
    /// The sum of a numeric field.
    Sum(FieldPath),
    /// The average of a numeric field.
    Average(FieldPath),
}

/// An aggregation under the alias its result is reported by.
pub struct AggregateDefinition {
    pub alias: String,
    pub operation: AggregateOperation,
}

impl AggregateDefinition {
    pub fn new(alias: String, operation: AggregateOperation) -> (a: Self)
        ensures
            a.alias@ == alias@,
            a.operation == operation,
    {
        AggregateDefinition { alias, operation }
    }

    /// The alias the result is reported by.
    pub fn alias(&self) -> (r: &str)
        ensures
            r@ == self.alias@,
    {
        self.alias.as_str()
    }

    /// What the aggregation computes.
    pub fn operation(&self) -> (r: &AggregateOperation)
        ensures
            *r == self.operation,
    {
        &self.operation
    }
}

} // verus!
