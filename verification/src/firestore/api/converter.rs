//! Conversion between user models and Firestore maps.
use vstd::prelude::*;

use crate::firestore::error::FirestoreResult;
use crate::firestore::value::MapValue;

verus! {

/// How a user model converts to and from a Firestore map: writes use
/// `to_map`, reads use `from_map`.
pub trait FirestoreDataConverter: Sized {
    /// The model that reads give and writes take.
    type Model;

    /// Encodes a model as a map for a write.
    fn to_map(&self, value: &Self::Model) -> FirestoreResult<MapValue>;

    /// Decodes a map read from the store into a model.
    fn from_map(&self, value: &MapValue) -> FirestoreResult<Self::Model>;
}

/// The converter that leaves maps as they are.
#[derive(Clone, Copy, Debug, Default)]
pub struct PassthroughConverter;

impl FirestoreDataConverter for PassthroughConverter {
    type Model = MapValue;

    fn to_map(&self, value: &MapValue) -> (r: FirestoreResult<MapValue>)
        ensures
            r matches Ok(m) && m@ == value@,
    {
        Ok(value.clone())
    }

    fn from_map(&self, value: &MapValue) -> (r: FirestoreResult<MapValue>)
        ensures
            r matches Ok(m) && m@ == value@,
    {
        Ok(value.clone())
    }
}

} // verus!
