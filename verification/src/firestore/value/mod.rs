//! Firestore field values.
pub mod number;
pub mod value;

pub use value::{ArrayValue, BytesValue, FirestoreValue, MapValue, ValueKind, ValueModel};
