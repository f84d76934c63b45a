//! Resource paths, field paths, document keys and database identifiers.
pub mod database_id;
pub mod document_key;
pub mod field_path;
pub mod resource_path;

pub use database_id::DatabaseId;
pub use document_key::DocumentKey;
pub use field_path::{FieldPath, IntoFieldPath};
pub use resource_path::ResourcePath;
pub mod geo_point;
pub mod timestamp;

pub use geo_point::GeoPoint;
pub use timestamp::Timestamp;
