//! The local store: target metadata, the documents in limbo, pending writes
//! laid over known documents, and the records in which they persist.
pub mod key_map;
pub mod memory;
pub mod overlay;
pub mod persistence;
