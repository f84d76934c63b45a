//! The pure parts of the remote store: wire formats, writes and error mapping.
pub mod datastore;
pub mod http;
pub mod in_memory;
pub mod listen;
pub mod mutation;
pub mod persistent;
pub mod remote_event;
pub mod rpc_error;
pub mod serializer;
pub mod stream;
pub mod syncer_bridge;
pub mod write;
