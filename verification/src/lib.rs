//! A log-structured key/value store.
//!
//! Keys and values are UTF-8 strings. The store keeps an append-only log of
//! records together with an in-memory index from each live key to the offset
//! of the most recent `Put` record for it. The log can be compacted so that
//! only one record per live key remains.

/// The error taxonomy shared by all operations, and the engine capability.
pub mod engine;
/// The record codec: log records as newline-terminated text frames.
pub mod codec;
/// The log-structured store and its replay model.
pub mod store;
/// The wire protocol between client and server.
pub mod proto;
/// The shared engine: cloneable handles over one store under a verified lock.
pub mod kvs_engine;
/// The server's dispatch decisions and the client's response handling.
pub mod server;
/// The thread-pool capability and the worker's polling decision.
pub mod thread_pool;

/// re-export
pub use engine::KvError;
pub use engine::KvsEngine;
pub use kvs_engine::KvStore;
pub use store::Store;
