//! A persisted task-tracking record store.
//!
//! Callers create, read, update, complete, and delete task records. Each
//! record is owned by the identity that created it; only the owner may
//! mutate or delete it. Records carry an optional deadline, and completing
//! a record strictly after its deadline marks it as completed late.
//!
//! The store keeps its state in two durable regions: a counter that mints
//! unique record ids, and a table from id to a bounded byte encoding of the
//! record. The encoding, the lifecycle rules, the authorization check and
//! the lateness rule are all verified; the durable containers themselves
//! are trusted at their boundary.

pub mod codec;
pub mod record;
pub mod service;
pub mod storage;

pub use record::Error;
pub use record::Payload;
pub use record::Record;
pub use service::Store;
