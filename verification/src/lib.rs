//! An in-memory key-value store with string and list values, per-key
//! time-to-live expiration, and snapshot persistence of the live entries.
//!
//! The engine is purely functional over explicit clock readings: every
//! operation that depends on time takes the current monotonic reading, in
//! whole seconds, as an argument, so the engine is verified for every
//! clock value. The surrounding process supplies real clock readings, the
//! locking, the network transport, and the snapshot file I/O; the three
//! persistence commands come back to it as [`command::Outcome`] actions.

pub mod bytes;
pub mod command;
pub mod laws;
pub mod num;
pub mod resp;
pub mod snapshot;
pub mod store;
pub mod tokenize;
pub mod value;

pub use command::Outcome;
pub use command::process_line;
pub use command::process_tokens;
pub use resp::Resp;
pub use resp::render;
pub use snapshot::SnapshotEntry;
pub use snapshot::load_snapshot;
pub use snapshot::snapshot;
pub use store::Store;
pub use value::Entry;
pub use value::Value;
