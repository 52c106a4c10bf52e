//! The operation log that replicas share: timestamps and the pure part of
//! history replay and checkpointing.
pub mod timestamp;
pub mod history;
pub mod sort;
pub mod sync;
pub mod checkpoint;
