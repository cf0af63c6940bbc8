//! An on-disk append-only log of sequenced records.
//!
//! A single writer appends byte payloads tagged with strictly increasing
//! sequence numbers; any number of readers observe a consistent snapshot of
//! what was committed. This crate holds the verified core: the record wire
//! format, the in-memory record buffer, the writer lock and the decisions of
//! append and read transactions.
pub mod buf;
pub mod lock;
pub mod log;
pub mod shared;
pub mod txn;
