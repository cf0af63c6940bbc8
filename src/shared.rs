//! State of a storage shared by its transactions: the committed length and
//! the writer flag.
//!
//! Every store of the committed length uses release ordering and every load
//! acquire ordering, so a reader that sees a length also sees the bytes
//! written below it before it was published.
use crate::lock::{MutGuard, MutLock};
use crate::txn::{AppendState, ReadState};
use std::sync::atomic::{AtomicU64, Ordering};
use vstd::prelude::*;

verus! {

/// Committed length and writer flag of a storage.
pub struct SharedState {
    len: AtomicU64,
    writer: MutLock,
}

impl SharedState {
    /// State of a storage whose committed length is `len`, with no writer.
    pub fn new(len: u64) -> (r: SharedState) {
        SharedState { len: AtomicU64::new(len), writer: MutLock::new() }
    }

    /// The committed length.
    pub fn len(&self) -> (r: u64) {
        self.len.load(Ordering::Acquire)
    }

    /// Begin an append transaction at the committed length; `None` when
    /// another append transaction holds the writer flag. The flag stays taken
    /// until the returned guard is dropped.
    pub fn append_txn(&self) -> (r: Option<(MutGuard<'_>, AppendState)>)
        ensures
            match r {
                Some((_, s)) => s.wf() && s.spec_start() == s.spec_next() && !s.spec_complete(),
                None => true,
            },
    {
        let guard = match self.writer.try_lock() {
            Some(g) => g,
            None => return None,
        };
        let len = self.len.load(Ordering::Acquire);
        Some((guard, AppendState::begin(len)))
    }

    /// Begin a read transaction at `offset` on a snapshot of the committed
    /// length; `None` when nothing is committed at or after `offset`.
    pub fn read_txn(&self, offset: u64) -> (r: Option<ReadState>)
        ensures
            match r {
                Some(s) => offset < s.spec_snapshot() && s.spec_next() == offset,
                None => true,
            },
    {
        let len = self.len.load(Ordering::Acquire);
        ReadState::begin(offset, len)
    }

    /// Publish `len` as the committed length; only the holder of the writer
    /// flag may.
    pub fn publish(&self, len: u64, _writer: &MutGuard<'_>) {
        self.len.store(len, Ordering::Release);
    }

    /// Set the committed length while no transaction exists.
    pub fn reset(&mut self, len: u64) {
        self.len.store(len, Ordering::Release);
    }
}

} // verus!
