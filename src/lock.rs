//! A lock for exclusive writers that never waits.
use std::sync::atomic::{AtomicBool, Ordering};
use vstd::prelude::*;

verus! {

/// An exclusive lock: at most one guard exists at a time.
pub struct MutLock(AtomicBool);

impl MutLock {
    /// Create a new, unlocked lock.
    pub fn new() -> (r: MutLock) {
        MutLock(AtomicBool::new(false))
    }

    /// Try to take the lock without waiting.
    ///
    /// Returns `None` when another guard holds it. The flag is taken with
    /// acquire ordering and released, when the guard is dropped, with
    /// release ordering.
    pub fn try_lock(&self) -> (r: Option<MutGuard<'_>>) {
        if self.0.swap(true, Ordering::Acquire) {
            return None;
        }
        Some(MutGuard(&self.0))
    }
}

impl Default for MutLock {
    fn default() -> (r: MutLock) {
        MutLock::new()
    }
}

/// Relies on `AtomicBool::store`, which panics only for `Acquire` and
/// `AcqRel` orderings: with `Release` it returns normally and opens no
/// invariant.
#[verifier::external_body]
fn release(flag: &AtomicBool)
    opens_invariants none
    no_unwind
{
    flag.store(false, Ordering::Release)
}

/// Holds the lock until it is dropped.
pub struct MutGuard<'a>(&'a AtomicBool);

impl<'a> Drop for MutGuard<'a> {
    fn drop(&mut self)
        opens_invariants none
        no_unwind
    {
        release(self.0);
    }
}

} // verus!
