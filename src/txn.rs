//! Decisions of a storage's append and read transactions.
//!
//! A storage is a file and a committed length `len`. Bytes at `[len, ..)` of
//! the file are uncommitted and never read. An append transaction writes past
//! `len` and publishes its end as the new `len` on commit; a read transaction
//! reads below the `len` it saw when it began. The types here hold the
//! offsets and decide each step; the caller performs the file operation that
//! a step names.
use vstd::prelude::*;

verus! {

/// Why a read transaction refused a read.
#[derive(Debug, Clone, Copy, PartialEq, Eq, Structural)]
pub enum ReadError {
    /// Fewer bytes are left in the snapshot than the read asks for.
    UnexpectedEof,
}

/// What committing an append transaction takes.
#[derive(Debug, Clone, Copy, PartialEq, Eq, Structural)]
pub enum CommitStep {
    /// Nothing was written: there is nothing to publish.
    Skip,
    /// Sync the file's data when `sync` is set, then publish `len` as the
    /// committed length.
    Publish { sync: bool, len: u64 },
}

/// The step that commits the bytes `[start, next)`.
pub open spec fn commit_of(start: u64, next: u64, flush: bool) -> CommitStep {
    if start == next {
        CommitStep::Skip
    } else {
        CommitStep::Publish { sync: flush, len: next }
    }
}

/// The length to cut the file back to when a transaction that wrote
/// `[start, next)` ends without commit.
pub open spec fn rollback_of(start: u64, next: u64, complete: bool) -> Option<u64> {
    if !complete && next > start {
        Some(start)
    } else {
        None
    }
}

/// The state of an append transaction: where it began and where its next
/// byte goes.
pub struct AppendState {
    start: u64,
    next: u64,
    complete: bool,
}

impl AppendState {
    /// Committed length when the transaction began.
    pub closed spec fn spec_start(&self) -> u64 {
        self.start
    }

    /// Offset of the next byte to write.
    pub closed spec fn spec_next(&self) -> u64 {
        self.next
    }

    /// Whether the transaction was committed or aborted.
    pub closed spec fn spec_complete(&self) -> bool {
        self.complete
    }

    /// Writes never go below the start.
    pub open spec fn wf(&self) -> bool {
        self.spec_start() <= self.spec_next()
    }

    /// Begin a transaction on a storage whose committed length is `len`.
    pub fn begin(len: u64) -> (r: AppendState)
        ensures
            r.wf(),
            r.spec_start() == len,
            r.spec_next() == len,
            !r.spec_complete(),
    {
        AppendState { start: len, next: len, complete: false }
    }

    /// Committed length when the transaction began.
    pub fn start(&self) -> (r: u64)
        ensures
            r == self.spec_start(),
    {
        self.start
    }

    /// Offset of the next byte to write.
    pub fn next(&self) -> (r: u64)
        ensures
            r == self.spec_next(),
    {
        self.next
    }

    /// Make room for `n` more bytes; returns the offset to write them at, or
    /// `None`, with nothing changed, when the end would pass `u64::MAX`.
    pub fn append(&mut self, n: usize) -> (r: Option<u64>)
        requires
            old(self).wf(),
        ensures
            final(self).wf(),
            final(self).spec_start() == old(self).spec_start(),
            final(self).spec_complete() == old(self).spec_complete(),
            match r {
                Some(offset) => offset == old(self).spec_next() && final(self).spec_next()
                    == old(self).spec_next() + n,
                None => old(self).spec_next() + n > u64::MAX && final(self).spec_next() == old(
                    self,
                ).spec_next(),
            },
    {
        if n as u64 > u64::MAX - self.next {
            return None;
        }
        let offset = self.next;
        self.next = self.next + n as u64;
        Some(offset)
    }

    /// What committing takes: nothing when no byte was written, else an
    /// optional sync and the publication of the end as committed length.
    pub fn commit_step(&self, flush: bool) -> (r: CommitStep)
        ensures
            r == commit_of(self.spec_start(), self.spec_next(), flush),
    {
        if self.start == self.next {
            CommitStep::Skip
        } else {
            CommitStep::Publish { sync: flush, len: self.next }
        }
    }

    /// The length to cut the file back to if the transaction ends now without
    /// commit: its start, when it wrote anything and is not yet complete.
    pub fn rollback_target(&self) -> (r: Option<u64>)
        ensures
            r == rollback_of(self.spec_start(), self.spec_next(), self.spec_complete()),
    {
        if !self.complete && self.next > self.start {
            Some(self.start)
        } else {
            None
        }
    }

    /// Mark the transaction committed or aborted: nothing is rolled back
    /// after this.
    pub fn finish(&mut self)
        ensures
            final(self).spec_start() == old(self).spec_start(),
            final(self).spec_next() == old(self).spec_next(),
            final(self).spec_complete(),
    {
        self.complete = true;
    }
}

/// The state of a read transaction: the committed length it saw when it
/// began, and the offset of its next byte.
pub struct ReadState {
    snapshot: u64,
    next: u64,
}

impl ReadState {
    /// Committed length when the transaction began.
    pub closed spec fn spec_snapshot(&self) -> u64 {
        self.snapshot
    }

    /// Offset of the next byte to read.
    pub closed spec fn spec_next(&self) -> u64 {
        self.next
    }

    /// Bytes left to read in the snapshot.
    pub open spec fn spec_remaining(&self) -> nat {
        if self.spec_next() <= self.spec_snapshot() {
            (self.spec_snapshot() - self.spec_next()) as nat
        } else {
            0
        }
    }

    /// Begin reading at `offset` a storage whose committed length is `len`;
    /// `None` when nothing is committed at or after `offset`.
    pub fn begin(offset: u64, len: u64) -> (r: Option<ReadState>)
        ensures
            match r {
                Some(s) => offset < len && s.spec_snapshot() == len && s.spec_next() == offset,
                None => offset >= len,
            },
    {
        if offset >= len {
            None
        } else {
            Some(ReadState { snapshot: len, next: offset })
        }
    }

    /// Committed length when the transaction began.
    pub fn snapshot(&self) -> (r: u64)
        ensures
            r == self.spec_snapshot(),
    {
        self.snapshot
    }

    /// Offset of the next byte to read.
    pub fn next(&self) -> (r: u64)
        ensures
            r == self.spec_next(),
    {
        self.next
    }

    /// Bytes left to read in the snapshot, zero when none are.
    pub fn remaining(&self) -> (r: u64)
        ensures
            r == self.spec_remaining(),
    {
        self.snapshot.saturating_sub(self.next)
    }

    /// How many bytes a read into a buffer of `buf_len` bytes may take: the
    /// buffer's length, cut to what is left in the snapshot.
    pub fn read_len(&self, buf_len: usize) -> (r: usize)
        ensures
            r == if buf_len <= self.spec_remaining() {
                buf_len as nat
            } else {
                self.spec_remaining()
            },
    {
        let remaining = self.remaining();
        if buf_len as u64 <= remaining {
            buf_len
        } else {
            remaining as usize
        }
    }

    /// The offset to read exactly `buf_len` bytes at, or
    /// `ReadError::UnexpectedEof` when fewer are left in the snapshot.
    pub fn exact_offset(&self, buf_len: usize) -> (r: Result<u64, ReadError>)
        ensures
            match r {
                Ok(offset) => buf_len <= self.spec_remaining() && offset == self.spec_next(),
                Err(e) => buf_len > self.spec_remaining() && e == ReadError::UnexpectedEof,
            },
    {
        if (buf_len as u64) > self.remaining() {
            Err(ReadError::UnexpectedEof)
        } else {
            Ok(self.next)
        }
    }

    /// Move past `n` bytes that were read.
    pub fn advance(&mut self, n: usize)
        requires
            n <= old(self).spec_remaining(),
        ensures
            final(self).spec_snapshot() == old(self).spec_snapshot(),
            final(self).spec_next() == old(self).spec_next() + n,
    {
        self.next = self.next + n as u64;
    }

    /// End the transaction; returns where the next read would have started.
    pub fn commit(self) -> (r: u64)
        ensures
            r == self.spec_next(),
    {
        self.next
    }
}

/// The length to cut the file to when a storage of committed length `len`
/// is truncated to `new_len`: none when `new_len` would not shorten it.
pub fn truncate_target(new_len: u64, len: u64) -> (r: Option<u64>)
    ensures
        r == (if new_len < len {
            Some(new_len)
        } else {
            None
        }),
{
    if new_len < len {
        Some(new_len)
    } else {
        None
    }
}

/// The length to cut the file to when a storage of committed length `len`,
/// whose file holds `file_len` bytes, is closed: `len`, when bytes past it
/// were left by transactions that did not commit.
pub open spec fn close_of(file_len: u64, len: u64) -> Option<u64> {
    if file_len > len {
        Some(len)
    } else {
        None
    }
}

/// See [`close_of`].
pub fn close_target(file_len: u64, len: u64) -> (r: Option<u64>)
    ensures
        r == close_of(file_len, len),
{
    if file_len > len {
        Some(len)
    } else {
        None
    }
}

/// A model of a storage as plain values: its committed length and the length
/// of its file.
pub struct Disk {
    pub len: nat,
    pub file_len: nat,
}

/// Sum of `sizes`.
pub open spec fn total(sizes: Seq<nat>) -> nat
    decreases sizes.len(),
{
    if sizes.len() == 0 {
        0
    } else {
        total(sizes.drop_last()) + sizes.last()
    }
}

/// Length of a file of `file_len` bytes after it is cut to `target`, if any.
pub open spec fn cut(file_len: nat, target: Option<u64>) -> nat {
    match target {
        Some(t) => t as nat,
        None => file_len,
    }
}

/// Length of a file of `file_len` bytes after `n` bytes are written at
/// `offset`.
pub open spec fn written(file_len: nat, offset: nat, n: nat) -> nat {
    if n == 0 || offset + n <= file_len {
        file_len
    } else {
        offset + n
    }
}

/// The storage after one append transaction that appends `sizes` bytes, one
/// call after another, and then commits (when `commit`) or is aborted or
/// dropped.
pub open spec fn run_append(d: Disk, sizes: Seq<nat>, commit: bool, flush: bool) -> Disk {
    let start = d.len as u64;
    let next = (d.len + total(sizes)) as u64;
    let file_len = written(d.file_len, d.len, total(sizes));
    if commit {
        Disk {
            len: match commit_of(start, next, flush) {
                CommitStep::Skip => d.len,
                CommitStep::Publish { len, .. } => len as nat,
            },
            file_len,
        }
    } else {
        Disk { len: d.len, file_len: cut(file_len, rollback_of(start, next, false)) }
    }
}

/// Bytes appended by all the transactions of `runs`.
pub open spec fn appended(runs: Seq<(Seq<nat>, bool)>) -> nat
    decreases runs.len(),
{
    if runs.len() == 0 {
        0
    } else {
        appended(runs.drop_last()) + total(runs.last().0)
    }
}

/// Bytes appended by the committed transactions of `runs`.
pub open spec fn committed(runs: Seq<(Seq<nat>, bool)>) -> nat
    decreases runs.len(),
{
    if runs.len() == 0 {
        0
    } else {
        committed(runs.drop_last()) + if runs.last().1 {
            total(runs.last().0)
        } else {
            0
        }
    }
}

/// The storage after the append transactions of `runs`, one after another.
pub open spec fn run_session(d: Disk, runs: Seq<(Seq<nat>, bool)>) -> Disk
    decreases runs.len(),
{
    if runs.len() == 0 {
        d
    } else {
        let r = runs.last();
        run_append(run_session(d, runs.drop_last()), r.0, r.1, false)
    }
}

/// Length of the file of a storage after it is closed.
pub open spec fn closed_file_len(d: Disk) -> nat {
    cut(d.file_len, close_of(d.file_len as u64, d.len as u64))
}

/// Closing a storage whose file holds at least its committed bytes leaves a
/// file of exactly the committed length.
pub proof fn lemma_close_reconciles(file_len: u64, len: u64)
    requires
        len <= file_len,
    ensures
        cut(file_len as nat, close_of(file_len, len)) == len,
{
}

/// Durability, in the model of `run_session`: a storage created empty, given
/// append transactions one after another and then closed, leaves a modelled
/// file whose length, which opening it takes as committed length, is the sum
/// of the committed transactions' bytes. The model composes the steps that
/// `commit_of`, `rollback_of` and `close_of` decide with the file lengths
/// that `written` and `cut` give.
pub proof fn lemma_session_durable(runs: Seq<(Seq<nat>, bool)>)
    requires
        appended(runs) <= u64::MAX,
    ensures
        run_session(Disk { len: 0, file_len: 0 }, runs).len == committed(runs),
        closed_file_len(run_session(Disk { len: 0, file_len: 0 }, runs)) == committed(runs),
{
    lemma_session_steps(runs);
}

proof fn lemma_session_steps(runs: Seq<(Seq<nat>, bool)>)
    requires
        appended(runs) <= u64::MAX,
    ensures
        run_session(Disk { len: 0, file_len: 0 }, runs).len == committed(runs),
        run_session(Disk { len: 0, file_len: 0 }, runs).file_len == committed(runs),
        committed(runs) <= appended(runs),
    decreases runs.len(),
{
    if runs.len() > 0 {
        lemma_session_steps(runs.drop_last());
    }
}

/// In the model of `run_append`: a transaction that wrote bytes and ended
/// without commit leaves the committed length as it was, cuts the modelled
/// file back to it, and so leaves none of its bytes where a read may begin.
pub proof fn lemma_abort_rolls_back(d: Disk, sizes: Seq<nat>, offset: nat)
    requires
        d.len <= d.file_len,
        d.len + total(sizes) <= u64::MAX,
        total(sizes) > 0,
        d.len <= offset < d.len + total(sizes),
    ensures
        run_append(d, sizes, false, false).len == d.len,
        run_append(d, sizes, false, false).file_len == d.len,
        offset >= run_append(d, sizes, false, false).len,
{
}

/// A read transaction's bytes are fixed when it begins: it has exactly the
/// committed length it saw less its offset left to read, whatever is
/// committed after.
pub proof fn lemma_snapshot_isolation(s: ReadState, offset: u64, len: u64)
    requires
        s.spec_snapshot() == len,
        s.spec_next() == offset,
        offset < len,
    ensures
        s.spec_remaining() == len - offset,
{
}

/// Whether a read of exactly `buf_len` bytes at `offset` fits in a storage of
/// committed length `len`; `ReadError::UnexpectedEof` when it does not.
pub fn check_exact_read(offset: u64, buf_len: usize, len: u64) -> (r: Result<(), ReadError>)
    ensures
        match r {
            Ok(()) => buf_len == 0 || (offset < len && buf_len <= len - offset),
            Err(e) => buf_len > 0 && (offset >= len || buf_len > len - offset) && e
                == ReadError::UnexpectedEof,
        },
{
    if read_size(offset, buf_len, len) == buf_len {
        Ok(())
    } else {
        Err(ReadError::UnexpectedEof)
    }
}

/// How many bytes a read of `buf_len` bytes at `offset` may take from a
/// storage of committed length `len`.
pub fn read_size(offset: u64, buf_len: usize, len: u64) -> (r: usize)
    ensures
        r == if offset >= len {
            0
        } else if buf_len <= len - offset {
            buf_len as int
        } else {
            len - offset
        },
{
    let remaining = len.saturating_sub(offset);
    if buf_len as u64 <= remaining {
        buf_len
    } else {
        remaining as usize
    }
}

} // verus!
