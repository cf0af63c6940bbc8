use arrowlog::lock::MutLock;
use arrowlog::txn::{
    check_exact_read, close_target, read_size, truncate_target, AppendState, CommitStep, ReadError, ReadState,
};

#[test]
fn append_state_hands_out_consecutive_offsets() {
    let mut txn = AppendState::begin(100);
    assert_eq!(100, txn.start());
    assert_eq!(Some(100), txn.append(5));
    assert_eq!(Some(105), txn.append(4));
    assert_eq!(109, txn.next());
    assert_eq!(100, txn.start());
}

#[test]
fn append_state_refuses_offset_overflow() {
    let mut txn = AppendState::begin(u64::MAX - 3);
    assert_eq!(None, txn.append(4));
    assert_eq!(u64::MAX - 3, txn.next());
    assert_eq!(Some(u64::MAX - 3), txn.append(3));
    assert_eq!(u64::MAX, txn.next());
}

#[test]
fn commit_without_bytes_is_skipped() {
    let txn = AppendState::begin(7);
    assert_eq!(CommitStep::Skip, txn.commit_step(true));
    assert_eq!(None, txn.rollback_target());
}

#[test]
fn commit_publishes_end() {
    let mut txn = AppendState::begin(7);
    assert_eq!(Some(7), txn.append(10));
    assert_eq!(CommitStep::Publish { sync: true, len: 17 }, txn.commit_step(true));
    assert_eq!(CommitStep::Publish { sync: false, len: 17 }, txn.commit_step(false));
}

#[test]
fn rollback_only_before_finish() {
    let mut txn = AppendState::begin(7);
    assert_eq!(Some(7), txn.append(3));
    assert_eq!(Some(7), txn.rollback_target());
    txn.finish();
    assert_eq!(None, txn.rollback_target());
}

#[test]
fn read_state_begins_only_below_len() {
    assert!(ReadState::begin(10, 10).is_none());
    assert!(ReadState::begin(11, 10).is_none());
    let txn = ReadState::begin(4, 10).expect("Should begin");
    assert_eq!(10, txn.snapshot());
    assert_eq!(4, txn.next());
    assert_eq!(6, txn.remaining());
}

#[test]
fn read_state_clamps_and_advances() {
    let mut txn = ReadState::begin(0, 9).expect("Should begin");
    assert_eq!(5, txn.read_len(5));
    assert_eq!(9, txn.read_len(100));
    txn.advance(5);
    assert_eq!(4, txn.remaining());
    assert_eq!(4, txn.read_len(100));
    assert_eq!(Err(ReadError::UnexpectedEof), txn.exact_offset(5));
    assert_eq!(Ok(5), txn.exact_offset(4));
    txn.advance(4);
    assert_eq!(0, txn.remaining());
    assert_eq!(0, txn.read_len(1));
    assert_eq!(Ok(9), txn.exact_offset(0));
    assert_eq!(9, txn.commit());
}

#[test]
fn truncate_only_shortens() {
    assert_eq!(None, truncate_target(31, 31));
    assert_eq!(None, truncate_target(131, 31));
    assert_eq!(Some(21), truncate_target(21, 31));
}

#[test]
fn close_cuts_uncommitted_tail() {
    assert_eq!(Some(100), close_target(120, 100));
    assert_eq!(None, close_target(100, 100));
}

// Some random test data, as committed to a storage.
const TEST_BUF: &[u8] = b"Batman is better than superman!";

#[test]
fn size_read_buf_empty_buf_returns_empty_buf() {
    let len = TEST_BUF.len() as u64;

    // Empty buffer should not be resized.
    let read_buf: [u8; 0] = [];
    assert_eq!(0, read_size(0, read_buf.len(), len));
}

#[test]
fn size_read_buf_nothing_remaining_empty_buf() {
    let len = TEST_BUF.len() as u64;

    // Read after exact end of file.
    let read_buf = vec![0u8; TEST_BUF.len()];
    assert_eq!(0, read_size(len, read_buf.len(), len));

    // Read beyond the end of file.
    assert_eq!(0, read_size(len + 65, read_buf.len(), len));
}

#[test]
fn size_read_buf_not_enough_remaining_shrinks_buf() {
    let len = TEST_BUF.len() as u64;

    // Should shrink buffer to fit remaining bytes.
    let read_buf = vec![0u8; TEST_BUF.len() + 10];
    assert_eq!(TEST_BUF.len(), read_size(0, read_buf.len(), len));
}

#[test]
fn size_read_buf_enough_remaining_does_not_resize() {
    let len = TEST_BUF.len() as u64;

    // Request equal to remaining.
    let read_buf = vec![0u8; TEST_BUF.len()];
    assert_eq!(TEST_BUF.len(), read_size(0, read_buf.len(), len));

    // Request less than remaining.
    let read_buf = vec![0u8; 3];
    assert_eq!(3, read_size(0, read_buf.len(), len));
}

#[test]
fn read_size_counts_from_offset() {
    assert_eq!(11, read_size(20, 64, 31));
    assert_eq!(5, read_size(20, 5, 31));
}

#[test]
fn lock_acquired_cannot_be_acquired_again_until_dropped() {
    let lock = MutLock::default();
    let guard = lock.try_lock().expect("Should obtain lock");
    assert!(lock.try_lock().is_none());
    assert!(lock.try_lock().is_none());
    drop(guard);
    let again = lock.try_lock();
    assert!(again.is_some());
    assert!(lock.try_lock().is_none());
}

#[test]
fn mousetrap_transactions() {
    // Committed length of a new storage.
    let mut len: u64 = 0;

    // "mouse" and "trap", committed with a flush.
    let mut txn = AppendState::begin(len);
    assert_eq!(Some(0), txn.append(5));
    assert_eq!(Some(5), txn.append(4));
    match txn.commit_step(true) {
        CommitStep::Publish { sync, len: end } => {
            assert!(sync);
            len = end;
        }
        CommitStep::Skip => panic!("bytes were written"),
    }
    txn.finish();
    assert_eq!(None, txn.rollback_target());
    assert_eq!(9, len);

    // "batman", dropped without commit: rolled back to where it began.
    let mut txn = AppendState::begin(len);
    assert_eq!(Some(9), txn.append(6));
    assert_eq!(Some(9), txn.rollback_target());
    assert_eq!(9, len);

    // A read from the start sees exactly the nine committed bytes.
    let txn = ReadState::begin(0, len).expect("Should begin");
    assert_eq!(9, txn.remaining());
    assert_eq!(Ok(0), txn.exact_offset(txn.remaining() as usize));
}

#[test]
fn reader_keeps_its_snapshot() {
    let len: u64 = 16;
    let mut reader = ReadState::begin(8, len).expect("Should begin");

    // The writer commits more bytes; the reader's state is its own.
    let mut txn = AppendState::begin(len);
    assert_eq!(Some(16), txn.append(8));
    let later = match txn.commit_step(false) {
        CommitStep::Publish { len, .. } => len,
        CommitStep::Skip => len,
    };
    assert_eq!(24, later);

    assert_eq!(8, reader.remaining());
    reader.advance(8);
    assert_eq!(0, reader.remaining());
    assert_eq!(Err(ReadError::UnexpectedEof), reader.exact_offset(1));
}

#[test]
fn crashed_writer_tail_is_cut_on_close() {
    // One handle committed 100 bytes.
    let len: u64 = 100;
    // A second handle opened the file at 100 bytes and wrote 20 without commit.
    let mut other = AppendState::begin(100);
    assert_eq!(Some(100), other.append(20));
    let mut file_len: u64 = 120;
    // Its drop cuts the file back; a crash instead leaves the tail.
    assert_eq!(Some(100), other.rollback_target());

    // Closing the first handle cuts any tail left to the committed length.
    if let Some(cut) = close_target(file_len, len) {
        file_len = cut;
    }
    assert_eq!(100, file_len);
    // Reopening takes the file's length as committed length.
    assert_eq!(None, close_target(file_len, file_len));
}

#[test]
fn exact_read_fits_or_fails_with_eof() {
    let len = TEST_BUF.len() as u64;

    // An empty buffer always fits, wherever it starts.
    assert_eq!(Ok(()), check_exact_read(0, 0, len));
    assert_eq!(Ok(()), check_exact_read(len + 5, 0, len));

    // A buffer greater than the bytes available does not.
    assert_eq!(Err(ReadError::UnexpectedEof), check_exact_read(0, TEST_BUF.len() + 10, len));
    assert_eq!(Err(ReadError::UnexpectedEof), check_exact_read(len, 1, len));

    // Exactly the bytes available fit.
    assert_eq!(Ok(()), check_exact_read(0, TEST_BUF.len(), len));
    assert_eq!(Ok(()), check_exact_read(len - 4, 4, len));
}
