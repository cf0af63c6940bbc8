use arrowlog::log::Log;

#[test]
fn new_owned() {
    let seq_no = 22;
    let data = vec![9; 250];

    let log = Log::new_owned(seq_no, data.clone());
    assert_eq!(seq_no, log.seq_no());
    assert_eq!(&data, log.data());
}

#[test]
fn new_borrowed() {
    let seq_no = 22;
    let data = vec![9; 250];

    let log = Log::new_borrowed(seq_no, &data);
    assert_eq!(seq_no, log.seq_no());
    assert_eq!(&data, log.data());
}

#[test]
fn into_owned_returns_owned_copy() {
    let seq_no = 22;
    let data = vec![9; 250];

    let log = Log::new_borrowed(seq_no, &data);
    let (r_seq_no, r_data) = log.into_owned();

    assert_eq!(seq_no, r_seq_no);
    assert_eq!(&data, &r_data);
}

#[test]
fn cmp_compares_logs() {
    let log_1 = Log::new_borrowed(1, b"data");
    let log_2 = Log::new_borrowed(2, b"data");

    assert!(log_1 < log_2);
    assert!(log_2 > log_1);
    assert!(log_1 == log_1);
    assert!(log_2 == log_2);
}

#[test]
fn serialization_round_trip() {
    let mut buf = Vec::new();

    let log_1 = Log::new_borrowed(69, b"batman");
    let log_2 = Log::new_borrowed(71, b"superman");

    log_1.write(&mut buf);
    log_2.write(&mut buf);

    let (r_log_1, buf) = Log::read(&buf).expect("Should parse log");
    let (r_log_2, buf) = Log::read(&buf).expect("Should parse log");

    assert_eq!(log_1, r_log_1);
    assert_eq!(log_2, r_log_2);
    assert!(buf.is_empty());
}

#[test]
fn read_not_enough_bytes_returns_empty() {
    let mut buf = Vec::new();

    // Empty buffer should not parse log.
    assert!(Log::read(&buf).is_none());

    let log = Log::new_borrowed(69, b"batman");
    log.write(&mut buf);

    // Remove the last bytes from the buffer.
    for _ in 0..buf.len() {
        buf.truncate(buf.len() - 1);

        // Buffer should not have enough bytes read next log.
        assert!(Log::read(&buf).is_none());
    }
}

#[test]
fn write_returns_size_and_frames_big_endian() {
    let mut buf = vec![0xAA];
    let log = Log::new_borrowed(0x0102030405060708, b"batman");
    assert_eq!(22, log.write(&mut buf));

    let mut expected = vec![0xAA, 1, 2, 3, 4, 5, 6, 7, 8, 0, 0, 0, 0, 0, 0, 0, 6];
    expected.extend_from_slice(b"batman");
    assert_eq!(expected, buf);
}

#[test]
fn read_leaves_tail_untouched() {
    let mut buf = Vec::new();
    Log::new_borrowed(u64::MAX, b"").write(&mut buf);
    buf.extend_from_slice(b"tail");

    let (log, rest) = Log::read(&buf).expect("Should parse log");
    assert_eq!(u64::MAX, log.seq_no());
    assert!(log.data().is_empty());
    assert_eq!(b"tail", rest);
}

#[test]
fn read_size_past_end_returns_none() {
    // A size field far larger than the bytes that follow.
    let mut buf = vec![0, 0, 0, 0, 0, 0, 0, 1];
    buf.extend_from_slice(&[0xFF; 8]);
    buf.extend_from_slice(b"abc");
    assert!(Log::read(&buf).is_none());
}

#[test]
fn equality_compares_payload_too() {
    let owned = Log::new_owned(5, b"same".to_vec());
    let borrowed = Log::new_borrowed(5, b"same");
    let other = Log::new_borrowed(5, b"diff");

    assert!(owned == borrowed);
    assert!(borrowed != other);
    assert!(!(borrowed < other) && !(borrowed > other));
}
