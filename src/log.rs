//! Sequenced log records and their wire format.
use vstd::prelude::*;

verus! {

/// The eight big-endian bytes of `x`.
pub open spec fn be_bytes(x: u64) -> Seq<u8> {
    seq![
        (x >> 56u64) as u8,
        (x >> 48u64) as u8,
        (x >> 40u64) as u8,
        (x >> 32u64) as u8,
        (x >> 24u64) as u8,
        (x >> 16u64) as u8,
        (x >> 8u64) as u8,
        x as u8,
    ]
}

/// The integer that the first eight bytes of `b` hold, read big-endian.
pub open spec fn be_value(b: Seq<u8>) -> u64
    recommends
        b.len() >= 8,
{
    ((b[0] as u64) << 56u64) | ((b[1] as u64) << 48u64) | ((b[2] as u64) << 40u64) | ((
    b[3] as u64) << 32u64) | ((b[4] as u64) << 24u64) | ((b[5] as u64) << 16u64) | ((b[6] as u64)
        << 8u64) | (b[7] as u64)
}

/// Wire form of a record: sequence number, payload size, payload.
pub open spec fn encode(seq_no: u64, payload: Seq<u8>) -> Seq<u8> {
    be_bytes(seq_no) + be_bytes(payload.len() as u64) + payload
}

/// The first record framed at the start of `b`, with the bytes after it,
/// or `None` when `b` is too short to hold a whole record.
pub open spec fn decode(b: Seq<u8>) -> Option<(u64, Seq<u8>, Seq<u8>)> {
    if b.len() < 16 {
        None
    } else {
        let n = be_value(b.subrange(8, 16)) as int;
        if b.len() - 16 < n {
            None
        } else {
            Some((be_value(b.subrange(0, 8)), b.subrange(16, 16 + n), b.subrange(16 + n, b.len() as int)))
        }
    }
}

/// Reading back the bytes of an integer gives the integer.
pub proof fn lemma_be_round_trip(x: u64)
    ensures
        be_value(be_bytes(x)) == x,
{
    assert(((((x >> 56u64) as u8) as u64) << 56u64) | ((((x >> 48u64) as u8) as u64) << 48u64) | ((((x
        >> 40u64) as u8) as u64) << 40u64) | ((((x >> 32u64) as u8) as u64) << 32u64) | ((((x
        >> 24u64) as u8) as u64) << 24u64) | ((((x >> 16u64) as u8) as u64) << 16u64) | ((((x
        >> 8u64) as u8) as u64) << 8u64) | ((x as u8) as u64) == x) by (bit_vector);
}

/// Eight bytes are the big-endian bytes of the integer they hold.
pub proof fn lemma_be_bytes_of_value(b: Seq<u8>)
    requires
        b.len() == 8,
    ensures
        be_bytes(be_value(b)) == b,
{
    let (b0, b1, b2, b3, b4, b5, b6, b7) = (b[0], b[1], b[2], b[3], b[4], b[5], b[6], b[7]);
    let x = be_value(b);
    assert(x == ((b0 as u64) << 56u64) | ((b1 as u64) << 48u64) | ((b2 as u64) << 40u64) | ((
    b3 as u64) << 32u64) | ((b4 as u64) << 24u64) | ((b5 as u64) << 16u64) | ((b6 as u64)
        << 8u64) | (b7 as u64));
    assert((x >> 56u64) as u8 == b0 && (x >> 48u64) as u8 == b1 && (x >> 40u64) as u8 == b2 && (x
        >> 32u64) as u8 == b3 && (x >> 24u64) as u8 == b4 && (x >> 16u64) as u8 == b5 && (x
        >> 8u64) as u8 == b6 && x as u8 == b7) by (bit_vector)
        requires
            x == ((b0 as u64) << 56u64) | ((b1 as u64) << 48u64) | ((b2 as u64) << 40u64) | ((
            b3 as u64) << 32u64) | ((b4 as u64) << 24u64) | ((b5 as u64) << 16u64) | ((
            b6 as u64) << 8u64) | (b7 as u64),
    ;
    assert(be_bytes(x) =~= b);
}

/// Decoding an encoded record followed by any bytes gives back the record and
/// exactly those bytes.
pub proof fn lemma_decode_encode(seq_no: u64, payload: Seq<u8>, tail: Seq<u8>)
    requires
        payload.len() <= u64::MAX,
    ensures
        decode(encode(seq_no, payload) + tail) == Some((seq_no, payload, tail)),
{
    let e = encode(seq_no, payload);
    let b = e + tail;
    let n = payload.len() as int;
    lemma_be_round_trip(seq_no);
    lemma_be_round_trip(n as u64);
    assert(b.subrange(0, 8) =~= be_bytes(seq_no));
    assert(b.subrange(8, 16) =~= be_bytes(n as u64));
    assert(b.subrange(16, 16 + n) =~= payload);
    assert(b.subrange(16 + n, b.len() as int) =~= tail);
}

/// No proper prefix of an encoded record decodes.
pub proof fn lemma_decode_truncated(seq_no: u64, payload: Seq<u8>, k: int)
    requires
        payload.len() <= u64::MAX,
        0 <= k < encode(seq_no, payload).len(),
    ensures
        decode(encode(seq_no, payload).subrange(0, k)) is None,
{
    let e = encode(seq_no, payload);
    let b = e.subrange(0, k);
    if k >= 16 {
        lemma_be_round_trip(payload.len() as u64);
        assert(b.subrange(8, 16) =~= be_bytes(payload.len() as u64));
    }
}

/// Appends the eight big-endian bytes of `x` to `buf`.
fn push_be_u64(buf: &mut Vec<u8>, x: u64)
    ensures
        final(buf)@ == old(buf)@ + be_bytes(x),
{
    buf.push((x >> 56u64) as u8);
    buf.push((x >> 48u64) as u8);
    buf.push((x >> 40u64) as u8);
    buf.push((x >> 32u64) as u8);
    buf.push((x >> 24u64) as u8);
    buf.push((x >> 16u64) as u8);
    buf.push((x >> 8u64) as u8);
    buf.push(x as u8);
    assert(buf@ =~= old(buf)@ + be_bytes(x));
}

/// Appends every byte of `src` to `buf`.
fn push_all(buf: &mut Vec<u8>, src: &[u8])
    ensures
        final(buf)@ == old(buf)@ + src@,
{
    let mut i: usize = 0;
    while i < src.len()
        invariant
            i <= src@.len(),
            buf@ == old(buf)@ + src@.subrange(0, i as int),
        decreases src@.len() - i,
    {
        buf.push(src[i]);
        i = i + 1;
        assert(buf@ =~= old(buf)@ + src@.subrange(0, i as int));
    }
    assert(src@.subrange(0, i as int) =~= src@);
}

/// Splits off the first `len` bytes of `src`, or `None` when it holds fewer.
fn next_n(src: &[u8], len: usize) -> (r: Option<(&[u8], &[u8])>)
    ensures
        match r {
            Some((a, b)) => len <= src@.len() && a@ == src@.subrange(0, len as int) && b@
                == src@.subrange(len as int, src@.len() as int),
            None => len > src@.len(),
        },
{
    if len <= src.len() {
        Some(src.split_at(len))
    } else {
        None
    }
}

/// Reads a big-endian integer from the first eight bytes of `src`, with the
/// bytes after it, or `None` when `src` holds fewer than eight.
fn next_u64(src: &[u8]) -> (r: Option<(u64, &[u8])>)
    ensures
        match r {
            Some((x, rest)) => src@.len() >= 8 && x == be_value(src@) && rest@ == src@.subrange(
                8,
                src@.len() as int,
            ),
            None => src@.len() < 8,
        },
{
    let (head, rest) = next_n(src, 8)?;
    let x = ((head[0] as u64) << 56u64) | ((head[1] as u64) << 48u64) | ((head[2] as u64)
        << 40u64) | ((head[3] as u64) << 32u64) | ((head[4] as u64) << 24u64) | ((head[5] as u64)
        << 16u64) | ((head[6] as u64) << 8u64) | (head[7] as u64);
    Some((x, rest))
}

/// Payload bytes of a record: borrowed from a larger region, or owned.
#[derive(Debug, Clone)]
pub enum Payload<'a> {
    Borrowed(&'a [u8]),
    Owned(Vec<u8>),
}

impl<'a> View for Payload<'a> {
    type V = Seq<u8>;

    open spec fn view(&self) -> Seq<u8> {
        match self {
            Payload::Borrowed(b) => b@,
            Payload::Owned(v) => v@,
        }
    }
}

/// A user generated sequenced log record.
#[derive(Debug, Clone)]
pub struct Log<'a> {
    seq_no: u64,
    data: Payload<'a>,
}

impl<'a> View for Log<'a> {
    type V = (u64, Seq<u8>);

    closed spec fn view(&self) -> (u64, Seq<u8>) {
        (self.seq_no, self.data@)
    }
}

impl<'a> Log<'a> {
    /// Create a new log over borrowed data.
    pub fn new_borrowed(seq_no: u64, data: &'a [u8]) -> (r: Log<'a>)
        ensures
            r@ == (seq_no, data@),
    {
        Log { seq_no, data: Payload::Borrowed(data) }
    }

    /// Create a new log that owns its data.
    pub fn new_owned(seq_no: u64, data: Vec<u8>) -> (r: Log<'a>)
        ensures
            r@ == (seq_no, data@),
    {
        Log { seq_no, data: Payload::Owned(data) }
    }

    /// Sequence number of the log record.
    pub fn seq_no(&self) -> (r: u64)
        ensures
            r == self@.0,
    {
        self.seq_no
    }

    /// Payload held in the log record.
    pub fn data(&self) -> (r: &[u8])
        ensures
            r@ == self@.1,
    {
        match &self.data {
            Payload::Borrowed(b) => b,
            Payload::Owned(v) => v.as_slice(),
        }
    }

    /// Owned copy of the sequence number and payload.
    pub fn into_owned(self) -> (r: (u64, Vec<u8>))
        ensures
            r.0 == self@.0,
            r.1@ == self@.1,
    {
        match self.data {
            Payload::Borrowed(b) => {
                let mut v: Vec<u8> = Vec::with_capacity(b.len());
                push_all(&mut v, b);
                (self.seq_no, v)
            },
            Payload::Owned(v) => (self.seq_no, v),
        }
    }

    /// Appends the wire form of this record to `buf`; returns the number of
    /// bytes written.
    pub fn write(&self, buf: &mut Vec<u8>) -> (r: usize)
        ensures
            final(buf)@ == old(buf)@ + encode(self@.0, self@.1),
            r == encode(self@.0, self@.1).len(),
    {
        let before = buf.len();
        let data = self.data();
        push_be_u64(buf, self.seq_no);
        push_be_u64(buf, data.len() as u64);
        push_all(buf, data);
        assert(buf@ =~= old(buf)@ + encode(self@.0, self@.1));
        buf.len() - before
    }

    /// Decodes the first record of `buf`, borrowing its payload, with the bytes
    /// after it; `None` when `buf` does not hold a whole record.
    pub fn read(buf: &'a [u8]) -> (r: Option<(Log<'a>, &'a [u8])>)
        ensures
            match r {
                Some((log, rest)) => decode(buf@) == Some((log@.0, log@.1, rest@)),
                None => decode(buf@) is None,
            },
    {
        let (seq_no, rest) = match next_u64(buf) {
            Some(p) => p,
            None => return None,
        };
        let (size, rest) = match next_u64(rest) {
            Some(p) => p,
            None => return None,
        };
        assert(be_value(buf@.subrange(0, 8)) == seq_no);
        assert(be_value(buf@.subrange(8, 16)) == size);
        if size > rest.len() as u64 {
            return None;
        }
        let (data, rest) = match next_n(rest, size as usize) {
            Some(p) => p,
            None => return None,
        };
        assert(data@ =~= buf@.subrange(16, 16 + size as int));
        assert(rest@ =~= buf@.subrange(16 + size as int, buf@.len() as int));
        Some((Log::new_borrowed(seq_no, data), rest))
    }
}

/// Whether two byte slices hold the same bytes.
fn bytes_eq(a: &[u8], b: &[u8]) -> (r: bool)
    ensures
        r == (a@ == b@),
{
    if a.len() != b.len() {
        return false;
    }
    let mut i: usize = 0;
    while i < a.len()
        invariant
            a@.len() == b@.len(),
            i <= a@.len(),
            forall|j: int| 0 <= j < i ==> a@[j] == b@[j],
        decreases a@.len() - i,
    {
        if a[i] != b[i] {
            return false;
        }
        i = i + 1;
    }
    assert(a@ =~= b@);
    true
}

impl<'a, 'b> PartialEq<Log<'b>> for Log<'a> {
    /// Two logs are equal when both sequence number and payload are.
    fn eq(&self, other: &Log<'b>) -> (r: bool) {
        self.seq_no == other.seq_no && bytes_eq(self.data(), other.data())
    }
}

impl<'a, 'b> vstd::std_specs::cmp::PartialEqSpecImpl<Log<'b>> for Log<'a> {
    open spec fn obeys_eq_spec() -> bool {
        true
    }

    open spec fn eq_spec(&self, other: &Log<'b>) -> bool {
        self@ == other@
    }
}

impl<'a, 'b> PartialOrd<Log<'b>> for Log<'a> {
    /// Logs are ordered by sequence number alone.
    fn partial_cmp(&self, other: &Log<'b>) -> (r: Option<core::cmp::Ordering>) {
        if self.seq_no < other.seq_no {
            Some(core::cmp::Ordering::Less)
        } else if self.seq_no > other.seq_no {
            Some(core::cmp::Ordering::Greater)
        } else {
            Some(core::cmp::Ordering::Equal)
        }
    }
}

/// Order of two sequence numbers.
pub open spec fn seq_order(a: u64, b: u64) -> core::cmp::Ordering {
    if a < b {
        core::cmp::Ordering::Less
    } else if a > b {
        core::cmp::Ordering::Greater
    } else {
        core::cmp::Ordering::Equal
    }
}

impl<'a, 'b> vstd::std_specs::cmp::PartialOrdSpecImpl<Log<'b>> for Log<'a> {
    open spec fn obeys_partial_cmp_spec() -> bool {
        true
    }

    open spec fn partial_cmp_spec(&self, other: &Log<'b>) -> Option<core::cmp::Ordering> {
        Some(seq_order(self@.0, other@.0))
    }
}

} // verus!
