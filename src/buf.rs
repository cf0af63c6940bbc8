//! A re-usable buffer of log records.
use crate::log::{decode, encode, lemma_decode_encode, Log};
use vstd::prelude::*;

verus! {

/// A record as plain values: sequence number and payload.
pub type Record = (u64, Seq<u8>);

/// Concatenated wire form of `recs`, in order.
pub open spec fn encode_all(recs: Seq<Record>) -> Seq<u8>
    decreases recs.len(),
{
    if recs.len() == 0 {
        Seq::empty()
    } else {
        encode(recs[0].0, recs[0].1) + encode_all(recs.drop_first())
    }
}

/// The records framed one after another at the start of `b`, up to the
/// first point where no whole record follows.
pub open spec fn parse_all(b: Seq<u8>) -> Seq<Record>
    decreases b.len(),
{
    match decode(b) {
        Some((s, p, rest)) => seq![(s, p)] + parse_all(rest),
        None => Seq::empty(),
    }
}

/// Number of bytes that the records of `parse_all(b)` take up.
pub open spec fn parsed_len(b: Seq<u8>) -> nat
    decreases b.len(),
{
    match decode(b) {
        Some((s, p, rest)) => (b.len() - rest.len()) as nat + parsed_len(rest),
        None => 0,
    }
}

/// Every payload's size fits the size field of the wire format.
pub open spec fn framable(recs: Seq<Record>) -> bool {
    forall|i: int| 0 <= i < recs.len() ==> #[trigger] recs[i].1.len() <= u64::MAX
}

/// Each record has a strictly greater sequence number than the one before.
pub open spec fn ascending(recs: Seq<Record>) -> bool {
    forall|i: int| 0 <= i < recs.len() - 1 ==> #[trigger] recs[i].0 < recs[i + 1].0
}

/// Sequence number of the last record, if any.
pub open spec fn last_seq(recs: Seq<Record>) -> Option<u64> {
    if recs.len() == 0 {
        None
    } else {
        Some(recs.last().0)
    }
}

/// Sequence number of the first record, if any.
pub open spec fn first_seq(recs: Seq<Record>) -> Option<u64> {
    if recs.len() == 0 {
        None
    } else {
        Some(recs[0].0)
    }
}

/// Whether a record numbered `seq_no` may follow a record numbered `last`.
pub open spec fn accepts(last: Option<u64>, seq_no: u64) -> bool {
    match last {
        None => true,
        Some(prev) => prev < seq_no,
    }
}

proof fn lemma_encode_all_push(recs: Seq<Record>, r: Record)
    ensures
        encode_all(recs.push(r)) == encode_all(recs) + encode(r.0, r.1),
    decreases recs.len(),
{
    if recs.len() == 0 {
        assert(recs.push(r).drop_first() =~= Seq::<Record>::empty());
        assert(recs.push(r)[0] == r);
        assert(encode_all(Seq::<Record>::empty()) =~= Seq::<u8>::empty());
        assert(encode_all(recs.push(r)) =~= encode_all(recs) + encode(r.0, r.1));
    } else {
        lemma_encode_all_push(recs.drop_first(), r);
        assert(recs.push(r).drop_first() =~= recs.drop_first().push(r));
        assert(encode_all(recs.push(r)) =~= encode_all(recs) + encode(r.0, r.1));
    }
}

proof fn lemma_encode_all_len(recs: Seq<Record>)
    ensures
        encode_all(recs).len() >= 16 * recs.len(),
    decreases recs.len(),
{
    if recs.len() > 0 {
        lemma_encode_all_len(recs.drop_first());
    }
}

/// Parsing the wire form of records gives back exactly those records, and
/// consumes all of it.
pub proof fn lemma_parse_encode_all(recs: Seq<Record>)
    requires
        framable(recs),
    ensures
        parse_all(encode_all(recs)) == recs,
        parsed_len(encode_all(recs)) == encode_all(recs).len(),
    decreases recs.len(),
{
    if recs.len() == 0 {
        assert(decode(Seq::<u8>::empty()) is None);
    } else {
        let rest = recs.drop_first();
        assert(framable(rest)) by {
            assert forall|i: int| 0 <= i < rest.len() implies #[trigger] rest[i].1.len()
                <= u64::MAX by {
                assert(rest[i] == recs[i + 1]);
            }
        }
        lemma_parse_encode_all(rest);
        let tail = encode_all(rest);
        let e = encode_all(recs);
        assert(recs[0].1.len() <= u64::MAX);
        lemma_decode_encode(recs[0].0, recs[0].1, tail);
        assert(e == encode(recs[0].0, recs[0].1) + tail);
        assert(decode(e) == Some((recs[0].0, recs[0].1, tail)));
        assert(parse_all(e) == seq![(recs[0].0, recs[0].1)] + parse_all(tail));
        assert(recs =~= seq![(recs[0].0, recs[0].1)] + rest);
    }
}

proof fn lemma_parse_step(b: Seq<u8>)
    ensures
        match decode(b) {
            Some((s, p, rest)) => parse_all(b) == seq![(s, p)] + parse_all(rest) && parsed_len(b)
                == (b.len() - rest.len()) + parsed_len(rest) && rest.len() < b.len() && rest
                == b.subrange(b.len() - rest.len(), b.len() as int),
            None => parse_all(b) == Seq::<Record>::empty() && parsed_len(b) == 0,
        },
{
}

/// The whole records at the start of `b` are a prefix of `b`, framed as
/// `encode_all` frames them.
proof fn lemma_parse_prefix(b: Seq<u8>)
    ensures
        parsed_len(b) <= b.len(),
        encode_all(parse_all(b)) == b.subrange(0, parsed_len(b) as int),
        framable(parse_all(b)),
        16 * parse_all(b).len() <= parsed_len(b),
        decode(b.subrange(parsed_len(b) as int, b.len() as int)) is None,
    decreases b.len(),
{
    match decode(b) {
        Some((s, p, rest)) => {
            lemma_parse_prefix(rest);
            let n = p.len() as int;
            let recs = parse_all(b);
            assert(recs == seq![(s, p)] + parse_all(rest));
            assert(recs.drop_first() =~= parse_all(rest));
            assert(b.subrange(0, 8) + b.subrange(8, 16) + b.subrange(16, b.len() as int) =~= b);
            assert(b.subrange(16, 16 + n) == p);
            crate::log::lemma_be_round_trip(p.len() as u64);
            assert(b.subrange(8, 16) =~= crate::log::be_bytes(p.len() as u64)) by {
                crate::log::lemma_be_bytes_of_value(b.subrange(8, 16));
            }
            crate::log::lemma_be_bytes_of_value(b.subrange(0, 8));
            assert(b.subrange(0, parsed_len(b) as int) =~= encode(s, p) + rest.subrange(
                0,
                parsed_len(rest) as int,
            ));
            assert(b.subrange(parsed_len(b) as int, b.len() as int) =~= rest.subrange(
                parsed_len(rest) as int,
                rest.len() as int,
            ));
            assert forall|i: int| 0 <= i < recs.len() implies #[trigger] recs[i].1.len()
                <= u64::MAX by {
                if i > 0 {
                    assert(recs[i] == parse_all(rest)[i - 1]);
                }
            }
        },
        None => {
            assert(b.subrange(0, 0) =~= Seq::<u8>::empty());
            assert(b.subrange(0, b.len() as int) =~= b);
        },
    }
}

/// Once a record has been accepted, a next record is accepted exactly when
/// its sequence number is greater than that of the accepted one.
pub proof fn lemma_append_monotone(recs: Seq<Record>, r1: Record, r2: Record)
    requires
        accepts(last_seq(recs), r1.0),
    ensures
        accepts(last_seq(recs.push(r1)), r2.0) == (r1.0 < r2.0),
{
}

/// Copying the bytes of a buffer into an empty one and rebuilding it from
/// them gives the same records, in the same bytes.
pub proof fn lemma_reinitialize_round_trip(buf: LogBuf)
    requires
        buf.wf(),
    ensures
        parse_all(buf.spec_bytes()) == buf@,
        buf.spec_bytes().subrange(0, parsed_len(buf.spec_bytes()) as int) == buf.spec_bytes(),
{
    lemma_parse_encode_all(buf@);
    assert(buf.spec_bytes().subrange(0, buf.spec_bytes().len() as int) =~= buf.spec_bytes());
}

/// Relies on `Vec::capacity`: the vector can hold at least its length.
#[verifier::external_body]
fn vec_capacity(v: &Vec<u8>) -> (r: usize)
    ensures
        r >= v@.len(),
{
    v.capacity()
}

/// Relies on `Vec::shrink_to`: it releases capacity and keeps the contents.
#[verifier::external_body]
fn vec_shrink_to(v: &mut Vec<u8>, min_capacity: usize)
    ensures
        final(v)@ == old(v)@,
{
    v.shrink_to(min_capacity)
}

/// A growable, reusable buffer of sequenced log records.
pub struct LogBuf {
    count: usize,
    memory: Vec<u8>,
    last: Option<u64>,
    records: Ghost<Seq<Record>>,
}

impl View for LogBuf {
    type V = Seq<Record>;

    closed spec fn view(&self) -> Seq<Record> {
        self.records@
    }
}

impl LogBuf {
    /// The bytes held in the buffer.
    pub closed spec fn spec_bytes(&self) -> Seq<u8> {
        self.memory@
    }

    /// The record count kept by the buffer.
    pub closed spec fn spec_count(&self) -> nat {
        self.count as nat
    }

    /// The last sequence number kept by the buffer.
    pub closed spec fn spec_last(&self) -> Option<u64> {
        self.last
    }

    /// The bytes are exactly the records, framed one after another, and the
    /// count and last sequence number agree with the records.
    pub open spec fn wf(&self) -> bool {
        &&& self.spec_bytes() == encode_all(self@)
        &&& self.spec_count() == self@.len()
        &&& self.spec_last() == last_seq(self@)
        &&& framable(self@)
    }

    /// Create a new, empty buffer that reserves `capacity` bytes.
    pub fn with_capacity(capacity: usize) -> (r: LogBuf)
        ensures
            r.wf(),
            r@ == Seq::<Record>::empty(),
    {
        LogBuf {
            count: 0,
            last: None,
            memory: Vec::with_capacity(capacity),
            records: Ghost(Seq::empty()),
        }
    }

    /// Number of log records in the buffer.
    pub fn count(&self) -> (r: usize)
        requires
            self.wf(),
        ensures
            r == self@.len(),
    {
        self.count
    }

    /// Number of bytes held in the buffer.
    pub fn len(&self) -> (r: usize)
        ensures
            r == self.spec_bytes().len(),
    {
        self.memory.len()
    }

    /// Whether the buffer holds no records.
    pub fn is_empty(&self) -> (r: bool)
        requires
            self.wf(),
        ensures
            r == (self@.len() == 0),
    {
        self.count == 0
    }

    /// Number of bytes the buffer can hold without reallocating. The
    /// allocator decides it; it is never below the length.
    pub fn capacity(&self) -> (r: usize)
        ensures
            r >= self.spec_bytes().len(),
    {
        vec_capacity(&self.memory)
    }

    /// Sequence number of the first record, decoded from the head of the bytes.
    pub fn first(&self) -> (r: Option<u64>)
        requires
            self.wf(),
        ensures
            r == first_seq(self@),
    {
        let mut logs = self.iter();
        proof {
            lemma_parse_encode_all(self@);
        }
        match logs.next() {
            Some(log) => Some(log.seq_no()),
            None => None,
        }
    }

    /// Sequence number of the last record.
    pub fn last(&self) -> (r: Option<u64>)
        requires
            self.wf(),
        ensures
            r == last_seq(self@),
    {
        self.last
    }

    /// An iterator over the records of the buffer, in order.
    pub fn iter(&self) -> (r: LogVecIter<'_>)
        ensures
            r@ == self.spec_bytes(),
    {
        LogVecIter(self.memory.as_slice())
    }

    /// Append a record; returns whether it was accepted.
    ///
    /// The record is accepted exactly when the buffer is empty or its
    /// sequence number is greater than that of the last record. A rejected
    /// record leaves the buffer as it was.
    pub fn append(&mut self, log: &Log<'_>) -> (r: bool)
        requires
            old(self).wf(),
        ensures
            final(self).wf(),
            r == accepts(last_seq(old(self)@), log@.0),
            r ==> final(self)@ == old(self)@.push(log@),
            !r ==> final(self)@ == old(self)@ && final(self).spec_bytes() == old(
                self,
            ).spec_bytes(),
            ascending(old(self)@) ==> ascending(final(self)@),
    {
        if let Some(prev_seq_no) = self.last {
            if prev_seq_no >= log.seq_no() {
                return false;
            }
        }
        let ghost before = self@;
        let size = log.data().len();
        log.write(&mut self.memory);
        proof {
            let recs = before.push(log@);
            lemma_encode_all_push(before, log@);
            lemma_encode_all_len(recs);
            assert(log@.1.len() == size);
            assert forall|i: int| 0 <= i < recs.len() implies #[trigger] recs[i].1.len()
                <= u64::MAX by {
                if i < before.len() {
                    assert(recs[i] == before[i]);
                }
            }
            if ascending(before) {
                assert forall|i: int| 0 <= i < recs.len() - 1 implies #[trigger] recs[i].0
                    < recs[i + 1].0 by {
                    if i + 1 < before.len() {
                        assert(recs[i] == before[i] && recs[i + 1] == before[i + 1]);
                    }
                }
            }
            self.records = Ghost(recs);
        }
        let len = self.memory.len();
        assert(16 * (self.count + 1) <= len);
        self.count += 1;
        self.last = Some(log.seq_no());
        true
    }

    /// Remove every record from the buffer.
    pub fn clear(&mut self)
        ensures
            final(self).wf(),
            final(self)@ == Seq::<Record>::empty(),
    {
        self.count = 0;
        self.memory.clear();
        self.last = None;
        self.records = Ghost(Seq::empty());
    }

    /// Reserve room for at least `additional` more bytes.
    pub fn reserve(&mut self, additional: usize)
        requires
            old(self).spec_bytes().len() + additional <= isize::MAX,
        ensures
            final(self)@ == old(self)@,
            final(self).spec_bytes() == old(self).spec_bytes(),
            final(self).spec_count() == old(self).spec_count(),
            final(self).spec_last() == old(self).spec_last(),
    {
        self.memory.reserve(additional);
    }

    /// Release capacity, down to `capacity` bytes but never below the length.
    pub fn shrink_to(&mut self, capacity: usize)
        ensures
            final(self)@ == old(self)@,
            final(self).spec_bytes() == old(self).spec_bytes(),
            final(self).spec_count() == old(self).spec_count(),
            final(self).spec_last() == old(self).spec_last(),
    {
        vec_shrink_to(&mut self.memory, capacity);
    }

    /// The bytes that back this buffer.
    pub fn bytes(&self) -> (r: &Vec<u8>)
        ensures
            r@ == self.spec_bytes(),
    {
        &self.memory
    }

    /// Mutable access to the bytes that back this buffer, for bulk copies;
    /// call [`LogBuf::reinitialize`] after changing them.
    pub fn bytes_mut(&mut self) -> (r: &mut Vec<u8>)
        ensures
            r@ == old(self).spec_bytes(),
            final(self).spec_bytes() == final(r)@,
            final(self)@ == old(self)@,
            final(self).spec_count() == old(self).spec_count(),
            final(self).spec_last() == old(self).spec_last(),
    {
        &mut self.memory
    }

    /// Rebuild the count and last sequence number from the bytes, and cut off
    /// trailing bytes that do not make up a whole record.
    pub fn reinitialize(&mut self)
        ensures
            final(self).wf(),
            final(self)@ == parse_all(old(self).spec_bytes()),
            final(self).spec_bytes() == old(self).spec_bytes().subrange(
                0,
                parsed_len(old(self).spec_bytes()) as int,
            ),
    {
        let ghost b = self.memory@;
        let mut count: usize = 0;
        let mut last: Option<u64> = None;
        let mut logs = self.iter();
        let ghost mut seen: Seq<Record> = Seq::empty();
        let ghost mut pos: int = 0;
        let total = self.memory.len();
        loop
            invariant
                b == self.memory@,
                0 <= pos <= b.len(),
                logs@ == b.subrange(pos, b.len() as int),
                parse_all(b) == seen + parse_all(logs@),
                parsed_len(b) == pos + parsed_len(logs@),
                count == seen.len(),
                last == last_seq(seen),
                16 * count <= pos,
                b.len() <= usize::MAX,
            ensures
                parsed_len(b) == pos,
                seen == parse_all(b),
            decreases b.len() - pos,
        {
            let ghost prev = logs@;
            proof {
                lemma_parse_step(prev);
            }
            match logs.next() {
                Some(log) => {
                    proof {
                        assert(seen + parse_all(prev) =~= seen.push(log@) + parse_all(logs@));
                        seen = seen.push(log@);
                        pos = pos + (prev.len() - logs@.len());
                        assert(logs@ =~= b.subrange(pos, b.len() as int));
                    }
                    count += 1;
                    last = Some(log.seq_no());
                },
                None => {
                    proof {
                        assert(seen + parse_all(prev) =~= seen);
                    }
                    break;
                },
            }
        }
        let excess = logs.remaining_len();
        proof {
            lemma_parse_prefix(b);
        }
        self.memory.truncate(total - excess);
        self.count = count;
        self.last = last;
        self.records = Ghost(seen);
        assert(self.memory@ =~= b.subrange(0, parsed_len(b) as int));
    }
}

/// An iterator over the records framed in a byte region.
pub struct LogVecIter<'a>(&'a [u8]);

impl<'a> View for LogVecIter<'a> {
    type V = Seq<u8>;

    closed spec fn view(&self) -> Seq<u8> {
        self.0@
    }
}

impl<'a> LogVecIter<'a> {
    /// The next record, or `None` when no whole record is left.
    pub fn next(&mut self) -> (r: Option<Log<'a>>)
        ensures
            match decode(old(self)@) {
                Some((s, p, rest)) => r is Some && r->0@ == (s, p) && final(self)@ == rest,
                None => r is None && final(self)@ == old(self)@,
            },
    {
        match Log::read(self.0) {
            Some((log, remaining)) => {
                self.0 = remaining;
                Some(log)
            },
            None => None,
        }
    }

    /// Number of bytes not yet consumed.
    pub fn remaining_len(&self) -> (r: usize)
        ensures
            r == self@.len(),
    {
        self.0.len()
    }
}

} // verus!
