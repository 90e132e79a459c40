//! The index as bytes.
//!
//! All numbers are big-endian: the uncompressed length in eight bytes, the wrapper in
//! four, the number of points in four; then for each point its compressed position in
//! eight bytes, its uncompressed position in eight, its left-over bits in four, and
//! its window.
use crate::engine::Answer;
use crate::extractor::{extraction_run, extraction_start, lemma_extraction_by_value};
use crate::types::{DeflateIndex, IndexView, Point, PointView, WINSIZE};
use crate::zran::is_nearest_point;
use byteorder::{BigEndian, ByteOrder};
use vstd::prelude::*;
use vstd::slice::{slice_subrange, slice_to_vec};

verus! {

/// The eight bytes of a number, the most significant first.
pub open spec fn be_u64(n: u64) -> Seq<u8> {
    seq![
        (n >> 56) as u8,
        (n >> 48) as u8,
        (n >> 40) as u8,
        (n >> 32) as u8,
        (n >> 24) as u8,
        (n >> 16) as u8,
        (n >> 8) as u8,
        n as u8,
    ]
}

/// The four bytes of a number, the most significant first.
pub open spec fn be_u32(n: u32) -> Seq<u8> {
    seq![(n >> 24) as u8, (n >> 16) as u8, (n >> 8) as u8, n as u8]
}

/// The four bytes of a signed number in two's complement, the most significant first.
pub open spec fn be_i32(n: i32) -> Seq<u8> {
    be_u32(n as u32)
}

/// A point as bytes.
pub open spec fn encode_point(point: PointView) -> Seq<u8> {
    be_u64(point.input_offset) + be_u64(point.output_offset) + be_u32(point.bit_offset)
        + point.window
}

/// Points as bytes, one after the other.
pub open spec fn encode_points(points: Seq<PointView>) -> Seq<u8>
    decreases points.len(),
{
    if points.len() == 0 {
        Seq::empty()
    } else {
        encode_points(points.drop_last()) + encode_point(points.last())
    }
}

/// An index as bytes. The number of points is written as far as four bytes hold it.
pub open spec fn encode_index(index: IndexView) -> Seq<u8> {
    be_u64(index.length) + be_i32(index.mode) + be_u32(index.points.len() as u32)
        + encode_points(index.points)
}

/// `byteorder::BigEndian::write_u64` on a buffer of eight bytes: the buffer then holds
/// the number's bytes from the most significant to the least.
#[verifier::external_body]
fn u64_bytes(n: u64) -> (bytes: Vec<u8>)
    ensures
        bytes@ == be_u64(n),
{
    let mut bytes = vec![0u8; 8];
    BigEndian::write_u64(&mut bytes, n);
    bytes
}

/// `byteorder::BigEndian::write_u32` on a buffer of four bytes: the buffer then holds
/// the number's bytes from the most significant to the least.
#[verifier::external_body]
fn u32_bytes(n: u32) -> (bytes: Vec<u8>)
    ensures
        bytes@ == be_u32(n),
{
    let mut bytes = vec![0u8; 4];
    BigEndian::write_u32(&mut bytes, n);
    bytes
}

/// `byteorder::BigEndian::write_i32` on a buffer of four bytes: the buffer then holds
/// the bytes of the number's two's complement from the most significant to the least.
#[verifier::external_body]
fn i32_bytes(n: i32) -> (bytes: Vec<u8>)
    ensures
        bytes@ == be_i32(n),
{
    let mut bytes = vec![0u8; 4];
    BigEndian::write_i32(&mut bytes, n);
    bytes
}

/// The bytes of some points followed by the bytes of one more are the bytes of them all.
pub proof fn lemma_encode_points_push(points: Seq<PointView>, point: PointView)
    ensures
        encode_points(points.push(point)) == encode_points(points) + encode_point(point),
{
    assert(points.push(point).drop_last() =~= points);
}

impl DeflateIndex {
    /// The index as bytes.
    pub fn serialize(&self) -> (bytes: Vec<u8>)
        ensures
            bytes@ == encode_index(self@),
    {
        let mut bytes: Vec<u8> = Vec::new();
        let mut field = u64_bytes(self.length);
        bytes.append(&mut field);
        let mut field = i32_bytes(self.mode);
        bytes.append(&mut field);
        let count = self.list.len();
        let mut field = u32_bytes(count as u32);
        bytes.append(&mut field);
        let ghost header = bytes@;
        assert(header =~= be_u64(self.length) + be_i32(self.mode) + be_u32(
            self@.points.len() as u32,
        ));
        let mut i: usize = 0;
        while i < count
            invariant
                i <= count,
                count == self.list@.len(),
                bytes@ == header + encode_points(self@.points.take(i as int)),
            decreases count - i,
        {
            let point = &self.list[i];
            let ghost before = bytes@;
            let mut field = u64_bytes(point.inn);
            bytes.append(&mut field);
            let mut field = u64_bytes(point.out);
            bytes.append(&mut field);
            let mut field = u32_bytes(point.bits);
            bytes.append(&mut field);
            bytes.extend_from_slice(point.window.as_slice());
            proof {
                let done = self@.points.take(i as int);
                assert(self@.points[i as int] == point@);
                assert(self@.points.take(i + 1) =~= done.push(point@));
                lemma_encode_points_push(done, point@);
                assert(bytes@ =~= before + encode_point(point@));
                assert(bytes@ =~= header + encode_points(self@.points.take(i + 1)));
            }
            i = i + 1;
        }
        assert(self@.points.take(count as int) =~= self@.points);
        bytes
    }
}

/// The number of bytes before the first point.
pub const HEADER_SIZE: usize = 16;

/// The number of bytes that a point with a full window takes.
pub const RECORD_SIZE: usize = 32788;

/// The number whose eight bytes, the most significant first, stand at the front of `s`.
pub open spec fn from_be_u64(s: Seq<u8>) -> u64
    recommends
        s.len() >= 8,
{
    (s[0] as u64) << 56 | (s[1] as u64) << 48 | (s[2] as u64) << 40 | (s[3] as u64) << 32 | (
    s[4] as u64) << 24 | (s[5] as u64) << 16 | (s[6] as u64) << 8 | (s[7] as u64)
}

/// The number whose four bytes, the most significant first, stand at the front of `s`.
pub open spec fn from_be_u32(s: Seq<u8>) -> u32
    recommends
        s.len() >= 4,
{
    (s[0] as u32) << 24 | (s[1] as u32) << 16 | (s[2] as u32) << 8 | (s[3] as u32)
}

/// The signed number whose four bytes in two's complement, the most significant
/// first, stand at the front of `s`.
pub open spec fn from_be_i32(s: Seq<u8>) -> i32
    recommends
        s.len() >= 4,
{
    from_be_u32(s) as i32
}

/// The point that a record holds.
pub open spec fn decode_point(s: Seq<u8>) -> PointView
    recommends
        s.len() == RECORD_SIZE,
{
    PointView {
        input_offset: from_be_u64(s.subrange(0, 8)),
        output_offset: from_be_u64(s.subrange(8, 16)),
        bit_offset: from_be_u32(s.subrange(16, 20)),
        window: s.subrange(20, RECORD_SIZE as int),
    }
}

/// The record of the point at place `i`.
pub open spec fn record(s: Seq<u8>, i: int) -> Seq<u8> {
    s.subrange(HEADER_SIZE + i * RECORD_SIZE, HEADER_SIZE + (i + 1) * RECORD_SIZE)
}

/// The index that bytes hold: a header, a number of points that is not negative, and
/// exactly as many records, each with a full window. Other bytes hold no index.
pub open spec fn decode_index(s: Seq<u8>) -> Option<IndexView> {
    if s.len() < HEADER_SIZE {
        None
    } else {
        let count = from_be_i32(s.subrange(12, 16));
        if count < 0 || s.len() != HEADER_SIZE + count * RECORD_SIZE {
            None
        } else {
            Some(
                IndexView {
                    length: from_be_u64(s.subrange(0, 8)),
                    mode: from_be_i32(s.subrange(8, 12)),
                    points: Seq::new(count as nat, |i: int| decode_point(record(s, i))),
                },
            )
        }
    }
}

/// `byteorder::BigEndian::read_u64`: the number whose bytes, the most significant
/// first, are the first eight of the buffer.
#[verifier::external_body]
fn u64_from(bytes: &[u8]) -> (n: u64)
    requires
        bytes@.len() >= 8,
    ensures
        n == from_be_u64(bytes@),
{
    BigEndian::read_u64(bytes)
}

/// `byteorder::BigEndian::read_u32`: the number whose bytes, the most significant
/// first, are the first four of the buffer.
#[verifier::external_body]
fn u32_from(bytes: &[u8]) -> (n: u32)
    requires
        bytes@.len() >= 4,
    ensures
        n == from_be_u32(bytes@),
{
    BigEndian::read_u32(bytes)
}

/// `byteorder::BigEndian::read_i32`: the signed number whose bytes in two's
/// complement, the most significant first, are the first four of the buffer.
#[verifier::external_body]
fn i32_from(bytes: &[u8]) -> (n: i32)
    requires
        bytes@.len() >= 4,
    ensures
        n == from_be_i32(bytes@),
{
    BigEndian::read_i32(bytes)
}

/// Reads an index back from its bytes.
pub fn deserialize(bytes: &[u8]) -> (r: Option<DeflateIndex>)
    ensures
        match r {
            Some(index) => decode_index(bytes@) == Some(index@),
            None => decode_index(bytes@) is None,
        },
{
    if bytes.len() < HEADER_SIZE {
        return None;
    }
    let length = u64_from(slice_subrange(bytes, 0, 8));
    let mode = i32_from(slice_subrange(bytes, 8, 12));
    let count = i32_from(slice_subrange(bytes, 12, 16));
    if count < 0 {
        return None;
    }
    let expected: u64 = HEADER_SIZE as u64 + count as u64 * RECORD_SIZE as u64;
    if bytes.len() as u64 != expected {
        return None;
    }
    let count = count as usize;
    let ghost decoded = decode_index(bytes@).unwrap();
    let mut list: Vec<Point> = Vec::new();
    let mut i: usize = 0;
    while i < count
        invariant
            i <= count,
            bytes@.len() == HEADER_SIZE + count * RECORD_SIZE,
            bytes@.len() <= usize::MAX,
            decoded.points.len() == count,
            forall|k: int| 0 <= k < count ==> decoded.points[k] == decode_point(record(bytes@, k)),
            list@.len() == i,
            forall|k: int| 0 <= k < i ==> (#[trigger] list@[k])@ == decoded.points[k],
        decreases count - i,
    {
        assert(HEADER_SIZE + (i + 1) * RECORD_SIZE <= HEADER_SIZE + count * RECORD_SIZE)
            by (nonlinear_arith)
            requires
                i < count,
        ;
        assert(HEADER_SIZE + i * RECORD_SIZE + RECORD_SIZE == HEADER_SIZE + (i + 1) * RECORD_SIZE)
            by (nonlinear_arith);
        assert(0 <= i * RECORD_SIZE) by (nonlinear_arith);
        let start: usize = HEADER_SIZE + i * RECORD_SIZE;
        let entry = slice_subrange(bytes, start, start + RECORD_SIZE);
        assert(entry@ == record(bytes@, i as int));
        let point = Point {
            inn: u64_from(slice_subrange(entry, 0, 8)),
            out: u64_from(slice_subrange(entry, 8, 16)),
            bits: u32_from(slice_subrange(entry, 16, 20)),
            window: slice_to_vec(slice_subrange(entry, 20, RECORD_SIZE)),
        };
        assert(point@ == decoded.points[i as int]);
        list.push(point);
        i = i + 1;
    }
    let index = DeflateIndex { mode, list, length };
    assert(index@.points =~= decoded.points);
    Some(index)
}

/// A number is told again by its eight bytes.
pub proof fn lemma_be_u64_round_trip(n: u64)
    ensures
        from_be_u64(be_u64(n)) == n,
        be_u64(n).len() == 8,
{
    assert(((n >> 56) as u8 as u64) << 56 | ((n >> 48) as u8 as u64) << 48 | ((n >> 40) as u8 as u64)
        << 40 | ((n >> 32) as u8 as u64) << 32 | ((n >> 24) as u8 as u64) << 24 | ((n >> 16) as u8
        as u64) << 16 | ((n >> 8) as u8 as u64) << 8 | (n as u8 as u64) == n) by (bit_vector);
}

/// A number is told again by its four bytes.
pub proof fn lemma_be_u32_round_trip(n: u32)
    ensures
        from_be_u32(be_u32(n)) == n,
        be_u32(n).len() == 4,
{
    assert(((n >> 24) as u8 as u32) << 24 | ((n >> 16) as u8 as u32) << 16 | ((n >> 8) as u8 as u32)
        << 8 | (n as u8 as u32) == n) by (bit_vector);
}

/// A signed number is told again by its four bytes.
pub proof fn lemma_be_i32_round_trip(n: i32)
    ensures
        from_be_i32(be_i32(n)) == n,
        be_i32(n).len() == 4,
{
    lemma_be_u32_round_trip(n as u32);
    assert((n as u32) as i32 == n) by (bit_vector);
}

/// A point with a full window is told again by its record.
pub proof fn lemma_point_round_trip(point: PointView)
    requires
        point.window.len() == WINSIZE,
    ensures
        encode_point(point).len() == RECORD_SIZE,
        decode_point(encode_point(point)) == point,
{
    let s = encode_point(point);
    lemma_be_u64_round_trip(point.input_offset);
    lemma_be_u64_round_trip(point.output_offset);
    lemma_be_u32_round_trip(point.bit_offset);
    assert(s.subrange(0, 8) =~= be_u64(point.input_offset));
    assert(s.subrange(8, 16) =~= be_u64(point.output_offset));
    assert(s.subrange(16, 20) =~= be_u32(point.bit_offset));
    assert(s.subrange(20, RECORD_SIZE as int) =~= point.window);
}

/// Points with full windows take one record each, and the record at each place is
/// that of the point at that place.
pub proof fn lemma_encode_points_records(points: Seq<PointView>, i: int)
    requires
        forall|k: int| 0 <= k < points.len() ==> (#[trigger] points[k]).window.len() == WINSIZE,
        0 <= i < points.len(),
    ensures
        encode_points(points).len() == points.len() * RECORD_SIZE,
        encode_points(points).subrange(i * RECORD_SIZE, (i + 1) * RECORD_SIZE) == encode_point(
            points[i],
        ),
    decreases points.len(),
{
    let front = points.drop_last();
    let last = points.last();
    lemma_point_round_trip(last);
    assert(points.len() * RECORD_SIZE == front.len() * RECORD_SIZE + RECORD_SIZE)
        by (nonlinear_arith)
        requires
            points.len() == front.len() + 1,
    ;
    assert((i + 1) * RECORD_SIZE == i * RECORD_SIZE + RECORD_SIZE) by (nonlinear_arith);
    if front.len() == 0 {
        assert(encode_points(front) =~= Seq::empty());
        assert(encode_points(points) =~= encode_point(last));
        assert(encode_points(points).subrange(0, RECORD_SIZE as int) =~= encode_point(last));
    } else {
        assert forall|k: int| 0 <= k < front.len() implies (#[trigger] front[k]).window.len()
            == WINSIZE by {
            assert(front[k] == points[k]);
        }
        if i < front.len() {
            lemma_encode_points_records(front, i);
            assert((i + 1) * RECORD_SIZE <= front.len() * RECORD_SIZE) by (nonlinear_arith)
                requires
                    i < front.len(),
            ;
            assert(i * RECORD_SIZE >= 0) by (nonlinear_arith)
                requires
                    i >= 0,
            ;
            assert(encode_points(points).subrange(i * RECORD_SIZE, (i + 1) * RECORD_SIZE)
                =~= encode_points(front).subrange(i * RECORD_SIZE, (i + 1) * RECORD_SIZE));
            assert(front[i] == points[i]);
        } else {
            lemma_encode_points_records(front, 0);
            assert(encode_points(points).subrange(i * RECORD_SIZE, (i + 1) * RECORD_SIZE)
                =~= encode_point(last));
        }
    }
}

/// An index whose points have full windows, and no more of them than four bytes
/// count as a number that is not negative, is read back from its bytes as it was.
pub proof fn lemma_serialize_round_trip(index: IndexView)
    requires
        forall|k: int|
            0 <= k < index.points.len() ==> (#[trigger] index.points[k]).window.len() == WINSIZE,
        index.points.len() <= i32::MAX,
    ensures
        decode_index(encode_index(index)) == Some(index),
{
    let s = encode_index(index);
    let count = index.points.len();
    let body = encode_points(index.points);
    lemma_be_u64_round_trip(index.length);
    lemma_be_i32_round_trip(index.mode);
    lemma_be_i32_round_trip(count as i32);
    assert((count as u32) == ((count as i32) as u32)) by {
        let c = count as i32;
        assert(c == count);
        assert((c as u32) == c) by (bit_vector)
            requires
                c >= 0,
        ;
    }
    if count > 0 {
        lemma_encode_points_records(index.points, 0);
    } else {
        assert(body =~= Seq::empty());
    }
    assert(s.subrange(0, 8) =~= be_u64(index.length));
    assert(s.subrange(8, 12) =~= be_i32(index.mode));
    assert(s.subrange(12, 16) =~= be_i32(count as i32));
    let decoded = decode_index(s).unwrap();
    assert forall|i: int| 0 <= i < count implies decoded.points[i] == index.points[i] by {
        lemma_encode_points_records(index.points, i);
        lemma_point_round_trip(index.points[i]);
        assert((i + 1) * RECORD_SIZE <= count * RECORD_SIZE) by (nonlinear_arith)
            requires
                i < count,
        ;
        assert(i * RECORD_SIZE >= 0) by (nonlinear_arith)
            requires
                i >= 0,
        ;
        assert(record(s, i) =~= body.subrange(i * RECORD_SIZE, (i + 1) * RECORD_SIZE));
    }
    assert(decoded.points =~= index.points);
}

/// An index that went through its bytes and back is served by an extraction as the
/// index that it came from: the extraction sets out alike and, on the same answers of
/// the engine, runs alike.
pub proof fn lemma_reloaded_index_extracts_alike(
    index: &DeflateIndex,
    reloaded: &DeflateIndex,
    i: int,
    offset: u64,
    capacity: usize,
    content: Seq<u8>,
    answers: Seq<Answer>,
)
    requires
        index@.shaped(),
        index@.points.len() <= i32::MAX,
        decode_index(encode_index(index@)) == Some(reloaded@),
    ensures
        reloaded@ == index@,
        reloaded@.anchored() == index@.anchored(),
        reloaded.length == index.length,
        is_nearest_point(reloaded, offset, i) == is_nearest_point(index, offset, i),
        0 <= i < index.list@.len() ==> extraction_start(reloaded, i, offset, capacity, content)
            == extraction_start(index, i, offset, capacity, content),
        0 <= i < index.list@.len() ==> extraction_run(
            extraction_start(reloaded, i, offset, capacity, content),
            answers,
        ) == extraction_run(extraction_start(index, i, offset, capacity, content), answers),
{
    assert forall|k: int| 0 <= k < index@.points.len() implies (
    #[trigger] index@.points[k]).window.len() == WINSIZE by {
        assert(index@.points[k].shaped());
    }
    lemma_serialize_round_trip(index@);
    lemma_extraction_by_value(index, reloaded, i, offset, capacity, content);
}

} // verus!
