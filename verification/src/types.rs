//! The index: access points, the stream's wrapper and its uncompressed length.
use vstd::prelude::*;
use vstd::slice::slice_subrange;

verus! {

/// The size of the sliding window of DEFLATE, and of the window kept with each point.
pub const WINSIZE: usize = 32768;

/// The size of the buffers through which compressed bytes are read.
pub const CHUNK: usize = 16384;

/// The wrapper around the DEFLATE data.
#[derive(Clone, Copy, Debug, PartialEq, Eq, Structural)]
pub enum CompressionMode {
    /// No wrapper.
    Raw,
    /// A zlib header and trailer.
    Zlib,
    /// A gzip header and trailer, possibly several members in a row.
    Gzip,
}

impl CompressionMode {
    /// The number by which the inflate engine is told of the wrapper.
    pub open spec fn spec_window_bits(self) -> i32 {
        match self {
            CompressionMode::Raw => -15i32,
            CompressionMode::Zlib => 15i32,
            CompressionMode::Gzip => 31i32,
        }
    }

    /// The number by which the inflate engine is told of the wrapper.
    #[verifier::when_used_as_spec(spec_window_bits)]
    pub fn window_bits(self) -> (bits: i32)
        ensures
            bits == self.spec_window_bits(),
    {
        match self {
            CompressionMode::Raw => -15,
            CompressionMode::Zlib => 15,
            CompressionMode::Gzip => 31,
        }
    }

    /// The wrapper that a number stands for.
    pub open spec fn spec_from_window_bits(bits: i32) -> Option<CompressionMode> {
        if bits == -15 {
            Some(CompressionMode::Raw)
        } else if bits == 15 {
            Some(CompressionMode::Zlib)
        } else if bits == 31 {
            Some(CompressionMode::Gzip)
        } else {
            None
        }
    }

    /// The wrapper that a number stands for, if it stands for one.
    pub fn from_window_bits(bits: i32) -> (mode: Option<CompressionMode>)
        ensures
            mode == Self::spec_from_window_bits(bits),
    {
        if bits == -15 {
            Some(CompressionMode::Raw)
        } else if bits == 15 {
            Some(CompressionMode::Zlib)
        } else if bits == 31 {
            Some(CompressionMode::Gzip)
        } else {
            None
        }
    }
}

/// An access point as a mathematical value.
pub struct PointView {
    /// The position in the compressed stream of the byte that holds the next bit.
    pub input_offset: u64,
    /// The position reached in the uncompressed data.
    pub output_offset: u64,
    /// How many bits of the byte before `input_offset` are still to be used.
    pub bit_offset: u32,
    /// The uncompressed bytes that come before `output_offset`, oldest first.
    pub window: Seq<u8>,
}

impl PointView {
    /// A point has at most seven left-over bits and a full window.
    pub open spec fn shaped(self) -> bool {
        &&& self.bit_offset <= 7
        &&& self.window.len() == WINSIZE
    }

    /// A point from which inflation can be resumed: it has its shape, and where bits
    /// are left over there is a byte before its position to take them from.
    pub open spec fn resumable(self) -> bool {
        &&& self.shaped()
        &&& self.bit_offset != 0 ==> self.input_offset >= 1
    }
}

/// A place in the stream where inflation can be resumed.
#[derive(Debug, Clone, Default)]
pub struct Point {
    /// The position in the compressed stream of the byte that holds the next bit.
    pub inn: u64,
    /// The position reached in the uncompressed data.
    pub out: u64,
    /// How many bits of the byte before `inn` are still to be used.
    pub bits: u32,
    /// The uncompressed bytes that come before `out`, oldest first.
    pub window: Vec<u8>,
}

impl View for Point {
    type V = PointView;

    open spec fn view(&self) -> PointView {
        PointView {
            input_offset: self.inn,
            output_offset: self.out,
            bit_offset: self.bits,
            window: self.window@,
        }
    }
}

impl Point {
    /// A point at the very start, with a window of zeros.
    pub fn new() -> (point: Self)
        ensures
            point@ == (PointView {
                input_offset: 0,
                output_offset: 0,
                bit_offset: 0,
                window: Seq::new(WINSIZE as nat, |i: int| 0u8),
            }),
    {
        let point = Self { inn: 0, out: 0, bits: 0, window: vec![0u8; WINSIZE] };
        assert(point.window@ =~= Seq::new(WINSIZE as nat, |i: int| 0u8));
        point
    }
}

/// The window as it is read out of a ring: the oldest bytes are the last `left` bytes
/// of the ring, the newest are the bytes before them.
pub open spec fn unrolled_window(ring: Seq<u8>, left: int) -> Seq<u8>
    recommends
        ring.len() == WINSIZE,
        0 <= left <= WINSIZE,
{
    ring.subrange(WINSIZE - left, WINSIZE as int) + ring.subrange(0, WINSIZE - left)
}

/// An index as a mathematical value.
pub struct IndexView {
    /// The wrapper, as the number the inflate engine knows it by.
    pub mode: i32,
    /// The access points, in the order in which they were added.
    pub points: Seq<PointView>,
    /// The length of the uncompressed data.
    pub length: u64,
}

impl IndexView {
    /// The points lie at least `span` uncompressed bytes apart.
    pub open spec fn spaced(self, span: u64) -> bool {
        forall|i: int|
            0 <= i < self.points.len() - 1 ==> #[trigger] self.points[i].output_offset + span
                <= self.points[i + 1].output_offset
    }

    /// The uncompressed positions of the points grow strictly.
    pub open spec fn increasing(self) -> bool {
        forall|i: int, j: int|
            0 <= i < j < self.points.len() ==> #[trigger] self.points[i].output_offset
                < #[trigger] self.points[j].output_offset
    }

    /// The compressed positions of the points never go back.
    pub open spec fn input_ordered(self) -> bool {
        forall|i: int, j: int|
            0 <= i <= j < self.points.len() ==> #[trigger] self.points[i].input_offset
                <= #[trigger] self.points[j].input_offset
    }

    /// Every point has its shape.
    pub open spec fn shaped(self) -> bool {
        forall|i: int| 0 <= i < self.points.len() ==> (#[trigger] self.points[i]).shaped()
    }

    /// Every point can be resumed from.
    pub open spec fn resumable(self) -> bool {
        forall|i: int| 0 <= i < self.points.len() ==> (#[trigger] self.points[i]).resumable()
    }

    /// There is a point, and the first one stands at the head of the uncompressed data.
    pub open spec fn anchored(self) -> bool {
        self.points.len() > 0 && self.points[0].output_offset == 0
    }

    /// What holds of an index that was built over a whole stream.
    pub open spec fn well_formed(self) -> bool {
        &&& CompressionMode::spec_from_window_bits(self.mode) is Some
        &&& self.anchored()
        &&& self.increasing()
        &&& self.resumable()
    }
}

/// In an index whose points lie at least `span` apart, any two points lie at least
/// `span` apart, however many stand between them.
pub proof fn lemma_spaced_apart(index: IndexView, span: u64, i: int, j: int)
    requires
        index.spaced(span),
        0 <= i < j < index.points.len(),
    ensures
        index.points[i].output_offset + span <= index.points[j].output_offset,
    decreases j - i,
{
    if j == i + 1 {
        assert(index.points[i].output_offset + span <= index.points[i + 1].output_offset);
    } else {
        lemma_spaced_apart(index, span, i, j - 1);
        assert(index.points[j - 1].output_offset + span <= index.points[j - 1
            + 1].output_offset);
    }
}

/// Points that lie at least a span of one byte or more apart stand at strictly
/// growing uncompressed positions.
pub proof fn lemma_spaced_increasing(index: IndexView, span: u64)
    requires
        index.spaced(span),
        span > 0,
    ensures
        index.increasing(),
{
    assert forall|i: int, j: int| 0 <= i < j < index.points.len() implies (
    #[trigger] index.points[i]).output_offset < (#[trigger] index.points[j]).output_offset by {
        lemma_spaced_apart(index, span, i, j);
    }
}

/// The access points of a stream, with its wrapper and its uncompressed length.
#[derive(Debug, Clone, Default)]
pub struct DeflateIndex {
    /// The wrapper, as the number the inflate engine knows it by; 0 while unknown.
    pub mode: i32,
    /// The access points.
    pub list: Vec<Point>,
    /// The length of the uncompressed data.
    pub length: u64,
}

impl View for DeflateIndex {
    type V = IndexView;

    open spec fn view(&self) -> IndexView {
        IndexView {
            mode: self.mode,
            points: Seq::new(self.list@.len(), |i: int| self.list@[i]@),
            length: self.length,
        }
    }
}

impl DeflateIndex {
    /// An index without points, of an unknown wrapper and length 0.
    pub fn new() -> (index: Self)
        ensures
            index@ == (IndexView { mode: 0, points: Seq::empty(), length: 0 }),
    {
        let index = Self { mode: 0, list: vec![], length: 0 };
        assert(index@.points =~= Seq::empty());
        index
    }

    /// Adds a point at the end.
    ///
    /// `window` is the ring through which the output was rotated and `left` the number
    /// of bytes that were still free at its end: the ring is unrolled so that the
    /// point's window starts with the oldest byte.
    pub fn add_point(&mut self, bits: u32, inn: u64, out: u64, left: usize, window: &[u8])
        requires
            left <= WINSIZE,
            window@.len() == WINSIZE,
        ensures
            final(self)@ == (IndexView {
                points: old(self)@.points.push(
                    PointView {
                        input_offset: inn,
                        output_offset: out,
                        bit_offset: bits,
                        window: unrolled_window(window@, left as int),
                    },
                ),
                ..old(self)@
            }),
    {
        let mut unrolled: Vec<u8> = Vec::with_capacity(WINSIZE);
        unrolled.extend_from_slice(slice_subrange(window, WINSIZE - left, WINSIZE));
        unrolled.extend_from_slice(slice_subrange(window, 0, WINSIZE - left));
        assert(unrolled@ =~= unrolled_window(window@, left as int));
        let point = Point { inn, out, bits, window: unrolled };
        let ghost added = point@;
        self.list.push(point);
        assert(self@.points =~= old(self)@.points.push(added));
    }
}

} // verus!
