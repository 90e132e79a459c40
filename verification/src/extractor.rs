//! Extraction: reading uncompressed bytes from an offset on, through the index.
use crate::engine::{agrees, Answer, Outcome, Output, Request, Step};
use crate::error::Error;
use crate::pushback::PushbackReader;
use crate::source::{bytes_from, shorter, ByteSource, SeekFrom};
use crate::types::{DeflateIndex, CHUNK, WINSIZE};
use crate::zlib::{Z_BLOCK, Z_NO_FLUSH, Z_OK, Z_STREAM_END};
use crate::zran::{find_point, fread, is_eof, is_nearest_point, read_exact, refilled};
use vstd::prelude::*;
use vstd::slice::slice_subrange;

verus! {

/// What an extraction waits for.
#[derive(Clone, Copy, Debug, PartialEq, Eq, Structural)]
pub enum Stage {
    /// For the session to be started.
    Opening,
    /// For the left-over bits to be injected.
    Priming,
    /// For the window of the access point to be installed as the dictionary.
    Installing,
    /// For an inflate step that skips or delivers data.
    Running,
    /// For the reset that prepares the engine for the header of the next gzip member.
    Rearming,
    /// For an inflate step that reads over the header of a gzip member.
    Skipping,
    /// For the reset that takes the engine back to raw DEFLATE after such a header.
    Resuming,
    /// For nothing: the extraction is over.
    Finished,
}

/// An extraction as a mathematical value.
pub struct ExtractionView {
    /// What the extraction waits for.
    pub stage: Stage,
    /// Whether the stream is a gzip stream, in which members may follow one another.
    pub gzip: bool,
    /// The place in the index of the access point that the extraction sets out from.
    pub point: usize,
    /// How many bits are left over before that point.
    pub bits: u32,
    /// Those bits, in the low bits of this value; 0 where there are none.
    pub value: i32,
    /// How many uncompressed bytes are still to be thrown away before the offset.
    pub skip: u64,
    /// How many bytes are still to be delivered.
    pub left: usize,
    /// How many bytes were asked for.
    pub total: usize,
    /// The compressed bytes read from the source that the engine has not consumed.
    pub pending: Seq<u8>,
    /// The output space that the last inflate request offered.
    pub offered: u32,
    /// The engine's last return code that counts for the result.
    pub ret: i32,
}

impl ExtractionView {
    /// Whether `answer` answers what the extraction asked for, with counts that did
    /// not grow.
    pub open spec fn accepts(self, answer: Answer) -> bool {
        match self.stage {
            Stage::Opening => answer is Opened,
            Stage::Priming => answer is Primed,
            Stage::Installing => answer is Installed,
            Stage::Running | Stage::Skipping => (answer matches Answer::Inflated(o)
                && o.avail_in <= self.pending.len() && o.avail_out <= self.offered),
            Stage::Rearming | Stage::Resuming => answer is Reset,
            Stage::Finished => false,
        }
    }

    /// What holds from one request to the next: the engine is kept inside the buffer
    /// that it writes to, and the bytes to skip and to deliver only get fewer.
    pub open spec fn moves_on_to(self, later: ExtractionView, request: Request) -> bool {
        &&& request.within(self.total as int)
        &&& later.total == self.total
        &&& later.left <= self.left
        &&& later.skip <= self.skip
    }

    /// What the extraction returns once it is over: the number of bytes delivered, or
    /// the engine's failure.
    pub open spec fn result(self) -> Result<usize, Error>
        recommends
            self.stage == Stage::Finished,
    {
        if self.ret == Z_OK || self.ret == Z_STREAM_END {
            Ok((self.total - self.left) as usize)
        } else {
            Err(Error::Inflate(self.ret))
        }
    }
}

/// A round of skipping or delivering: output goes to the discard buffer while bytes
/// are to be skipped, at most a window at a time, and to the caller's buffer after
/// what was delivered before, once the offset is reached. Input is read where the
/// engine has none left.
pub open spec fn round(v: ExtractionView, upcoming: Seq<u8>) -> Step<ExtractionView> {
    let offered = if v.skip != 0 {
        shorter(v.skip as int, WINSIZE as int) as u32
    } else {
        shorter(v.left as int, u32::MAX as int) as u32
    };
    let output = if v.skip != 0 {
        Output::Discard { len: offered }
    } else {
        Output::Deliver { at: (v.total - v.left) as usize, len: offered }
    };
    let (pending, rest) = refilled(v.pending, upcoming);
    Step::Next {
        state: ExtractionView { stage: Stage::Running, offered, pending, ..v },
        upcoming: rest,
        request: Request::Inflate { flush: Z_NO_FLUSH, output },
        reads: v.pending.len() == 0,
    }
}

/// After a round: another one while the engine goes on and bytes are still wanted, and
/// the end otherwise.
pub open spec fn settle(v: ExtractionView, upcoming: Seq<u8>) -> Step<ExtractionView> {
    if v.ret == Z_OK && v.left != 0 {
        round(v, upcoming)
    } else {
        Step::Next {
            state: ExtractionView { stage: Stage::Finished, ..v },
            upcoming,
            request: Request::Finish,
            reads: false,
        }
    }
}

/// A step over the header of a gzip member: in block mode, into the discard buffer.
pub open spec fn header_round(v: ExtractionView, upcoming: Seq<u8>) -> Step<ExtractionView> {
    let (pending, rest) = refilled(v.pending, upcoming);
    Step::Next {
        state: ExtractionView { stage: Stage::Skipping, offered: WINSIZE as u32, pending, ..v },
        upcoming: rest,
        request: Request::Inflate {
            flush: Z_BLOCK,
            output: Output::Discard { len: WINSIZE as u32 },
        },
        reads: v.pending.len() == 0,
    }
}

/// After the trailer of a gzip member: where anything follows, the engine is reset to
/// read the next member's header. The source is asked whether it has ended only where
/// no input is pending.
pub open spec fn next_member(v: ExtractionView, upcoming: Seq<u8>) -> Step<ExtractionView> {
    if v.pending.len() != 0 || upcoming.len() != 0 {
        Step::Next {
            state: ExtractionView { stage: Stage::Rearming, ..v },
            upcoming,
            request: Request::Reset { window_bits: 31 },
            reads: v.pending.len() == 0,
        }
    } else {
        settle(v, upcoming).reading()
    }
}

/// At the end of a gzip member: the eight bytes of its trailer are dropped, from the
/// pending input as far as it reaches and from the source for the rest.
pub open spec fn member_end(v: ExtractionView, upcoming: Seq<u8>) -> Step<ExtractionView> {
    if v.pending.len() >= 8 {
        next_member(ExtractionView { pending: v.pending.skip(8), ..v }, upcoming)
    } else {
        let deficit = 8 - v.pending.len();
        if upcoming.len() < deficit {
            Step::Fail { error: Error::UnexpectedEof, reads: true }
        } else {
            next_member(
                ExtractionView { pending: Seq::empty(), ..v },
                upcoming.skip(deficit),
            ).reading()
        }
    }
}

/// After an inflate step of a round: what came out is counted against the bytes to
/// skip or, once none are left, against the bytes to deliver.
pub open spec fn round_done(v: ExtractionView, upcoming: Seq<u8>, o: Outcome) -> Step<
    ExtractionView,
> {
    let got = v.offered - o.avail_out;
    let counted = ExtractionView {
        skip: if v.skip != 0 {
            (v.skip - got) as u64
        } else {
            v.skip
        },
        left: if v.skip != 0 {
            v.left
        } else {
            (v.left - got) as usize
        },
        pending: v.pending.skip(v.pending.len() - o.avail_in),
        ret: o.ret,
        ..v
    };
    if o.ret == Z_STREAM_END && v.gzip {
        member_end(counted, upcoming)
    } else {
        settle(counted, upcoming)
    }
}

/// Whether the engine stands at the end of a block or of a header.
pub open spec fn at_boundary(data_type: i32) -> bool {
    data_type & 0x80 != 0
}

/// After an inflate step over a member's header: a failure ends the extraction with
/// the engine's code; at the end of the header the engine is reset to raw DEFLATE;
/// otherwise the header goes on.
pub open spec fn header_done(v: ExtractionView, upcoming: Seq<u8>, o: Outcome) -> Step<
    ExtractionView,
> {
    let read = ExtractionView { pending: v.pending.skip(v.pending.len() - o.avail_in), ..v };
    if o.ret != Z_OK {
        Step::Next {
            state: ExtractionView { stage: Stage::Finished, ret: o.ret, ..read },
            upcoming,
            request: Request::Finish,
            reads: false,
        }
    } else if at_boundary(o.data_type) {
        Step::Next {
            state: ExtractionView { stage: Stage::Resuming, ..read },
            upcoming,
            request: Request::Reset { window_bits: -15i32 },
            reads: false,
        }
    } else {
        header_round(read, upcoming)
    }
}

/// The window of the access point is to be installed as the dictionary, whether bits
/// are left over or not.
pub open spec fn install(v: ExtractionView, upcoming: Seq<u8>) -> Step<ExtractionView> {
    Step::Next {
        state: ExtractionView { stage: Stage::Installing, ..v },
        upcoming,
        request: Request::SetDictionary { point: v.point },
        reads: false,
    }
}

/// What an extraction does with an answer.
pub open spec fn extraction_step(v: ExtractionView, upcoming: Seq<u8>, answer: Answer) -> Step<
    ExtractionView,
> {
    match answer {
        Answer::Opened(ret) => if ret != Z_OK {
            Step::Fail { error: Error::Init(ret), reads: false }
        } else if v.bits != 0 {
            Step::Next {
                state: ExtractionView { stage: Stage::Priming, ..v },
                upcoming,
                request: Request::Prime { bits: v.bits, value: v.value },
                reads: false,
            }
        } else {
            install(v, upcoming)
        },
        // What the engine says of the bits and of the dictionary is not looked at.
        Answer::Primed(_) => install(v, upcoming),
        Answer::Installed(_) => round(v, upcoming),
        Answer::Inflated(o) => if v.stage == Stage::Running {
            round_done(v, upcoming, o)
        } else {
            header_done(v, upcoming, o)
        },
        Answer::Reset(_) => if v.stage == Stage::Rearming {
            header_round(v, upcoming)
        } else {
            settle(ExtractionView { ret: Z_OK, ..v }, upcoming)
        },
    }
}

/// An extraction as far as a run of answers takes it: each answer is taken in the
/// state that the answers before it led to; a failure ends the extraction.
pub open spec fn extraction_run(start: Step<ExtractionView>, answers: Seq<Answer>) -> Step<
    ExtractionView,
>
    decreases answers.len(),
{
    if answers.len() == 0 {
        start
    } else {
        match extraction_run(start, answers.drop_last()) {
            Step::Next { state, upcoming, .. } => extraction_step(state, upcoming, answers.last()),
            failed => failed,
        }
    }
}

/// A step of an extraction, taken after a run of answers, is the run that is longer
/// by the answer of the step.
pub proof fn lemma_extraction_goes_on(
    start: Step<ExtractionView>,
    answers: Seq<Answer>,
    answer: Answer,
)
    ensures
        extraction_run(start, answers) matches Step::Next { state, upcoming, .. }
            ==> extraction_run(start, answers.push(answer)) == extraction_step(
            state,
            upcoming,
            answer,
        ),
{
    let longer = answers.push(answer);
    assert(longer.drop_last() =~= answers);
    assert(longer.last() == answer);
}

/// The bits left over before an access point: the top `bits` bits of the byte before it.
pub open spec fn residue(byte: u8, bits: u32) -> i32
    recommends
        1 <= bits <= 7,
{
    (byte as i32) >> ((8 - bits) as i32)
}

/// How an extraction sets out from the access point at place `i`: the source is moved
/// to the point's position, or one byte before it where bits are left over, which are
/// then read; the engine is to start on raw DEFLATE.
pub open spec fn extraction_start(
    index: &DeflateIndex,
    i: int,
    offset: u64,
    capacity: usize,
    content: Seq<u8>,
) -> Step<ExtractionView> {
    let point = index.list@[i]@;
    let at = if point.bit_offset != 0 {
        point.input_offset - 1
    } else {
        point.input_offset as int
    };
    let rest = bytes_from(content, at as nat);
    if !point.resumable() {
        Step::Fail { error: Error::InvalidIndex, reads: false }
    } else if point.bit_offset != 0 && rest.len() == 0 {
        Step::Fail { error: Error::UnexpectedEof, reads: true }
    } else {
        Step::Next {
            reads: true,
            state: ExtractionView {
                stage: Stage::Opening,
                gzip: index.mode == 31,
                point: i as usize,
                bits: point.bit_offset,
                value: if point.bit_offset != 0 {
                    residue(rest[0], point.bit_offset)
                } else {
                    0
                },
                skip: (offset - point.output_offset) as u64,
                left: capacity,
                total: capacity,
                pending: Seq::empty(),
                offered: 0,
                ret: Z_OK,
            },
            upcoming: if point.bit_offset != 0 {
                rest.skip(1)
            } else {
                rest
            },
            request: Request::Init { window_bits: -15i32 },
        }
    }
}

/// An extraction that has nothing to do: it stands at the end of the data.
pub open spec fn nothing_to_extract(capacity: usize) -> ExtractionView {
    ExtractionView {
        stage: Stage::Finished,
        gzip: false,
        point: 0,
        bits: 0,
        value: 0,
        skip: 0,
        left: capacity,
        total: capacity,
        pending: Seq::empty(),
        offered: 0,
        ret: Z_STREAM_END,
    }
}

/// The state of one extraction between two calls of the inflate engine.
pub struct Extraction {
    stage: Stage,
    gzip: bool,
    point: usize,
    bits: u32,
    value: i32,
    skip: u64,
    left: usize,
    total: usize,
    input: Vec<u8>,
    in_pos: usize,
    in_end: usize,
    offered: u32,
    ret: i32,
}

impl View for Extraction {
    type V = ExtractionView;

    closed spec fn view(&self) -> ExtractionView {
        ExtractionView {
            stage: self.stage,
            gzip: self.gzip,
            point: self.point,
            bits: self.bits,
            value: self.value,
            skip: self.skip,
            left: self.left,
            total: self.total,
            pending: self.input@.subrange(self.in_pos as int, self.in_end as int),
            offered: self.offered,
            ret: self.ret,
        }
    }
}

/// What setting out on an extraction comes to.
///
/// An index without points, or whose first point does not stand at offset 0, is
/// refused. At or after the end of the data there is nothing to do. In both cases the
/// source is left alone. Otherwise the extraction sets out from an access point that
/// is nearest to the offset.
pub open spec fn begun<R: ByteSource>(
    before: PushbackReader<R>,
    after: PushbackReader<R>,
    index: &DeflateIndex,
    offset: u64,
    capacity: usize,
    r: Result<(Extraction, Request), Error>,
) -> bool {
    &&& after.source().content() == before.source().content()
    &&& before.reliable() ==> after.reliable()
    &&& r matches Ok((extraction, _)) ==> extraction.wf()
    &&& (r matches Err(Error::InvalidIndex)) ==> after == before
    &&& !index@.anchored() ==> after == before && (r matches Err(Error::InvalidIndex))
    &&& index@.anchored() && offset >= index.length ==> after == before && (r matches Ok(
        (extraction, request),
    ) && request == Request::Finish && extraction@ == nothing_to_extract(capacity)
        && extraction@.result() == Ok::<usize, Error>(0))
    &&& index@.anchored() && offset < index.length ==> exists|i: int|
        {
            &&& is_nearest_point(index, offset, i)
            &&& match r {
                Ok((extraction, request)) => (#[trigger] extraction_start(
                    index,
                    i,
                    offset,
                    capacity,
                    before.source().content(),
                )).leads_to(extraction@, after.upcoming(), request),
                Err(error) => extraction_start(
                    index,
                    i,
                    offset,
                    capacity,
                    before.source().content(),
                ).fails_with(error, before.reliable()),
            }
        }
}

/// In an index whose points stand at strictly growing positions only one point is
/// nearest to an offset: the last of those that are not after it.
pub proof fn lemma_nearest_point_is_the_last(index: &DeflateIndex, offset: u64, i: int, j: int)
    requires
        index@.increasing(),
        is_nearest_point(index, offset, i),
        0 <= j < index.list@.len(),
        index.list@[j].out <= offset,
    ensures
        j <= i,
{
    if j > i {
        assert(index@.points[i + 1] == index.list@[i + 1]@);
        assert(index@.points[j] == index.list@[j]@);
        if j > i + 1 {
            assert(index@.points[i + 1].output_offset < index@.points[j].output_offset);
        }
    }
}

/// Setting out on an extraction never refuses an index that is well formed.
pub proof fn lemma_sound_index_is_served<R: ByteSource>(
    before: PushbackReader<R>,
    after: PushbackReader<R>,
    index: &DeflateIndex,
    offset: u64,
    capacity: usize,
    r: Result<(Extraction, Request), Error>,
)
    requires
        begun(before, after, index, offset, capacity, r),
        index@.well_formed(),
    ensures
        !(r matches Err(Error::InvalidIndex)),
{
    if offset < index.length {
        let i = choose|i: int|
            {
                &&& is_nearest_point(index, offset, i)
                &&& match r {
                    Ok((extraction, request)) => (#[trigger] extraction_start(
                        index,
                        i,
                        offset,
                        capacity,
                        before.source().content(),
                    )).leads_to(extraction@, after.upcoming(), request),
                    Err(error) => extraction_start(
                        index,
                        i,
                        offset,
                        capacity,
                        before.source().content(),
                    ).fails_with(error, before.reliable()),
                }
            };
        assert(index@.points[i].resumable());
        assert(index@.points[i] == index.list@[i]@);
    }
}

/// How an extraction sets out depends on the index only by its value: two indexes
/// with the same mode, length and points are served alike.
pub proof fn lemma_extraction_by_value(
    index: &DeflateIndex,
    other: &DeflateIndex,
    i: int,
    offset: u64,
    capacity: usize,
    content: Seq<u8>,
)
    requires
        index@ == other@,
    ensures
        index@.anchored() == other@.anchored(),
        index.length == other.length,
        is_nearest_point(index, offset, i) == is_nearest_point(other, offset, i),
        0 <= i < index.list@.len() ==> extraction_start(index, i, offset, capacity, content)
            == extraction_start(other, i, offset, capacity, content),
{
    assert(index.list@.len() == index@.points.len());
    assert(other.list@.len() == other@.points.len());
    if 0 <= i < index.list@.len() {
        assert(index@.points[i] == index.list@[i]@);
        assert(other@.points[i] == other.list@[i]@);
        if i + 1 < index.list@.len() {
            assert(index@.points[i + 1] == index.list@[i + 1]@);
            assert(other@.points[i + 1] == other.list@[i + 1]@);
        }
    }
}

impl Extraction {
    /// The extraction holds a full input buffer with its pending bytes in it, and has
    /// not delivered more than was asked for.
    pub closed spec fn wf(&self) -> bool {
        &&& self.input@.len() == CHUNK
        &&& self.in_pos <= self.in_end <= CHUNK
        &&& self.left <= self.total
        &&& self.stage == Stage::Finished && self.ret == Z_OK ==> self.left == 0
        &&& (self.stage == Stage::Running ==> if self.skip != 0 {
            self.offered <= self.skip
        } else {
            self.offered <= self.left
        })
    }

    /// Sets out to extract `capacity` bytes from `offset` on.
    ///
    /// An index without points, or whose first point does not stand at offset 0, is
    /// refused, and so is a point to resume from that is malformed. At or after the
    /// end of the data there is nothing to do and the source is left alone. Otherwise
    /// the nearest access point at or before `offset` is found and the source is moved
    /// there.
    pub fn begin<R: ByteSource>(
        reader: &mut PushbackReader<R>,
        index: &DeflateIndex,
        offset: u64,
        capacity: usize,
    ) -> (r: Result<(Extraction, Request), Error>)
        ensures
            begun(*old(reader), *final(reader), index, offset, capacity, r),
    {
        if index.list.len() == 0 || index.list[0].out != 0 {
            return Err(Error::InvalidIndex);
        }
        assert(index@.points[0] == index.list@[0]@);
        let mut extraction = Extraction {
            stage: Stage::Finished,
            gzip: false,
            point: 0,
            bits: 0,
            value: 0,
            skip: 0,
            left: capacity,
            total: capacity,
            input: vec![0u8; CHUNK],
            in_pos: 0,
            in_end: 0,
            offered: 0,
            ret: Z_STREAM_END,
        };
        assert(extraction@.pending =~= Seq::empty());
        if offset >= index.length {
            return Ok((extraction, Request::Finish));
        }
        let i = find_point(index, offset);
        let point = &index.list[i];
        let ghost step = extraction_start(
            index,
            i as int,
            offset,
            capacity,
            reader.source().content(),
        );
        if point.bits > 7 || (point.bits != 0 && point.inn == 0) || point.window.len() != WINSIZE {
            assert(step.fails_with(Error::InvalidIndex, reader.reliable()));
            return Err(Error::InvalidIndex);
        }
        let at: u64 = if point.bits != 0 {
            point.inn - 1
        } else {
            point.inn
        };
        match reader.seek(SeekFrom::Start(at)) {
            Ok(_) => {},
            Err(e) => {
                return Err(e);
            },
        }
        let ghost rest = bytes_from(reader.source().content(), at as nat);
        assert(reader.upcoming() == rest);
        let mut value: i32 = 0;
        if point.bits != 0 {
            let mut byte: Vec<u8> = vec![0u8; 1];
            match read_exact(reader, byte.as_mut_slice()) {
                Ok(()) => {},
                Err(e) => {
                    return Err(e);
                },
            }
            assert(byte@[0] == rest.take(1)[0]);
            let ch: i32 = byte[0] as i32;
            let shift: i32 = 8 - point.bits as i32;
            value = ch >> shift;
        }
        extraction.stage = Stage::Opening;
        extraction.ret = Z_OK;
        extraction.gzip = index.mode == 31;
        extraction.point = i;
        extraction.bits = point.bits;
        extraction.value = value;
        extraction.skip = offset - point.out;
        let request = Request::Init { window_bits: -15 };
        assert(extraction@.pending =~= Seq::empty());
        assert(step.leads_to(extraction@, reader.upcoming(), request));
        Ok((extraction, request))
    }

    /// Whether `answer` answers what this extraction asked for.
    pub fn accepts(&self, answer: &Answer) -> (yes: bool)
        requires
            self.wf(),
        ensures
            yes == self@.accepts(*answer),
    {
        match self.stage {
            Stage::Opening => match answer {
                Answer::Opened(_) => true,
                _ => false,
            },
            Stage::Priming => match answer {
                Answer::Primed(_) => true,
                _ => false,
            },
            Stage::Installing => match answer {
                Answer::Installed(_) => true,
                _ => false,
            },
            Stage::Running | Stage::Skipping => match answer {
                Answer::Inflated(o) => o.avail_in as usize <= self.in_end - self.in_pos
                    && o.avail_out <= self.offered,
                _ => false,
            },
            Stage::Rearming | Stage::Resuming => match answer {
                Answer::Reset(_) => true,
                _ => false,
            },
            Stage::Finished => false,
        }
    }

    /// The compressed bytes that the engine is to read next.
    pub fn pending_input(&self) -> (bytes: &[u8])
        requires
            self.wf(),
        ensures
            bytes@ == self@.pending,
            bytes@.len() <= CHUNK,
    {
        slice_subrange(self.input.as_slice(), self.in_pos, self.in_end)
    }

    /// Whether the extraction is over.
    pub fn is_finished(&self) -> (yes: bool)
        ensures
            yes == (self@.stage == Stage::Finished),
    {
        match self.stage {
            Stage::Finished => true,
            _ => false,
        }
    }

    /// The number of bytes delivered, or the failure of the engine that ended the
    /// extraction. There is a result only once the extraction is over. Fewer bytes
    /// than were asked for are delivered only where the data has ended.
    pub fn result(&self) -> (r: Result<usize, Error>)
        requires
            self.wf(),
            self@.stage == Stage::Finished,
        ensures
            r == self@.result(),
            r matches Ok(count) ==> count <= self@.total,
            r matches Ok(count) ==> count < self@.total ==> self@.ret == Z_STREAM_END,
    {
        if self.ret == Z_OK || self.ret == Z_STREAM_END {
            Ok(self.total - self.left)
        } else {
            Err(Error::Inflate(self.ret))
        }
    }

    /// Takes the engine's answer and says what the engine is to do next.
    pub fn advance<R: ByteSource>(&mut self, reader: &mut PushbackReader<R>, answer: Answer) -> (r:
        Result<Request, Error>)
        requires
            old(self).wf(),
            old(self)@.accepts(answer),
        ensures
            final(self).wf(),
            final(reader).source().content() == old(reader).source().content(),
            agrees(
                r,
                final(self)@,
                final(reader).upcoming(),
                extraction_step(old(self)@, old(reader).upcoming(), answer),
                old(reader).reliable(),
            ),
            old(reader).reliable() ==> final(reader).reliable(),
            r matches Ok(request) ==> old(self)@.moves_on_to(final(self)@, request),
    {
        match answer {
            Answer::Opened(ret) => {
                if ret != Z_OK {
                    Err(Error::Init(ret))
                } else if self.bits != 0 {
                    self.stage = Stage::Priming;
                    Ok(Request::Prime { bits: self.bits, value: self.value })
                } else {
                    self.stage = Stage::Installing;
                    Ok(Request::SetDictionary { point: self.point })
                }
            },
            Answer::Primed(_) => {
                self.stage = Stage::Installing;
                Ok(Request::SetDictionary { point: self.point })
            },
            Answer::Installed(_) => self.start_round(reader),
            Answer::Inflated(o) => {
                match self.stage {
                    Stage::Running => self.finish_round(reader, o),
                    _ => self.finish_header_step(reader, o),
                }
            },
            Answer::Reset(_) => {
                match self.stage {
                    Stage::Rearming => self.start_header_step(reader),
                    _ => {
                        self.ret = Z_OK;
                        self.settle(reader)
                    },
                }
            },
        }
    }

    /// Reads more input where the engine has none left.
    fn refill<R: ByteSource>(&mut self, reader: &mut PushbackReader<R>) -> (r: Result<(), Error>)
        requires
            old(self).wf(),
        ensures
            final(self).wf(),
            final(reader).source().content() == old(reader).source().content(),
            r matches Err(e) ==> e.from_source() && old(self)@.pending.len() == 0,
            old(reader).reliable() ==> final(reader).reliable() && r is Ok,
            r is Ok ==> (final(self)@.pending, final(reader).upcoming()) == refilled(
                old(self)@.pending,
                old(reader).upcoming(),
            ),
            final(self)@ == (ExtractionView { pending: final(self)@.pending, ..old(self)@ }),
    {
        if self.in_pos == self.in_end {
            self.in_pos = 0;
            self.in_end = 0;
            match fread(reader, self.input.as_mut_slice(), CHUNK) {
                Ok(n) => {
                    self.in_end = n;
                    assert(self@.pending =~= old(reader).upcoming().take(n as int));
                    Ok(())
                },
                Err(e) => Err(e),
            }
        } else {
            Ok(())
        }
    }

    /// Asks for a round of skipping or delivering.
    fn start_round<R: ByteSource>(&mut self, reader: &mut PushbackReader<R>) -> (r: Result<
        Request,
        Error,
    >)
        requires
            old(self).wf(),
        ensures
            final(self).wf(),
            final(reader).source().content() == old(reader).source().content(),
            agrees(
                r,
                final(self)@,
                final(reader).upcoming(),
                round(old(self)@, old(reader).upcoming()),
                old(reader).reliable(),
            ),
            old(reader).reliable() ==> final(reader).reliable(),
            r matches Ok(request) ==> old(self)@.moves_on_to(final(self)@, request),
    {
        let output = if self.skip != 0 {
            self.offered = if self.skip < WINSIZE as u64 {
                self.skip as u32
            } else {
                WINSIZE as u32
            };
            Output::Discard { len: self.offered }
        } else {
            self.offered = if self.left < u32::MAX as usize {
                self.left as u32
            } else {
                u32::MAX
            };
            Output::Deliver { at: self.total - self.left, len: self.offered }
        };
        self.stage = Stage::Running;
        match self.refill(reader) {
            Ok(()) => Ok(Request::Inflate { flush: Z_NO_FLUSH, output }),
            Err(e) => Err(e),
        }
    }

    /// Goes on with another round, or ends the extraction.
    fn settle<R: ByteSource>(&mut self, reader: &mut PushbackReader<R>) -> (r: Result<
        Request,
        Error,
    >)
        requires
            old(self).wf(),
        ensures
            final(self).wf(),
            final(reader).source().content() == old(reader).source().content(),
            agrees(
                r,
                final(self)@,
                final(reader).upcoming(),
                settle(old(self)@, old(reader).upcoming()),
                old(reader).reliable(),
            ),
            old(reader).reliable() ==> final(reader).reliable(),
            r matches Ok(request) ==> old(self)@.moves_on_to(final(self)@, request),
    {
        if self.ret == Z_OK && self.left != 0 {
            self.start_round(reader)
        } else {
            self.stage = Stage::Finished;
            Ok(Request::Finish)
        }
    }

    /// Asks for a step over the header of a gzip member.
    fn start_header_step<R: ByteSource>(&mut self, reader: &mut PushbackReader<R>) -> (r: Result<
        Request,
        Error,
    >)
        requires
            old(self).wf(),
        ensures
            final(self).wf(),
            final(reader).source().content() == old(reader).source().content(),
            agrees(
                r,
                final(self)@,
                final(reader).upcoming(),
                header_round(old(self)@, old(reader).upcoming()),
                old(reader).reliable(),
            ),
            old(reader).reliable() ==> final(reader).reliable(),
            r matches Ok(request) ==> old(self)@.moves_on_to(final(self)@, request),
    {
        self.stage = Stage::Skipping;
        self.offered = WINSIZE as u32;
        match self.refill(reader) {
            Ok(()) => Ok(
                Request::Inflate { flush: Z_BLOCK, output: Output::Discard { len: WINSIZE as u32 } },
            ),
            Err(e) => Err(e),
        }
    }

    /// Counts what a round gave.
    fn finish_round<R: ByteSource>(
        &mut self,
        reader: &mut PushbackReader<R>,
        o: Outcome,
    ) -> (r: Result<Request, Error>)
        requires
            old(self).wf(),
            old(self)@.stage == Stage::Running,
            old(self)@.accepts(Answer::Inflated(o)),
        ensures
            final(self).wf(),
            final(reader).source().content() == old(reader).source().content(),
            agrees(
                r,
                final(self)@,
                final(reader).upcoming(),
                round_done(old(self)@, old(reader).upcoming(), o),
                old(reader).reliable(),
            ),
            old(reader).reliable() ==> final(reader).reliable(),
            r matches Ok(request) ==> old(self)@.moves_on_to(final(self)@, request),
    {
        let got: u32 = self.offered - o.avail_out;
        if self.skip != 0 {
            self.skip = self.skip - got as u64;
        } else {
            self.left = self.left - got as usize;
        }
        self.in_pos = self.in_end - o.avail_in as usize;
        self.ret = o.ret;
        self.stage = Stage::Resuming;
        assert(self@.pending =~= old(self)@.pending.skip(old(self)@.pending.len() - o.avail_in));
        if o.ret == Z_STREAM_END && self.gzip {
            self.finish_member(reader)
        } else {
            self.settle(reader)
        }
    }

    /// Drops the trailer of a gzip member and looks for another member.
    fn finish_member<R: ByteSource>(&mut self, reader: &mut PushbackReader<R>) -> (r: Result<
        Request,
        Error,
    >)
        requires
            old(self).wf(),
            old(self)@.stage == Stage::Resuming,
        ensures
            final(self).wf(),
            final(reader).source().content() == old(reader).source().content(),
            agrees(
                r,
                final(self)@,
                final(reader).upcoming(),
                member_end(old(self)@, old(reader).upcoming()),
                old(reader).reliable(),
            ),
            old(reader).reliable() ==> final(reader).reliable(),
            r matches Ok(request) ==> old(self)@.moves_on_to(final(self)@, request),
    {
        let avail_in: usize = self.in_end - self.in_pos;
        if avail_in >= 8 {
            self.in_pos = self.in_pos + 8;
            assert(self@.pending =~= old(self)@.pending.skip(8));
        } else {
            let deficit: usize = 8 - avail_in;
            self.in_pos = self.in_end;
            assert(self@.pending =~= Seq::empty());
            let mut trailer: Vec<u8> = vec![0u8; deficit];
            match read_exact(reader, trailer.as_mut_slice()) {
                Ok(()) => {},
                Err(e) => {
                    return Err(e);
                },
            }
        }
        let more = if self.in_end - self.in_pos != 0 {
            true
        } else {
            match is_eof(reader) {
                Ok(ended) => !ended,
                Err(e) => {
                    return Err(e);
                },
            }
        };
        if more {
            self.stage = Stage::Rearming;
            Ok(Request::Reset { window_bits: 31 })
        } else {
            self.settle(reader)
        }
    }

    /// Looks at what a step over a member's header gave.
    fn finish_header_step<R: ByteSource>(
        &mut self,
        reader: &mut PushbackReader<R>,
        o: Outcome,
    ) -> (r: Result<Request, Error>)
        requires
            old(self).wf(),
            old(self)@.stage != Stage::Running,
            old(self)@.accepts(Answer::Inflated(o)),
        ensures
            final(self).wf(),
            final(reader).source().content() == old(reader).source().content(),
            agrees(
                r,
                final(self)@,
                final(reader).upcoming(),
                header_done(old(self)@, old(reader).upcoming(), o),
                old(reader).reliable(),
            ),
            old(reader).reliable() ==> final(reader).reliable(),
            r matches Ok(request) ==> old(self)@.moves_on_to(final(self)@, request),
    {
        self.in_pos = self.in_end - o.avail_in as usize;
        assert(self@.pending =~= old(self)@.pending.skip(old(self)@.pending.len() - o.avail_in));
        if o.ret != Z_OK {
            self.ret = o.ret;
            self.stage = Stage::Finished;
            Ok(Request::Finish)
        } else if (o.data_type & 0x80) != 0 {
            self.stage = Stage::Resuming;
            Ok(Request::Reset { window_bits: -15 })
        } else {
            self.start_header_step(reader)
        }
    }
}

} // verus!
