//! Building the index: one pass over the compressed stream, block by block.
use crate::engine::{agrees, Answer, Outcome, Output, Request, Step};
use crate::error::Error;
use crate::pushback::PushbackReader;
use crate::serial::encode_index;
use crate::source::{bytes_from, shorter, ByteSource};
use crate::types::{
    lemma_spaced_increasing, unrolled_window, CompressionMode, DeflateIndex, IndexView, PointView,
    CHUNK, WINSIZE,
};
use crate::zlib::{Z_BLOCK, Z_OK, Z_STREAM_END};
use crate::zran::{detect_mode, fread, is_eof, mode_of_first_byte, refilled};
use vstd::prelude::*;
use vstd::slice::slice_subrange;

verus! {

/// What a builder waits for.
#[derive(Clone, Copy, Debug, PartialEq, Eq, Structural)]
pub enum BuildStage {
    /// For the session to be started.
    Initialising,
    /// For an inflate step over one block.
    Inflating,
    /// For the reset that prepares the engine for the next gzip member.
    Resetting,
    /// For nothing: the pass is over.
    Finished,
}

/// A builder as a mathematical value.
pub struct BuilderView {
    /// What the builder waits for.
    pub stage: BuildStage,
    /// The least distance, in uncompressed bytes, between two access points.
    pub span: u64,
    /// The wrapper of the stream.
    pub mode: CompressionMode,
    /// How many compressed bytes were read from the source.
    pub totin: u64,
    /// How many uncompressed bytes the engine has produced.
    pub totout: u64,
    /// The compressed bytes read from the source that the engine has not consumed.
    pub pending: Seq<u8>,
    /// How much of the ring is free after what the engine wrote last.
    pub avail_out: u32,
    /// The access points recorded so far.
    pub points: Seq<PointView>,
    /// The engine's last return code.
    pub ret: i32,
}

impl BuilderView {
    /// The index as it would stand if the pass ended here.
    pub open spec fn index(self) -> IndexView {
        IndexView { mode: self.mode.spec_window_bits(), points: self.points, length: self.totout }
    }

    /// How many compressed bytes the engine has consumed.
    pub open spec fn consumed(self) -> int {
        self.totin - self.pending.len()
    }

    /// What holds of a builder at every moment: the points are in order for what was
    /// produced and consumed so far, and a raw stream has its first point at the very
    /// start.
    pub open spec fn well_formed(self) -> bool {
        &&& self.avail_out <= WINSIZE
        &&& self.pending.len() <= self.totin
        &&& in_order(self.points, self.span, self.totout, self.consumed())
        &&& self.stage == BuildStage::Initialising ==> self.points.len() == 0 && self.totout == 0
        &&& self.mode == CompressionMode::Raw && self.stage != BuildStage::Initialising
            ==> self.index().anchored()
    }

    /// Whether `answer` answers what the builder asked for, with counts that did not
    /// grow and a total that a `u64` holds.
    pub open spec fn accepts(self, answer: Answer) -> bool {
        match self.stage {
            BuildStage::Initialising => answer is Opened,
            BuildStage::Inflating => (answer matches Answer::Inflated(o) && o.avail_in
                <= self.pending.len() && o.avail_out <= self.avail_out && self.totout + (
            self.avail_out - o.avail_out) <= u64::MAX),
            BuildStage::Resetting => answer is Reset,
            BuildStage::Finished => false,
        }
    }

    /// What holds from one request to the next: the engine is kept inside the ring,
    /// the points recorded before stay as they are, and the output counted never
    /// gets less.
    pub open spec fn moves_on_to(self, later: BuilderView, request: Request) -> bool {
        &&& request.within(WINSIZE as int)
        &&& self.points.len() <= later.points.len()
        &&& forall|i: int| 0 <= i < self.points.len() ==> later.points[i] == self.points[i]
        &&& self.totout <= later.totout
    }

    /// What the pass returns once it is over: the index, where the engine reached the
    /// end of the stream, and the engine's failure otherwise.
    pub open spec fn result(self) -> Result<IndexView, Error>
        recommends
            self.stage == BuildStage::Finished,
    {
        if self.ret == Z_STREAM_END {
            Ok(self.index())
        } else {
            Err(Error::Inflate(self.ret))
        }
    }
}

/// The points are in order: they lie at least `span` uncompressed bytes apart, their
/// compressed positions never go back, none lies after what was produced and consumed,
/// and each has its shape.
#[verifier::opaque]
pub open spec fn in_order(points: Seq<PointView>, span: u64, produced: u64, consumed: int) -> bool {
    let index = IndexView { mode: 0, points, length: 0 };
    &&& index.spaced(span)
    &&& index.shaped()
    &&& index.input_ordered()
    &&& forall|i: int| 0 <= i < points.len() ==> (#[trigger] points[i]).output_offset <= produced
    &&& forall|i: int| 0 <= i < points.len() ==> (#[trigger] points[i]).input_offset <= consumed
}

/// Points in order stay in order while more is produced and consumed.
pub proof fn lemma_in_order_grows(
    points: Seq<PointView>,
    span: u64,
    produced: u64,
    consumed: int,
    produced_later: u64,
    consumed_later: int,
)
    requires
        in_order(points, span, produced, consumed),
        produced <= produced_later,
        consumed <= consumed_later,
    ensures
        in_order(points, span, produced_later, consumed_later),
{
    reveal(in_order);
    assert forall|i: int| 0 <= i < points.len() implies (#[trigger] points[i]).output_offset
        <= produced_later by {
        assert(points[i].output_offset <= produced);
    }
    assert forall|i: int| 0 <= i < points.len() implies (#[trigger] points[i]).input_offset
        <= consumed_later by {
        assert(points[i].input_offset <= consumed);
    }
}

/// Points in order stay in order when a point is added where the engine stands, at
/// least `span` after the last one.
pub proof fn lemma_in_order_push(
    points: Seq<PointView>,
    span: u64,
    produced: u64,
    consumed: int,
    point: PointView,
)
    requires
        in_order(points, span, produced, consumed),
        point.shaped(),
        point.output_offset == produced,
        point.input_offset == consumed,
        points.len() == 0 || produced - points.last().output_offset >= span,
    ensures
        in_order(points.push(point), span, produced, consumed),
{
    reveal(in_order);
    let old_index = IndexView { mode: 0, points, length: 0 };
    let longer = points.push(point);
    let index = IndexView { mode: 0, points: longer, length: 0 };
    assert forall|i: int| 0 <= i < longer.len() - 1 implies (#[trigger] index.points[i]).output_offset
        + span <= index.points[i + 1].output_offset by {
        if i < points.len() - 1 {
            assert(old_index.points[i].output_offset + span <= old_index.points[i
                + 1].output_offset);
        }
    }
    assert forall|i: int| 0 <= i < longer.len() implies (#[trigger] index.points[i]).shaped() by {
        if i < points.len() {
            assert(old_index.points[i].shaped());
        }
    }
    assert forall|i: int, j: int| 0 <= i <= j < longer.len() implies (
    #[trigger] index.points[i]).input_offset <= (#[trigger] index.points[j]).input_offset by {
        if j < points.len() {
            assert(old_index.points[i].input_offset <= old_index.points[j].input_offset);
        } else if i < points.len() {
            assert(points[i].input_offset <= consumed);
        }
    }
    assert forall|i: int| 0 <= i < longer.len() implies (#[trigger] longer[i]).output_offset
        <= produced by {
        if i < points.len() {
            assert(points[i].output_offset <= produced);
        }
    }
    assert forall|i: int| 0 <= i < longer.len() implies (#[trigger] longer[i]).input_offset
        <= consumed by {
        if i < points.len() {
            assert(points[i].input_offset <= consumed);
        }
    }
}

/// Points in order, whatever was produced and consumed, make an index whose points lie
/// at least the span apart, never go back in the compressed stream, and have their
/// shape.
pub proof fn lemma_in_order_index(
    points: Seq<PointView>,
    span: u64,
    produced: u64,
    consumed: int,
    mode: i32,
    length: u64,
)
    requires
        in_order(points, span, produced, consumed),
    ensures
        (IndexView { mode, points, length }).spaced(span),
        (IndexView { mode, points, length }).shaped(),
        (IndexView { mode, points, length }).input_ordered(),
{
    reveal(in_order);
    let plain = IndexView { mode: 0, points, length: 0 };
    let index = IndexView { mode, points, length };
    assert forall|i: int| 0 <= i < points.len() - 1 implies (#[trigger] index.points[i]).output_offset
        + span <= index.points[i + 1].output_offset by {
        assert(plain.points[i].output_offset + span <= plain.points[i + 1].output_offset);
    }
    assert forall|i: int| 0 <= i < points.len() implies (#[trigger] index.points[i]).shaped() by {
        assert(plain.points[i].shaped());
    }
    assert forall|i: int, j: int| 0 <= i <= j < points.len() implies (
    #[trigger] index.points[i]).input_offset <= (#[trigger] index.points[j]).input_offset by {
        assert(plain.points[i].input_offset <= plain.points[j].input_offset);
    }
}

/// Whether the engine stands where an access point can be placed: at the end of a
/// block that is not the last, or at the end of the wrapper's header.
pub open spec fn at_restart(data_type: i32) -> bool {
    data_type & 0xc0 == 0x80
}

/// How many bits of the last byte consumed are still unused.
pub open spec fn unused_bits(data_type: i32) -> u32 {
    (data_type as u32) & 7
}

/// Whether an access point is recorded: the engine stands where one can be placed,
/// and there is none yet or the last one lies at least the span behind.
pub open spec fn wants_point(v: BuilderView, data_type: i32) -> bool {
    at_restart(data_type) && (v.points.len() == 0 || v.totout - v.points.last().output_offset
        >= v.span)
}

/// The access point for where the engine stands.
pub open spec fn point_here(v: BuilderView, ring: Seq<u8>, data_type: i32) -> PointView {
    PointView {
        input_offset: (v.totin - v.pending.len()) as u64,
        output_offset: v.totout,
        bit_offset: unused_bits(data_type),
        window: unrolled_window(ring, v.avail_out as int),
    }
}

/// The builder after the test for an access point.
pub open spec fn marked(v: BuilderView, ring: Seq<u8>, data_type: i32) -> BuilderView {
    if wants_point(v, data_type) {
        BuilderView { points: v.points.push(point_here(v, ring, data_type)), ..v }
    } else {
        v
    }
}

/// The next block: input is read where the engine has none left, the ring is started
/// over where it is full, and the engine is asked to inflate up to the end of a block.
pub open spec fn next_block(v: BuilderView, upcoming: Seq<u8>) -> Step<BuilderView> {
    let (pending, rest) = refilled(v.pending, upcoming);
    let totin = if v.pending.len() == 0 {
        (v.totin + pending.len()) as u64
    } else {
        v.totin
    };
    let avail_out = if v.avail_out == 0 {
        WINSIZE as u32
    } else {
        v.avail_out
    };
    Step::Next {
        state: BuilderView { stage: BuildStage::Inflating, pending, totin, avail_out, ..v },
        upcoming: rest,
        request: Request::Inflate {
            flush: Z_BLOCK,
            output: Output::Ring { at: (WINSIZE - avail_out) as usize, len: avail_out },
        },
        reads: v.pending.len() == 0,
    }
}

/// Whether a gzip member has just ended.
pub open spec fn member_ended(v: BuilderView) -> bool {
    v.ret == Z_STREAM_END && v.mode == CompressionMode::Gzip
}

/// After a block: where a gzip member has ended and anything follows, the engine is
/// reset for the next member; the pass ends on any return code but the one to go on.
/// The source is asked whether it has ended only after a member, where no input is
/// pending.
pub open spec fn go_on(v: BuilderView, upcoming: Seq<u8>) -> Step<BuilderView> {
    if member_ended(v) && (v.pending.len() != 0 || upcoming.len() != 0) {
        Step::Next {
            state: BuilderView { stage: BuildStage::Resetting, ..v },
            upcoming,
            request: Request::Reset { window_bits: 31 },
            reads: v.pending.len() == 0,
        }
    } else if v.ret != Z_OK {
        Step::Next {
            state: BuilderView { stage: BuildStage::Finished, ..v },
            upcoming,
            request: Request::Finish,
            reads: member_ended(v),
        }
    } else {
        next_block(v, upcoming)
    }
}

/// What a builder does with an answer. `ring` is the ring as the engine left it.
pub open spec fn build_step(v: BuilderView, upcoming: Seq<u8>, ring: Seq<u8>, answer: Answer) -> Step<
    BuilderView,
> {
    match answer {
        Answer::Opened(ret) => if ret != Z_OK {
            Step::Fail { error: Error::Init(ret), reads: false }
        } else {
            let opened = BuilderView { avail_out: WINSIZE as u32, ret: Z_OK, ..v };
            if v.mode == CompressionMode::Raw {
                // A raw stream has no header whose end the engine could report: the
                // point at its start is placed as if it had.
                next_block(marked(opened, ring, 0x80), upcoming)
            } else {
                next_block(opened, upcoming)
            }
        },
        Answer::Inflated(o) => {
            let counted = BuilderView {
                totout: (v.totout + (v.avail_out - o.avail_out)) as u64,
                pending: v.pending.skip(v.pending.len() - o.avail_in),
                avail_out: o.avail_out,
                ret: o.ret,
                ..v
            };
            go_on(marked(counted, ring, o.data_type), upcoming)
        },
        // A builder asks for neither bits nor a dictionary.
        Answer::Primed(_) | Answer::Installed(_) => Step::Fail {
            error: Error::Inflate(v.ret),
            reads: false,
        },
        Answer::Reset(ret) => {
            let reset = BuilderView { ret, ..v };
            if ret != Z_OK {
                Step::Next {
                    state: BuilderView { stage: BuildStage::Finished, ..reset },
                    upcoming,
                    request: Request::Finish,
                    reads: false,
                }
            } else {
                next_block(reset, upcoming)
            }
        },
    }
}

/// How a pass sets out: the first bytes are read, the wrapper is told by the first of
/// them, and the engine is to start for that wrapper.
pub open spec fn build_start(upcoming: Seq<u8>, span: u64) -> Step<BuilderView> {
    let n = shorter(CHUNK as int, upcoming.len() as int);
    let mode = mode_of_first_byte(
        if n > 0 {
            Some(upcoming[0])
        } else {
            None
        },
    );
    Step::Next {
        state: BuilderView {
            stage: BuildStage::Initialising,
            span,
            mode,
            totin: n as u64,
            totout: 0,
            pending: upcoming.take(n),
            avail_out: 0,
            points: Seq::empty(),
            ret: Z_OK,
        },
        upcoming: upcoming.skip(n),
        request: Request::Init { window_bits: mode.spec_window_bits() },
        reads: true,
    }
}

/// A pass as far as a run of answers takes it: each answer, with the ring as the
/// engine left it, is taken in the state that the answers before it led to; a failure
/// ends the pass.
pub open spec fn build_run(start: Step<BuilderView>, answers: Seq<(Seq<u8>, Answer)>) -> Step<
    BuilderView,
>
    decreases answers.len(),
{
    if answers.len() == 0 {
        start
    } else {
        match build_run(start, answers.drop_last()) {
            Step::Next { state, upcoming, .. } => build_step(
                state,
                upcoming,
                answers.last().0,
                answers.last().1,
            ),
            failed => failed,
        }
    }
}

/// Two passes over the same bytes, with the same span and the same answers of the
/// engine, come to the same end: the same failure, or the same state, and with it the
/// same index, which is the same in bytes.
pub proof fn lemma_same_stream_same_pass(
    first: Seq<u8>,
    second: Seq<u8>,
    span: u64,
    answers: Seq<(Seq<u8>, Answer)>,
)
    requires
        first == second,
    ensures
        build_run(build_start(first, span), answers) == build_run(
            build_start(second, span),
            answers,
        ),
        build_run(build_start(first, span), answers) matches Step::Next { state, .. } ==> (build_run(
            build_start(second, span),
            answers,
        ) matches Step::Next { state: other, .. } && other.result() == state.result() && (
        state.result() matches Ok(index) ==> other.result() matches Ok(again) && encode_index(index)
            == encode_index(again))),
{
}

/// A step of a builder, taken after a run of answers, is the run that is longer by
/// the answer of the step.
pub proof fn lemma_run_goes_on(
    start: Step<BuilderView>,
    answers: Seq<(Seq<u8>, Answer)>,
    ring: Seq<u8>,
    answer: Answer,
)
    ensures
        build_run(start, answers) matches Step::Next { state, upcoming, .. } ==> build_run(
            start,
            answers.push((ring, answer)),
        ) == build_step(state, upcoming, ring, answer),
{
    let longer = answers.push((ring, answer));
    assert(longer.drop_last() =~= answers);
    assert(longer.last() == (ring, answer));
}

/// The first point stands at the head of the uncompressed data; or there is no point
/// yet, and no output either.
pub open spec fn headed(v: BuilderView) -> bool {
    if v.points.len() == 0 {
        v.totout == 0
    } else {
        v.points[0].output_offset == 0
    }
}

/// Whether an answer of the engine gives no output while no point is recorded: an
/// engine is so that tells the end of the wrapper's header before it gives any output.
pub open spec fn silent_before_first_point(v: BuilderView, answer: Answer) -> bool {
    answer matches Answer::Inflated(o) ==> (v.points.len() == 0 ==> o.avail_out == v.avail_out)
}

/// A step keeps the first point at the head of the uncompressed data, where the
/// engine gives no output before that point is recorded.
pub proof fn lemma_head_is_kept(v: BuilderView, upcoming: Seq<u8>, ring: Seq<u8>, answer: Answer)
    requires
        headed(v),
        v.accepts(answer),
        silent_before_first_point(v, answer),
    ensures
        build_step(v, upcoming, ring, answer) matches Step::Next { state, .. } ==> headed(state),
{
    assert(0x80i32 & 0xc0 == 0x80) by (bit_vector);
}

/// Over a stream of any wrapper, every index that a pass returns has its first point
/// at offset 0, where the engine gives no output before the first point is recorded,
/// as it does not when it tells the end of the wrapper's header before any output.
pub proof fn lemma_quiet_pass_is_headed(
    upcoming: Seq<u8>,
    span: u64,
    answers: Seq<(Seq<u8>, Answer)>,
)
    requires
        forall|k: int|
            #![trigger answers[k]]
            0 <= k < answers.len() ==> (build_run(build_start(upcoming, span), answers.take(k)) matches Step::Next {
                state,
                ..
            } ==> state.accepts(answers[k].1) && silent_before_first_point(state, answers[k].1)),
    ensures
        build_run(build_start(upcoming, span), answers) matches Step::Next { state, .. } ==> {
            &&& headed(state)
            &&& state.result() matches Ok(index) ==> index.points.len() > 0
                ==> index.points[0].output_offset == 0
        },
    decreases answers.len(),
{
    let start = build_start(upcoming, span);
    if answers.len() > 0 {
        let before = answers.drop_last();
        assert forall|k: int| #![trigger before[k]] 0 <= k < before.len() implies (build_run(
            start,
            before.take(k),
        ) matches Step::Next { state, .. } ==> state.accepts(before[k].1)
            && silent_before_first_point(state, before[k].1)) by {
            assert(before.take(k) =~= answers.take(k));
            assert(before[k] == answers[k]);
        }
        lemma_quiet_pass_is_headed(upcoming, span, before);
        let last = answers.len() - 1;
        assert(answers.take(last) =~= before);
        assert(answers[last] == answers.last());
        match build_run(start, before) {
            Step::Next { state, upcoming: rest, .. } => {
                lemma_head_is_kept(state, rest, answers.last().0, answers.last().1);
            },
            _ => {},
        }
    }
}

/// The state of one pass over a compressed stream between two calls of the inflate
/// engine.
pub struct IndexBuilder<R: ByteSource> {
    reader: PushbackReader<R>,
    stage: BuildStage,
    span: u64,
    mode: CompressionMode,
    totin: u64,
    totout: u64,
    input: Vec<u8>,
    in_pos: usize,
    in_end: usize,
    avail_out: u32,
    index: DeflateIndex,
    ret: i32,
}

impl<R: ByteSource> View for IndexBuilder<R> {
    type V = BuilderView;

    closed spec fn view(&self) -> BuilderView {
        BuilderView {
            stage: self.stage,
            span: self.span,
            mode: self.mode,
            totin: self.totin,
            totout: self.totout,
            pending: self.input@.subrange(self.in_pos as int, self.in_end as int),
            avail_out: self.avail_out,
            points: self.index@.points,
            ret: self.ret,
        }
    }
}

impl<R: ByteSource> IndexBuilder<R> {
    /// The bytes of the stream that have not been read yet.
    pub closed spec fn upcoming(&self) -> Seq<u8> {
        self.reader.upcoming()
    }

    /// The byte source that the stream is read from.
    pub closed spec fn source(&self) -> R {
        self.reader.source()
    }

    /// The builder holds a full input buffer with its pending bytes in it, and counts
    /// that fit.
    pub closed spec fn wf(&self) -> bool {
        &&& self.buffers_fit()
        &&& self@.well_formed()
    }

    spec fn buffers_fit(&self) -> bool {
        &&& self.input@.len() == CHUNK
        &&& self.in_pos <= self.in_end <= CHUNK
        &&& self.totin <= self.reader.offset()
    }

    /// At every moment of a pass the points recorded so far lie at least the span
    /// apart, strictly growing where the span is not 0, never go back in the
    /// compressed stream, and each has at most seven left-over bits and a full window.
    /// Over a raw stream the first point stands at the very start.
    pub proof fn lemma_points_in_order(&self)
        requires
            self.wf(),
        ensures
            self@.well_formed(),
            self@.index().spaced(self@.span),
            self@.span > 0 ==> self@.index().increasing(),
            self@.index().input_ordered(),
            self@.index().shaped(),
            self@.mode == CompressionMode::Raw && self@.stage != BuildStage::Initialising
                ==> self@.index().anchored(),
            self@.totout == 0 && self@.points.len() > 0 ==> self@.index().anchored(),
    {
        let v = self@;
        if v.points.len() > 0 {
            reveal(in_order);
            assert(v.points[0].output_offset <= v.totout);
        }
        lemma_in_order_index(
            v.points,
            v.span,
            v.totout,
            v.consumed(),
            v.mode.spec_window_bits(),
            v.totout,
        );
        if v.span > 0 {
            lemma_spaced_increasing(v.index(), v.span);
        }
    }

    /// Sets out on a pass over the stream that `source` holds from its position on.
    pub fn begin(source: R, span: u64) -> (r: Result<(IndexBuilder<R>, Request), Error>)
        ensures
            match r {
                Ok((builder, request)) => {
                    &&& builder.wf()
                    &&& builder.source().content() == source.content()
                    &&& build_start(
                        bytes_from(source.content(), source.position() as nat),
                        span,
                    ).leads_to(builder@, builder.upcoming(), request)
                },
                Err(error) => error.from_source() && !source.reliable(),
            },
            r matches Ok((builder, _)) ==> (source.reliable() ==> builder.source().reliable()),
    {
        let mut builder = IndexBuilder {
            reader: PushbackReader::new(source),
            stage: BuildStage::Initialising,
            span,
            mode: CompressionMode::Raw,
            totin: 0,
            totout: 0,
            input: vec![0u8; CHUNK],
            in_pos: 0,
            in_end: 0,
            avail_out: 0,
            index: DeflateIndex::new(),
            ret: Z_OK,
        };
        let ghost ahead = builder.reader.upcoming();
        match fread(&mut builder.reader, builder.input.as_mut_slice(), CHUNK) {
            Ok(n) => {
                builder.in_end = n;
                builder.totin = n as u64;
                builder.mode = detect_mode(
                    if n > 0 {
                        Some(builder.input[0])
                    } else {
                        None
                    },
                );
                proof {
                    assert(builder@.pending =~= ahead.take(n as int));
                    if n > 0 {
                        assert(builder.input@.take(n as int)[0] == ahead.take(n as int)[0]);
                    }
                    assert(builder@.points =~= Seq::empty());
                    reveal(in_order);
                }
                let request = Request::Init { window_bits: builder.mode.window_bits() };
                Ok((builder, request))
            },
            Err(e) => Err(e),
        }
    }

    /// Whether `answer` answers what this builder asked for.
    pub fn accepts(&self, answer: &Answer) -> (yes: bool)
        requires
            self.wf(),
        ensures
            yes == self@.accepts(*answer),
    {
        match self.stage {
            BuildStage::Initialising => match answer {
                Answer::Opened(_) => true,
                _ => false,
            },
            BuildStage::Inflating => match answer {
                Answer::Inflated(o) => o.avail_in as usize <= self.in_end - self.in_pos
                    && o.avail_out <= self.avail_out && (self.avail_out - o.avail_out) as u64
                    <= u64::MAX - self.totout,
                _ => false,
            },
            BuildStage::Resetting => match answer {
                Answer::Reset(_) => true,
                _ => false,
            },
            BuildStage::Finished => false,
        }
    }

    /// The compressed bytes that the engine is to read next.
    pub fn pending_input(&self) -> (bytes: &[u8])
        requires
            self.wf(),
        ensures
            bytes@ == self@.pending,
            bytes@.len() <= CHUNK,
    {
        slice_subrange(self.input.as_slice(), self.in_pos, self.in_end)
    }

    /// Whether the pass is over.
    pub fn is_finished(&self) -> (yes: bool)
        ensures
            yes == (self@.stage == BuildStage::Finished),
    {
        match self.stage {
            BuildStage::Finished => true,
            _ => false,
        }
    }

    /// Gives up the pass, wherever it stands, and gives back the byte source.
    pub fn into_source(self) -> (source: R)
        ensures
            source == self.source(),
    {
        self.reader.into_inner()
    }

    /// Ends a pass that is over and gives back the byte source. There is an index only where the
    /// engine reached the end of the stream: a stream that broke off leaves none.
    pub fn finish(self) -> (r: (R, Result<DeflateIndex, Error>))
        requires
            self.wf(),
            self@.stage == BuildStage::Finished,
        ensures
            r.0 == self.source(),
            match r.1 {
                Ok(index) => self@.result() == Ok::<IndexView, Error>(index@),
                Err(error) => self@.result() == Err::<IndexView, Error>(error),
            },
            r.1 matches Ok(index) ==> {
                &&& index@.spaced(self@.span)
                &&& self@.span > 0 ==> index@.increasing()
                &&& index@.input_ordered()
                &&& index@.shaped()
                &&& index.mode == -15 ==> index@.anchored()
            },
    {
        proof {
            self.lemma_points_in_order();
        }
        let IndexBuilder { reader, mode, totout, index, ret, .. } = self;
        let source = reader.into_inner();
        if ret != Z_STREAM_END {
            (source, Err(Error::Inflate(ret)))
        } else {
            let mut index = index;
            index.mode = mode.window_bits();
            index.length = totout;
            assert(index@.points =~= self@.points);
            (source, Ok(index))
        }
    }

    /// Takes the engine's answer and says what the engine is to do next. `ring` is the
    /// ring through which the engine's output is rotated, as the engine left it.
    pub fn advance(&mut self, ring: &[u8], answer: Answer) -> (r: Result<Request, Error>)
        requires
            old(self).wf(),
            old(self)@.accepts(answer),
            ring@.len() == WINSIZE,
        ensures
            r is Ok ==> final(self).wf(),
            final(self).source().content() == old(self).source().content(),
            agrees(
                r,
                final(self)@,
                final(self).upcoming(),
                build_step(old(self)@, old(self).upcoming(), ring@, answer),
                old(self).source().reliable(),
            ),
            old(self).source().reliable() ==> final(self).source().reliable(),
            r matches Ok(request) ==> old(self)@.moves_on_to(final(self)@, request),
    {
        match answer {
            Answer::Opened(ret) => {
                if ret != Z_OK {
                    Err(Error::Init(ret))
                } else {
                    self.avail_out = WINSIZE as u32;
                    self.ret = Z_OK;
                    match self.mode {
                        CompressionMode::Raw => {
                            self.mark(ring, 0x80);
                            assert(0x80i32 & 0xc0 == 0x80) by (bit_vector);
                            assert(self@.points[0].output_offset == 0);
                        },
                        _ => {},
                    }
                    self.stage = BuildStage::Inflating;
                    self.start_block()
                }
            },
            Answer::Inflated(o) => {
                proof {
                    lemma_in_order_grows(
                        self@.points,
                        self.span,
                        self.totout,
                        self@.consumed(),
                        (self.totout + (self.avail_out - o.avail_out)) as u64,
                        self.totin - o.avail_in,
                    );
                }
                self.totout = self.totout + (self.avail_out - o.avail_out) as u64;
                self.in_pos = self.in_end - o.avail_in as usize;
                self.avail_out = o.avail_out;
                self.ret = o.ret;
                assert(self@.pending =~= old(self)@.pending.skip(
                    old(self)@.pending.len() - o.avail_in,
                ));
                let ghost counted = self@;
                self.mark(ring, o.data_type);
                assert(self@.points.len() > 0 ==> self@.points[0] == if counted.points.len() > 0 {
                    counted.points[0]
                } else {
                    point_here(counted, ring@, o.data_type)
                });
                self.go_on()
            },
            Answer::Reset(ret) => {
                self.ret = ret;
                if ret != Z_OK {
                    self.stage = BuildStage::Finished;
                    Ok(Request::Finish)
                } else {
                    self.start_block()
                }
            },
            Answer::Primed(_) | Answer::Installed(_) => unreached(),
        }
    }

    /// Records an access point where one is due.
    fn mark(&mut self, ring: &[u8], data_type: i32)
        requires
            old(self).buffers_fit(),
            old(self)@.avail_out <= WINSIZE,
            old(self)@.pending.len() <= old(self)@.totin,
            in_order(old(self)@.points, old(self)@.span, old(self)@.totout, old(self)@.consumed()),
            ring@.len() == WINSIZE,
        ensures
            final(self).buffers_fit(),
            final(self)@ == marked(old(self)@, ring@, data_type),
            in_order(
                final(self)@.points,
                final(self)@.span,
                final(self)@.totout,
                final(self)@.consumed(),
            ),
            final(self).reader == old(self).reader,
            old(self)@.points.len() <= final(self)@.points.len(),
            forall|i: int|
                0 <= i < old(self)@.points.len() ==> final(self)@.points[i] == old(
                    self,
                )@.points[i],
    {
        let at_restart = (data_type & 0xc0) == 0x80;
        let count = self.index.list.len();
        assert(count > 0 ==> self@.points.last() == self.index.list@[count - 1]@);
        proof {
            if count > 0 {
                reveal(in_order);
                assert(self@.points[count - 1].output_offset <= self.totout);
            }
        }
        if at_restart && (count == 0 || self.totout - self.index.list[count - 1].out
            >= self.span) {
            let bits: u32 = (data_type as u32) & 7;
            assert((data_type as u32) & 7 <= 7) by (bit_vector);
            let inn: u64 = self.totin - (self.in_end - self.in_pos) as u64;
            let ghost before = self@;
            self.index.add_point(bits, inn, self.totout, self.avail_out as usize, ring);
            proof {
                let added = point_here(before, ring@, data_type);
                assert(self@.points == before.points.push(added));
                lemma_in_order_push(
                    before.points,
                    before.span,
                    before.totout,
                    before.consumed(),
                    added,
                );
            }
        }
    }

    /// Asks for the next block.
    fn start_block(&mut self) -> (r: Result<Request, Error>)
        requires
            old(self).wf(),
            old(self)@.stage != BuildStage::Initialising,
        ensures
            r is Ok ==> final(self).wf(),
            final(self).source().content() == old(self).source().content(),
            agrees(
                r,
                final(self)@,
                final(self).upcoming(),
                next_block(old(self)@, old(self).upcoming()),
                old(self).source().reliable(),
            ),
            old(self).source().reliable() ==> final(self).source().reliable(),
            r matches Ok(request) ==> {
                &&& old(self)@.moves_on_to(final(self)@, request)
                &&& final(self)@.points == old(self)@.points
            },
    {
        self.stage = BuildStage::Inflating;
        if self.avail_out == 0 {
            self.avail_out = WINSIZE as u32;
        }
        if self.in_pos == self.in_end {
            let ghost ahead = self.reader.upcoming();
            let ghost consumed = self@.consumed();
            self.in_pos = 0;
            self.in_end = 0;
            match fread(&mut self.reader, self.input.as_mut_slice(), CHUNK) {
                Ok(n) => {
                    self.in_end = n;
                    self.totin = self.totin + n as u64;
                    assert(self@.pending =~= ahead.take(n as int));
                    assert(self@.consumed() == consumed);
                },
                Err(e) => {
                    return Err(e);
                },
            }
        }
        Ok(
            Request::Inflate {
                flush: Z_BLOCK,
                output: Output::Ring {
                    at: WINSIZE - self.avail_out as usize,
                    len: self.avail_out,
                },
            },
        )
    }

    /// Goes on after a block: with the next member, with the next block, or to the end.
    fn go_on(&mut self) -> (r: Result<Request, Error>)
        requires
            old(self).wf(),
            old(self)@.stage != BuildStage::Initialising,
        ensures
            r is Ok ==> final(self).wf(),
            final(self).source().content() == old(self).source().content(),
            agrees(
                r,
                final(self)@,
                final(self).upcoming(),
                go_on(old(self)@, old(self).upcoming()),
                old(self).source().reliable(),
            ),
            old(self).source().reliable() ==> final(self).source().reliable(),
            r matches Ok(request) ==> {
                &&& old(self)@.moves_on_to(final(self)@, request)
                &&& final(self)@.points == old(self)@.points
            },
    {
        let member_ended = self.ret == Z_STREAM_END && match self.mode {
            CompressionMode::Gzip => true,
            _ => false,
        };
        let more = if !member_ended {
            false
        } else if self.in_end - self.in_pos != 0 {
            true
        } else {
            match is_eof(&mut self.reader) {
                Ok(ended) => !ended,
                Err(e) => {
                    return Err(e);
                },
            }
        };
        if more {
            self.stage = BuildStage::Resetting;
            Ok(Request::Reset { window_bits: 31 })
        } else if self.ret != Z_OK {
            self.stage = BuildStage::Finished;
            Ok(Request::Finish)
        } else {
            self.start_block()
        }
    }
}

} // verus!
