use deflate_index::engine::{Answer, Outcome, Output, Request};
use deflate_index::error::Error;
use deflate_index::extractor::Extraction;
use deflate_index::pushback::PushbackReader;
use deflate_index::reader::SeekableZLibReader;
use deflate_index::source::{ByteCursor, SeekFrom};
use deflate_index::types::{DeflateIndex, CHUNK, WINSIZE};

fn inflated(ret: i32, avail_in: usize, avail_out: usize, data_type: i32) -> Answer {
    Answer::Inflated(Outcome {
        ret,
        avail_in: avail_in as u32,
        avail_out: avail_out as u32,
        data_type,
    })
}

fn skip(len: usize) -> Request {
    Request::Inflate { flush: 0, output: Output::Discard { len: len as u32 } }
}

fn deliver(at: usize, len: usize) -> Request {
    Request::Inflate { flush: 0, output: Output::Deliver { at, len: len as u32 } }
}

fn header_step() -> Request {
    Request::Inflate { flush: 5, output: Output::Discard { len: 32768 } }
}

fn counted(len: usize) -> Vec<u8> {
    (0..len).map(|i| (i % 256) as u8).collect()
}

fn index_with(mode: i32, length: u64, points: &[(u32, u64, u64)]) -> DeflateIndex {
    let ring = vec![0u8; WINSIZE];
    let mut index = DeflateIndex::new();
    for (bits, inn, out) in points {
        index.add_point(*bits, *inn, *out, 0, &ring);
    }
    index.mode = mode;
    index.length = length;
    index
}

fn step(
    extraction: &mut Extraction,
    reader: &mut PushbackReader<ByteCursor>,
    answer: Answer,
) -> Request {
    assert!(extraction.accepts(&answer));
    extraction.advance(reader, answer).unwrap()
}

// The engine starts, takes the bits where it is given any, and takes the dictionary.
fn open(extraction: &mut Extraction, reader: &mut PushbackReader<ByteCursor>) -> Request {
    let mut request = step(extraction, reader, Answer::Opened(0));
    if let Request::Prime { .. } = request {
        request = step(extraction, reader, Answer::Primed(0));
    }
    assert!(matches!(request, Request::SetDictionary { .. }));
    step(extraction, reader, Answer::Installed(0))
}

#[test]
fn nothing_is_extracted_at_or_after_the_end() {
    let index = index_with(-15, 1000, &[(0, 0, 0), (3, 40, 500)]);
    let mut reader = PushbackReader::new(ByteCursor::new(counted(100)));
    reader.seek(SeekFrom::Start(33)).unwrap();
    for offset in [1000u64, 1001, u64::MAX] {
        let (extraction, request) = Extraction::begin(&mut reader, &index, offset, 64).unwrap();
        assert_eq!(request, Request::Finish);
        assert_eq!(extraction.result().unwrap(), 0);
    }
    // The source was not moved.
    let mut one = [0u8; 1];
    assert_eq!(reader.read(&mut one).unwrap(), 1);
    assert_eq!(one[0], 33);
}

#[test]
fn extraction_sets_out_on_a_byte_boundary() {
    let index = index_with(15, 1000, &[(0, 2, 0), (0, 40, 500)]);
    let mut reader = PushbackReader::new(ByteCursor::new(counted(100)));
    let (mut extraction, request) = Extraction::begin(&mut reader, &index, 620, 64).unwrap();
    assert_eq!(request, Request::Init { window_bits: -15 });
    // No bits are left over: the window of the point is installed at once.
    assert_eq!(
        step(&mut extraction, &mut reader, Answer::Opened(0)),
        Request::SetDictionary { point: 1 }
    );
    // 120 bytes lie between the point and the offset.
    assert_eq!(step(&mut extraction, &mut reader, Answer::Installed(0)), skip(120));
    // The input starts at the point's position.
    assert_eq!(extraction.pending_input(), &counted(100)[40..]);
}

#[test]
fn extraction_sets_out_with_the_left_over_bits() {
    let index = index_with(-15, 1000, &[(0, 0, 0), (3, 40, 500)]);
    let mut bytes = counted(100);
    bytes[39] = 0b1011_0110;
    let mut reader = PushbackReader::new(ByteCursor::new(bytes.clone()));
    let (mut extraction, request) = Extraction::begin(&mut reader, &index, 500, 64).unwrap();
    assert_eq!(request, Request::Init { window_bits: -15 });
    // The top three bits of the byte before the point's position.
    assert_eq!(
        step(&mut extraction, &mut reader, Answer::Opened(0)),
        Request::Prime { bits: 3, value: 0b101 }
    );
    // What the engine says of them is not looked at; the window follows.
    assert_eq!(
        step(&mut extraction, &mut reader, Answer::Primed(-2)),
        Request::SetDictionary { point: 1 }
    );
    assert_eq!(step(&mut extraction, &mut reader, Answer::Installed(-3)), deliver(0, 64));
    assert_eq!(extraction.pending_input(), &bytes[40..]);
}

#[test]
fn extraction_with_every_number_of_left_over_bits() {
    let mut bytes = counted(100);
    bytes[9] = 0xd3;
    for bits in 1u32..=7 {
        let index = index_with(-15, 1000, &[(bits, 10, 0)]);
        let mut reader = PushbackReader::new(ByteCursor::new(bytes.clone()));
        let (mut extraction, request) = Extraction::begin(&mut reader, &index, 5, 64).unwrap();
        assert_eq!(request, Request::Init { window_bits: -15 });
        assert_eq!(
            step(&mut extraction, &mut reader, Answer::Opened(0)),
            Request::Prime { bits, value: 0xd3 >> (8 - bits) }
        );
    }
}

#[test]
fn extraction_fails_where_the_byte_with_the_bits_is_missing() {
    let index = index_with(-15, 1000, &[(0, 0, 0), (3, 101, 500)]);
    let mut reader = PushbackReader::new(ByteCursor::new(counted(100)));
    assert!(matches!(
        Extraction::begin(&mut reader, &index, 500, 64),
        Err(Error::UnexpectedEof)
    ));
}

#[test]
fn skipping_goes_a_window_at_a_time() {
    let index = index_with(-15, 1 << 20, &[(0, 0, 0)]);
    let mut reader = PushbackReader::new(ByteCursor::new(counted(100)));
    let (mut extraction, _) = Extraction::begin(&mut reader, &index, 70000, 10).unwrap();
    assert_eq!(open(&mut extraction, &mut reader), skip(32768));
    assert_eq!(step(&mut extraction, &mut reader, inflated(0, 90, 0, 0)), skip(32768));
    assert_eq!(extraction.pending_input().len(), 90);
    // A step may give less than it has room for.
    assert_eq!(step(&mut extraction, &mut reader, inflated(0, 80, 768, 0)), skip(5232));
    assert_eq!(step(&mut extraction, &mut reader, inflated(0, 70, 232, 0)), skip(232));
    assert_eq!(step(&mut extraction, &mut reader, inflated(0, 60, 0, 0)), deliver(0, 10));
    assert_eq!(step(&mut extraction, &mut reader, inflated(0, 50, 6, 0)), deliver(4, 6));
    assert!(!extraction.is_finished());
    assert_eq!(step(&mut extraction, &mut reader, inflated(0, 40, 0, 0)), Request::Finish);
    assert!(extraction.is_finished());
    assert_eq!(extraction.result().unwrap(), 10);
}

#[test]
fn the_end_of_the_stream_ends_the_extraction() {
    let index = index_with(15, 1000, &[(0, 2, 0)]);
    let mut reader = PushbackReader::new(ByteCursor::new(counted(100)));
    let (mut extraction, _) = Extraction::begin(&mut reader, &index, 0, 64).unwrap();
    assert_eq!(open(&mut extraction, &mut reader), deliver(0, 64));
    assert_eq!(step(&mut extraction, &mut reader, inflated(1, 4, 24, 0)), Request::Finish);
    assert_eq!(extraction.result().unwrap(), 40);
    assert!(!extraction.accepts(&inflated(0, 0, 0, 0)));
}

#[test]
fn an_engine_failure_is_the_result() {
    let index = index_with(-15, 1000, &[(0, 0, 0)]);
    let mut reader = PushbackReader::new(ByteCursor::new(counted(100)));
    let (mut extraction, _) = Extraction::begin(&mut reader, &index, 0, 64).unwrap();
    open(&mut extraction, &mut reader);
    assert_eq!(step(&mut extraction, &mut reader, inflated(-3, 50, 60, 0)), Request::Finish);
    assert!(matches!(extraction.result(), Err(Error::Inflate(-3))));

    let (mut extraction, _) = Extraction::begin(&mut reader, &index, 0, 64).unwrap();
    assert!(extraction.accepts(&Answer::Opened(-4)));
    assert!(matches!(
        extraction.advance(&mut reader, Answer::Opened(-4)),
        Err(Error::Init(-4))
    ));
}

#[test]
fn input_is_read_when_the_engine_has_none_left() {
    let bytes = counted(CHUNK + 10);
    let index = index_with(-15, 1 << 20, &[(0, 0, 0)]);
    let mut reader = PushbackReader::new(ByteCursor::new(bytes.clone()));
    let (mut extraction, _) = Extraction::begin(&mut reader, &index, 0, 64).unwrap();
    assert!(extraction.pending_input().is_empty());
    open(&mut extraction, &mut reader);
    assert_eq!(extraction.pending_input(), &bytes[..CHUNK]);
    step(&mut extraction, &mut reader, inflated(0, 7, 60, 0));
    assert_eq!(extraction.pending_input(), &bytes[CHUNK - 7..CHUNK]);
    step(&mut extraction, &mut reader, inflated(0, 0, 50, 0));
    assert_eq!(extraction.pending_input(), &bytes[CHUNK..]);
    // At the end of the source the engine gets no input.
    step(&mut extraction, &mut reader, inflated(0, 0, 40, 0));
    assert!(extraction.pending_input().is_empty());
}

#[test]
fn the_next_gzip_member_is_entered_after_its_header() {
    let bytes = counted(200);
    let index = index_with(31, 1000, &[(0, 10, 0)]);
    let mut reader = PushbackReader::new(ByteCursor::new(bytes.clone()));
    let (mut extraction, _) = Extraction::begin(&mut reader, &index, 30, 100).unwrap();
    assert_eq!(open(&mut extraction, &mut reader), skip(30));
    assert_eq!(step(&mut extraction, &mut reader, inflated(0, 150, 0, 0)), deliver(0, 100));
    // The member ends after 20 bytes more; its trailer of eight bytes is dropped, and
    // as more follows the engine is set to read a gzip header.
    assert_eq!(
        step(&mut extraction, &mut reader, inflated(1, 120, 80, 0)),
        Request::Reset { window_bits: 31 }
    );
    assert_eq!(extraction.pending_input(), &bytes[88..]);
    assert_eq!(step(&mut extraction, &mut reader, Answer::Reset(0)), header_step());
    // The header goes on until the engine reports its end.
    assert_eq!(step(&mut extraction, &mut reader, inflated(0, 110, 32768, 0)), header_step());
    assert_eq!(
        step(&mut extraction, &mut reader, inflated(0, 102, 32768, 0x80)),
        Request::Reset { window_bits: -15 }
    );
    // Then the data of the second member is delivered after that of the first.
    assert_eq!(step(&mut extraction, &mut reader, Answer::Reset(0)), deliver(20, 80));
    assert_eq!(extraction.pending_input(), &bytes[98..]);
    assert_eq!(step(&mut extraction, &mut reader, inflated(0, 50, 0, 0)), Request::Finish);
    assert_eq!(extraction.result().unwrap(), 100);
}

#[test]
fn a_trailer_that_is_split_is_dropped_from_input_and_source() {
    let bytes = counted(CHUNK + 100);
    let index = index_with(31, 1 << 20, &[(0, 0, 0)]);
    let mut reader = PushbackReader::new(ByteCursor::new(bytes.clone()));
    let (mut extraction, _) = Extraction::begin(&mut reader, &index, 0, 100).unwrap();
    open(&mut extraction, &mut reader);
    // Three bytes of the trailer are in the input, five are still in the source.
    assert_eq!(
        step(&mut extraction, &mut reader, inflated(1, 3, 90, 0)),
        Request::Reset { window_bits: 31 }
    );
    assert!(extraction.pending_input().is_empty());
    assert_eq!(step(&mut extraction, &mut reader, Answer::Reset(0)), header_step());
    assert_eq!(extraction.pending_input(), &bytes[CHUNK + 5..]);
}

#[test]
fn the_last_gzip_member_ends_the_extraction() {
    let bytes = counted(50);
    let index = index_with(31, 1000, &[(0, 10, 0)]);
    let mut reader = PushbackReader::new(ByteCursor::new(bytes));
    let (mut extraction, _) = Extraction::begin(&mut reader, &index, 0, 100).unwrap();
    open(&mut extraction, &mut reader);
    // Just the trailer is left.
    assert_eq!(step(&mut extraction, &mut reader, inflated(1, 8, 30, 0)), Request::Finish);
    assert_eq!(extraction.result().unwrap(), 70);
}

#[test]
fn a_gzip_member_without_its_trailer_is_an_error() {
    let bytes = counted(50);
    let index = index_with(31, 1000, &[(0, 10, 0)]);
    let mut reader = PushbackReader::new(ByteCursor::new(bytes));
    let (mut extraction, _) = Extraction::begin(&mut reader, &index, 0, 100).unwrap();
    open(&mut extraction, &mut reader);
    let answer = inflated(1, 5, 30, 0);
    assert!(extraction.accepts(&answer));
    assert!(matches!(extraction.advance(&mut reader, answer), Err(Error::UnexpectedEof)));
}

#[test]
fn a_failure_in_the_header_of_a_member_is_the_result() {
    let bytes = counted(200);
    let index = index_with(31, 1000, &[(0, 10, 0)]);
    let mut reader = PushbackReader::new(ByteCursor::new(bytes));
    let (mut extraction, _) = Extraction::begin(&mut reader, &index, 0, 100).unwrap();
    open(&mut extraction, &mut reader);
    step(&mut extraction, &mut reader, inflated(1, 120, 80, 0));
    step(&mut extraction, &mut reader, Answer::Reset(0));
    assert_eq!(step(&mut extraction, &mut reader, inflated(-3, 100, 32768, 0)), Request::Finish);
    assert!(matches!(extraction.result(), Err(Error::Inflate(-3))));
}

#[test]
fn the_end_of_a_member_counts_only_for_gzip() {
    let bytes = counted(200);
    let index = index_with(15, 1000, &[(0, 2, 0)]);
    let mut reader = PushbackReader::new(ByteCursor::new(bytes));
    let (mut extraction, _) = Extraction::begin(&mut reader, &index, 0, 100).unwrap();
    open(&mut extraction, &mut reader);
    assert_eq!(step(&mut extraction, &mut reader, inflated(1, 120, 80, 0)), Request::Finish);
    assert_eq!(extraction.result().unwrap(), 20);
}

#[test]
fn answers_out_of_turn_are_refused() {
    let index = index_with(31, 1000, &[(0, 10, 0)]);
    let mut reader = PushbackReader::new(ByteCursor::new(counted(200)));
    let (mut extraction, _) = Extraction::begin(&mut reader, &index, 0, 100).unwrap();
    assert!(!extraction.accepts(&inflated(0, 0, 0, 0)));
    assert!(!extraction.accepts(&Answer::Reset(0)));
    assert!(!extraction.accepts(&Answer::Installed(0)));
    step(&mut extraction, &mut reader, Answer::Opened(0));
    assert!(!extraction.accepts(&Answer::Opened(0)));
    assert!(!extraction.accepts(&Answer::Primed(0)));
    assert!(!extraction.accepts(&inflated(0, 0, 0, 0)));
    step(&mut extraction, &mut reader, Answer::Installed(0));
    assert!(!extraction.accepts(&Answer::Installed(0)));
    assert!(!extraction.accepts(&inflated(0, 191, 0, 0)));
    assert!(!extraction.accepts(&inflated(0, 0, 101, 0)));
    assert!(extraction.accepts(&inflated(0, 190, 100, 0)));
}

#[test]
fn seek_moves_the_offset_and_reads_nothing() {
    let index = index_with(-15, 1000, &[(0, 0, 0)]);
    let mut seekable = SeekableZLibReader::new(ByteCursor::new(counted(50)), index);
    assert_eq!(seekable.offset(), 0);
    assert!(seekable.needs_fill());
    assert_eq!(seekable.seek(SeekFrom::Start(700)).unwrap(), 700);
    assert_eq!(seekable.seek(SeekFrom::Current(50)).unwrap(), 750);
    assert_eq!(seekable.seek(SeekFrom::Current(-750)).unwrap(), 0);
    assert_eq!(seekable.seek(SeekFrom::End(-1)).unwrap(), 999);
    assert_eq!(seekable.seek(SeekFrom::End(-1000)).unwrap(), 0);
    // Forward from the end is the end.
    assert_eq!(seekable.seek(SeekFrom::End(0)).unwrap(), 1000);
    assert_eq!(seekable.seek(SeekFrom::End(77)).unwrap(), 1000);
    assert_eq!(seekable.seek(SeekFrom::Start(5000)).unwrap(), 5000);
    assert_eq!(seekable.offset(), 5000);
    assert!(seekable.needs_fill());
    // No byte was read from the compressed stream meanwhile.
    seekable.seek(SeekFrom::Start(0)).unwrap();
    let (mut extraction, _) = seekable.fill_buffer().unwrap();
    assert!(extraction.accepts(&Answer::Opened(0)));
    seekable.advance_fill(&mut extraction, Answer::Opened(0)).unwrap();
    seekable.advance_fill(&mut extraction, Answer::Installed(0)).unwrap();
    assert_eq!(extraction.pending_input(), &counted(50)[..]);
}

#[test]
fn seek_out_of_range_is_refused_and_changes_nothing() {
    let index = index_with(-15, 1000, &[(0, 0, 0)]);
    let mut seekable = SeekableZLibReader::new(ByteCursor::new(counted(50)), index);
    seekable.seek(SeekFrom::Start(10)).unwrap();
    assert!(matches!(seekable.seek(SeekFrom::Current(-11)), Err(Error::InvalidSeek)));
    assert!(matches!(seekable.seek(SeekFrom::End(-1001)), Err(Error::InvalidSeek)));
    assert!(matches!(seekable.seek(SeekFrom::End(i64::MIN)), Err(Error::InvalidSeek)));
    assert_eq!(seekable.offset(), 10);
    seekable.seek(SeekFrom::Start(u64::MAX)).unwrap();
    assert!(matches!(seekable.seek(SeekFrom::Current(1)), Err(Error::InvalidSeek)));
    assert_eq!(seekable.offset(), u64::MAX);
}

#[test]
fn reads_are_served_from_the_extracted_chunk() {
    let index = index_with(-15, 1000, &[(0, 0, 0)]);
    let mut seekable = SeekableZLibReader::new(ByteCursor::new(counted(50)), index);
    seekable.seek(SeekFrom::Start(100)).unwrap();
    let (mut extraction, request) = seekable.fill_buffer().unwrap();
    assert_eq!(request, Request::Init { window_bits: -15 });
    assert_eq!(
        seekable.advance_fill(&mut extraction, Answer::Opened(0)).unwrap(),
        Request::SetDictionary { point: 0 }
    );
    assert_eq!(seekable.advance_fill(&mut extraction, Answer::Installed(0)).unwrap(), skip(100));
    assert_eq!(
        seekable.advance_fill(&mut extraction, inflated(0, 40, 0, 0)).unwrap(),
        deliver(0, CHUNK)
    );
    // The engine delivers 300 bytes and the stream ends.
    for (i, byte) in seekable.scratch()[..300].iter_mut().enumerate() {
        *byte = (i % 7) as u8;
    }
    assert_eq!(
        seekable.advance_fill(&mut extraction, inflated(1, 0, CHUNK - 300, 0)).unwrap(),
        Request::Finish
    );
    seekable.end_fill(&extraction).unwrap();
    assert!(!seekable.needs_fill());

    let mut buffer = [0xffu8; 8];
    assert_eq!(seekable.read_buffered(&mut buffer[..5]), 5);
    assert_eq!(buffer, [0, 1, 2, 3, 4, 0xff, 0xff, 0xff]);
    assert_eq!(seekable.offset(), 105);
    let mut rest = vec![0u8; 400];
    assert_eq!(seekable.read_buffered(&mut rest), 295);
    assert_eq!(rest[0], 5);
    assert_eq!(rest[294], (299 % 7) as u8);
    assert_eq!(seekable.offset(), 400);
    assert!(seekable.needs_fill());
    assert_eq!(seekable.read_buffered(&mut rest), 0);

    // A seek drops what is left of a chunk.
    seekable.seek(SeekFrom::Start(100)).unwrap();
    assert!(seekable.needs_fill());
    assert_eq!(seekable.read_buffered(&mut rest), 0);
}

#[test]
fn a_failed_fill_leaves_no_chunk() {
    let index = index_with(-15, 1000, &[(0, 0, 0)]);
    let mut seekable = SeekableZLibReader::new(ByteCursor::new(counted(50)), index);
    let (mut extraction, _) = seekable.fill_buffer().unwrap();
    seekable.advance_fill(&mut extraction, Answer::Opened(0)).unwrap();
    seekable.advance_fill(&mut extraction, Answer::Installed(0)).unwrap();
    assert_eq!(
        seekable.advance_fill(&mut extraction, inflated(-3, 0, CHUNK - 10, 0)).unwrap(),
        Request::Finish
    );
    assert!(matches!(seekable.end_fill(&extraction), Err(Error::Inflate(-3))));
    assert!(seekable.needs_fill());
    assert_eq!(seekable.offset(), 0);
}
