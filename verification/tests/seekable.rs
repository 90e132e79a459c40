use deflate_index::builder::IndexBuilder;
use deflate_index::engine::{Answer, Outcome, Output, Request};
use deflate_index::pushback::PushbackReader;
use deflate_index::reader::SeekableZLibReader;
use deflate_index::source::{ByteCursor, SeekFrom};
use deflate_index::types::CompressionMode::{Gzip, Raw, Zlib};
use deflate_index::types::{DeflateIndex, CHUNK, WINSIZE};
use deflate_index::zran::read_exact;
use zlib_rs::{
    compress_slice, DeflateConfig, Inflate, InflateError, InflateFlush, ReturnCode, Status,
};

// Fills the provided buffer with pseudorandom bytes based on the given seed
// Duplicates bytes by `step` in a row
fn prng_bytes(seed: u64, bytes: &mut [u8], step: usize) {
    const M: u64 = 2u64.pow(32);
    const A: u64 = 1664525;
    const C: u64 = 1013904223;
    let mut state = seed;
    for chunk in bytes.chunks_mut(4 * step) {
        state = (A * state + C) % M;
        let rand_bytes = state.to_le_bytes();
        for (i, byte) in chunk.iter_mut().enumerate() {
            *byte = rand_bytes[i / step];
        }
    }
}

fn create_data(seed: u64) -> Vec<u8> {
    let mut data = vec![0u8; 160000];
    prng_bytes(seed, &mut data, 4);

    data
}

#[test]
fn test_seekable_raw_reader() {
    let data = create_data(12345);

    // Create a clone of the last 10 bytes of the data
    let off = data.len() - 10;
    let end = data.len();
    let data_clone_end = data[off..end].to_vec();

    let mut buffer = vec![0; end - off];
    let mut reader = PushbackReader::new(ByteCursor::new(data));

    reader.seek(SeekFrom::Start(off as u64)).unwrap();
    read_exact(&mut reader, &mut buffer).unwrap();

    assert_eq!(buffer, data_clone_end);
}

#[test]
fn generated_data_starts_as_the_generator_says() {
    let data = create_data(12345);
    // state = (1664525 * 12345 + 1013904223) mod 2^32 = 87628868, in little-endian
    // order, each byte four times.
    let state: u32 = 87628868;
    let bytes = state.to_le_bytes();
    for (i, byte) in data[..16].iter().enumerate() {
        assert_eq!(*byte, bytes[i / 4]);
    }
    assert_eq!(&data[..4], &[0x44, 0x44, 0x44, 0x44]);
}

fn compress(data: &[u8], window_bits: i32) -> Vec<u8> {
    let config = DeflateConfig { window_bits, ..DeflateConfig::default() };

    let mut output = vec![0u8; 80000];
    // Compress the data
    let (compressed_data, return_code) = compress_slice(&mut output, data, config);
    assert_eq!(return_code, ReturnCode::Ok);
    let len = compressed_data.len();

    // 0..compressed_data.len() is the compressed data
    output.truncate(len);

    output
}

fn code_of(status: Result<Status, InflateError>) -> i32 {
    match status {
        Ok(Status::Ok) => 0,
        Ok(Status::StreamEnd) => 1,
        Ok(Status::BufError) => -5,
        Err(InflateError::NeedDict { .. }) => 2,
        Err(InflateError::StreamError) => -2,
        Err(InflateError::DataError) => -3,
        Err(InflateError::MemError) => -4,
    }
}

// An inflate engine behind the requests of the library. It tells the end of the
// wrapper's header, where no output has been produced yet, and no other boundary: an
// index built with it has its first point and no more. It resumes on byte boundaries
// only, which is where that point stands.
struct Engine {
    session: Option<Inflate>,
    discard: Vec<u8>,
}

impl Engine {
    fn new() -> Self {
        Engine { session: None, discard: vec![0u8; WINSIZE] }
    }

    fn serve(
        &mut self,
        request: Request,
        input: &[u8],
        index: Option<&DeflateIndex>,
        target: &mut [u8],
    ) -> Answer {
        match request {
            Request::Init { window_bits } => {
                self.session = Some(match window_bits {
                    -15 => Inflate::new(false, 15),
                    15 => Inflate::new(true, 15),
                    31 => Inflate::new(true, 31),
                    _ => panic!("no such wrapper"),
                });
                Answer::Opened(0)
            }
            Request::Prime { .. } => panic!("no bits can be given to this engine"),
            Request::SetDictionary { point } => {
                let session = self.session.as_mut().unwrap();
                match session.set_dictionary(&index.unwrap().list[point].window) {
                    Ok(_) => Answer::Installed(0),
                    Err(error) => Answer::Installed(code_of(Err(error))),
                }
            }
            Request::Inflate { flush, output } => {
                let session = self.session.as_mut().unwrap();
                let (out, len) = match output {
                    Output::Ring { at, len } => (&mut target[at..at + len as usize], len),
                    Output::Deliver { at, len } => (&mut target[at..at + len as usize], len),
                    Output::Discard { len } => (&mut self.discard[..len as usize], len),
                };
                let flush = if flush == 5 { InflateFlush::Block } else { InflateFlush::NoFlush };
                let (before_in, before_out) = (session.total_in(), session.total_out());
                let ret = code_of(session.decompress(input, out, flush));
                let consumed = (session.total_in() - before_in) as usize;
                let produced = (session.total_out() - before_out) as u32;
                let after_header = flush == InflateFlush::Block
                    && ret == 0
                    && before_in == 0
                    && consumed > 0
                    && consumed < input.len()
                    && produced == 0;
                Answer::Inflated(Outcome {
                    ret,
                    avail_in: (input.len() - consumed) as u32,
                    avail_out: len - produced,
                    data_type: if after_header { 0x80 } else { 0 },
                })
            }
            Request::Reset { .. } => panic!("one member only"),
            Request::Finish => panic!("nothing to serve"),
        }
    }
}

fn build_index(reader: ByteCursor, span: u64) -> (ByteCursor, DeflateIndex) {
    let (mut builder, mut request) = IndexBuilder::begin(reader, span).unwrap();
    let mut engine = Engine::new();
    let mut ring = vec![0u8; WINSIZE];
    while request != Request::Finish {
        let input = builder.pending_input().to_vec();
        let answer = engine.serve(request, &input, None, &mut ring);
        assert!(builder.accepts(&answer));
        request = builder.advance(&ring, answer).unwrap();
    }
    let (reader, index) = builder.finish();
    (reader, index.unwrap())
}

fn read(seekable: &mut SeekableZLibReader<ByteCursor>, buf: &mut [u8]) -> usize {
    if seekable.needs_fill() {
        let (mut extraction, mut request) = seekable.fill_buffer().unwrap();
        let mut engine = Engine::new();
        while request != Request::Finish {
            let input = extraction.pending_input().to_vec();
            let index = seekable.index().clone();
            let answer = engine.serve(request, &input, Some(&index), seekable.scratch());
            assert!(extraction.accepts(&answer));
            request = seekable.advance_fill(&mut extraction, answer).unwrap();
        }
        seekable.end_fill(&extraction).unwrap();
    }
    seekable.read_buffered(buf)
}

fn test_seekable_zlib_reader(span: u64, window_bits: i32) {
    let data = create_data(12345);
    let compressed_data = compress(&data, window_bits);

    // Create a clone of the last 10 bytes of the data
    let off = data.len() - 10;
    let end = data.len();
    let data_clone_end = data[off..end].to_vec();

    let reader = ByteCursor::new(compressed_data.clone());

    let (reader, index) = build_index(reader, span);

    assert_eq!(index.mode, window_bits);
    assert_eq!(index.length, 160000);
    assert!(!index.list.is_empty());
    assert_eq!(index.list[0].out, 0);
    for point in &index.list {
        println!("inn: {}, out: {}, bits: {}", point.inn, point.out, point.bits);
        assert_eq!(point.window.len(), 32768);
    }

    let mut seekable_reader =
        SeekableZLibReader::new(ByteCursor::new(reader.into_inner()), index);

    seekable_reader.seek(SeekFrom::Start(off as u64)).unwrap();

    let mut buffer = vec![0; end - off];

    let mut done = 0;
    while done < buffer.len() {
        let n = read(&mut seekable_reader, &mut buffer[done..]);
        assert!(n > 0);
        done += n;
    }

    assert_eq!(buffer, data_clone_end);
}

#[test]
pub fn test_seekable_zlib_reader_raw() {
    let span = CHUNK as u64;
    let window_bits = Raw.window_bits();
    test_seekable_zlib_reader(span, window_bits)
}

#[test]
pub fn test_seekable_zlib_reader_zlib() {
    let span = CHUNK as u64;
    let window_bits = Zlib.window_bits();
    test_seekable_zlib_reader(span, window_bits)
}

#[test]
pub fn test_seekable_zlib_reader_gz() {
    let span = CHUNK as u64;
    let window_bits = Gzip.window_bits();
    test_seekable_zlib_reader(span, window_bits)
}

#[test]
fn building_twice_over_one_stream_gives_the_same_bytes() {
    let data = create_data(12345);
    for window_bits in [-15, 15, 31] {
        let compressed_data = compress(&data, window_bits);
        let (_, first) = build_index(ByteCursor::new(compressed_data.clone()), CHUNK as u64);
        let (_, second) = build_index(ByteCursor::new(compressed_data), CHUNK as u64);
        assert_eq!(first.serialize(), second.serialize());
        assert_eq!(first.mode, window_bits);
    }
}
