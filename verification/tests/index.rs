use deflate_index::error::Error;
use deflate_index::serial::deserialize;
use deflate_index::types::{CompressionMode, DeflateIndex, Point, CHUNK, WINSIZE};
use deflate_index::zlib::zlib_error_description;
use deflate_index::zran::{detect_mode, find_point};

fn ring_of(f: fn(usize) -> u8) -> Vec<u8> {
    let mut ring = vec![0u8; WINSIZE];
    for (i, byte) in ring.iter_mut().enumerate() {
        *byte = f(i);
    }
    ring
}

fn low_byte(i: usize) -> u8 {
    (i % 251) as u8
}

#[test]
fn constants_are_those_of_deflate() {
    assert_eq!(WINSIZE, 32768);
    assert_eq!(CHUNK, 16384);
}

#[test]
fn window_bits_of_each_mode() {
    assert_eq!(CompressionMode::Raw.window_bits(), -15);
    assert_eq!(CompressionMode::Zlib.window_bits(), 15);
    assert_eq!(CompressionMode::Gzip.window_bits(), 31);
    assert_eq!(CompressionMode::from_window_bits(-15), Some(CompressionMode::Raw));
    assert_eq!(CompressionMode::from_window_bits(15), Some(CompressionMode::Zlib));
    assert_eq!(CompressionMode::from_window_bits(31), Some(CompressionMode::Gzip));
    assert_eq!(CompressionMode::from_window_bits(0), None);
    assert_eq!(CompressionMode::from_window_bits(47), None);
}

#[test]
fn new_point_has_a_window_of_zeros() {
    let point = Point::new();
    assert_eq!(point.inn, 0);
    assert_eq!(point.out, 0);
    assert_eq!(point.bits, 0);
    assert_eq!(point.window, vec![0u8; 32768]);
}

#[test]
fn new_index_is_empty() {
    let index = DeflateIndex::new();
    assert_eq!(index.mode, 0);
    assert_eq!(index.length, 0);
    assert!(index.list.is_empty());
}

#[test]
fn add_point_unrolls_the_ring() {
    let ring = ring_of(low_byte);
    let mut index = DeflateIndex::new();
    index.add_point(3, 17, 99, 1000, &ring);
    assert_eq!(index.list.len(), 1);
    let point = &index.list[0];
    assert_eq!((point.inn, point.out, point.bits), (17, 99, 3));
    assert_eq!(point.window.len(), 32768);
    // The oldest bytes are the last 1000 of the ring, the newest those before them.
    assert_eq!(&point.window[..1000], &ring[31768..]);
    assert_eq!(&point.window[1000..], &ring[..31768]);
    assert_eq!(index.mode, 0);
    assert_eq!(index.length, 0);
}

#[test]
fn add_point_with_a_full_or_an_empty_ring_tail() {
    let ring = ring_of(low_byte);
    let mut index = DeflateIndex::new();
    index.add_point(0, 0, 0, 0, &ring);
    index.add_point(7, 5, 6, 32768, &ring);
    assert_eq!(index.list.len(), 2);
    assert_eq!(index.list[0].window, ring);
    assert_eq!(index.list[1].window, ring);
    assert_eq!(index.list[1].bits, 7);
}

#[test]
fn descriptions_of_the_engine_codes() {
    assert_eq!(zlib_error_description(0), "No error");
    assert_eq!(zlib_error_description(1), "End of stream");
    assert_eq!(zlib_error_description(2), "Dictionary needed");
    assert_eq!(zlib_error_description(-1), "File error");
    assert_eq!(zlib_error_description(-2), "Stream error");
    assert_eq!(zlib_error_description(-3), "Data error");
    assert_eq!(zlib_error_description(-4), "Memory error");
    assert_eq!(zlib_error_description(-5), "Buffer error");
    assert_eq!(zlib_error_description(5), "Block error");
    assert_eq!(zlib_error_description(-6), "Unknown error");
    assert_eq!(zlib_error_description(42), "Unknown error");
}

#[test]
fn mode_is_told_by_the_first_byte() {
    assert_eq!(detect_mode(None), CompressionMode::Raw);
    assert_eq!(detect_mode(Some(0x78)), CompressionMode::Zlib);
    assert_eq!(detect_mode(Some(0x08)), CompressionMode::Zlib);
    assert_eq!(detect_mode(Some(0xf8)), CompressionMode::Zlib);
    assert_eq!(detect_mode(Some(0x1f)), CompressionMode::Gzip);
    assert_eq!(detect_mode(Some(0x00)), CompressionMode::Raw);
    assert_eq!(detect_mode(Some(0xed)), CompressionMode::Raw);
    assert_eq!(detect_mode(Some(0x80)), CompressionMode::Raw);
}

fn index_at(outs: &[u64]) -> DeflateIndex {
    let ring = vec![0u8; WINSIZE];
    let mut index = DeflateIndex::new();
    for (i, out) in outs.iter().enumerate() {
        index.add_point(0, i as u64, *out, 0, &ring);
    }
    index
}

#[test]
fn find_point_takes_the_nearest_point_not_after_the_offset() {
    let index = index_at(&[0, 100, 200, 300, 400]);
    assert_eq!(find_point(&index, 0), 0);
    assert_eq!(find_point(&index, 99), 0);
    assert_eq!(find_point(&index, 100), 1);
    assert_eq!(find_point(&index, 101), 1);
    assert_eq!(find_point(&index, 399), 3);
    assert_eq!(find_point(&index, 400), 4);
    assert_eq!(find_point(&index, u64::MAX), 4);
}

#[test]
fn find_point_with_one_point() {
    let index = index_at(&[0]);
    assert_eq!(find_point(&index, 0), 0);
    assert_eq!(find_point(&index, 12345), 0);
}

#[test]
fn find_point_prefers_the_later_of_equal_points() {
    let index = index_at(&[0, 50, 50, 50, 70]);
    assert_eq!(find_point(&index, 50), 3);
    assert_eq!(find_point(&index, 69), 3);
    assert_eq!(find_point(&index, 49), 0);
}

#[test]
fn serialize_writes_big_endian_fields_and_windows() {
    let mut ring = vec![0u8; WINSIZE];
    ring[0] = 0xaa;
    ring[WINSIZE - 1] = 0xbb;
    let mut index = DeflateIndex::new();
    index.add_point(0, 0, 0, 0, &ring);
    index.add_point(5, 0x0102030405060708, 0x1112131415161718, 0, &ring);
    index.mode = -15;
    index.length = 0x2122232425262728;
    let bytes = index.serialize();
    assert_eq!(bytes.len(), 16 + 2 * (20 + 32768));
    assert_eq!(&bytes[..8], &[0x21, 0x22, 0x23, 0x24, 0x25, 0x26, 0x27, 0x28]);
    assert_eq!(&bytes[8..12], &[0xff, 0xff, 0xff, 0xf1]);
    assert_eq!(&bytes[12..16], &[0, 0, 0, 2]);
    assert_eq!(&bytes[16..36], &[0u8; 20]);
    assert_eq!(&bytes[36..36 + 32768], &ring[..]);
    let second = 36 + 32768;
    assert_eq!(&bytes[second..second + 8], &[1, 2, 3, 4, 5, 6, 7, 8]);
    assert_eq!(
        &bytes[second + 8..second + 16],
        &[0x11, 0x12, 0x13, 0x14, 0x15, 0x16, 0x17, 0x18]
    );
    assert_eq!(&bytes[second + 16..second + 20], &[0, 0, 0, 5]);
    assert_eq!(&bytes[second + 20..], &ring[..]);
}

#[test]
fn serialize_of_an_empty_index() {
    let mut index = DeflateIndex::new();
    index.mode = 31;
    index.length = 1;
    assert_eq!(index.serialize(), vec![0, 0, 0, 0, 0, 0, 0, 1, 0, 0, 0, 31, 0, 0, 0, 0]);
}

#[test]
fn serialize_twice_gives_the_same_bytes() {
    let ring = ring_of(low_byte);
    let mut index = DeflateIndex::new();
    index.add_point(2, 10, 0, 77, &ring);
    index.mode = 15;
    index.length = 500;
    assert_eq!(index.serialize(), index.serialize());
    assert_eq!(index.clone().serialize(), index.serialize());
}

fn sample_index() -> DeflateIndex {
    let ring = ring_of(low_byte);
    let mut index = DeflateIndex::new();
    index.add_point(0, 2, 0, 0, &ring);
    index.add_point(5, 0x0102030405060708, 0x1112131415161718, 300, &ring);
    index.add_point(7, u64::MAX, u64::MAX, 32768, &ring);
    index.mode = 15;
    index.length = 0xfedcba9876543210;
    index
}

fn same(a: &DeflateIndex, b: &DeflateIndex) -> bool {
    a.mode == b.mode
        && a.length == b.length
        && a.list.len() == b.list.len()
        && a.list.iter().zip(b.list.iter()).all(|(p, q)| {
            p.inn == q.inn && p.out == q.out && p.bits == q.bits && p.window == q.window
        })
}

#[test]
fn deserialize_reads_back_what_serialize_wrote() {
    let index = sample_index();
    let bytes = index.serialize();
    let reloaded = deserialize(&bytes).unwrap();
    assert!(same(&index, &reloaded));
    assert_eq!(reloaded.list[1].bits, 5);
    assert_eq!(reloaded.list[1].inn, 0x0102030405060708);
    assert_eq!(reloaded.list[2].out, u64::MAX);
    assert_eq!(reloaded.serialize(), bytes);
}

#[test]
fn deserialize_reads_every_mode_and_an_empty_index() {
    for mode in [-15, 15, 31, 0, i32::MIN, i32::MAX] {
        let mut index = DeflateIndex::new();
        index.mode = mode;
        index.length = 77;
        let reloaded = deserialize(&index.serialize()).unwrap();
        assert_eq!(reloaded.mode, mode);
        assert_eq!(reloaded.length, 77);
        assert!(reloaded.list.is_empty());
    }
}

#[test]
fn deserialize_refuses_bytes_that_hold_no_index() {
    let bytes = sample_index().serialize();
    // Too short for a header.
    assert!(deserialize(&[]).is_none());
    assert!(deserialize(&bytes[..15]).is_none());
    // A byte too few, a byte too many, a record too few.
    assert!(deserialize(&bytes[..bytes.len() - 1]).is_none());
    let mut longer = bytes.clone();
    longer.push(0);
    assert!(deserialize(&longer).is_none());
    assert!(deserialize(&bytes[..bytes.len() - 32788]).is_none());
    // A header alone with a count of points.
    assert!(deserialize(&bytes[..16]).is_none());
    // A negative number of points.
    let mut negative = bytes[..16].to_vec();
    negative[12] = 0xff;
    negative[13] = 0xff;
    negative[14] = 0xff;
    negative[15] = 0xff;
    assert!(deserialize(&negative).is_none());
    // The bytes as they were are an index.
    assert!(deserialize(&bytes).is_some());
}

#[test]
fn deserialize_takes_the_window_as_it_stands() {
    let mut bytes = sample_index().serialize();
    let first_window = 16 + 20;
    bytes[first_window] = 0xc3;
    bytes[first_window + 32767] = 0x3c;
    let reloaded = deserialize(&bytes).unwrap();
    assert_eq!(reloaded.list[0].window[0], 0xc3);
    assert_eq!(reloaded.list[0].window[32767], 0x3c);
    assert_eq!(reloaded.list[1].window, sample_index().list[1].window);
}

#[test]
fn failures_in_words() {
    assert_eq!(Error::Init(-4).description(), "Memory error");
    assert_eq!(Error::Inflate(-3).description(), "Data error");
    assert_eq!(Error::Inflate(-5).description(), "Buffer error");
    assert_eq!(Error::Inflate(99).description(), "Unknown error");
    assert_eq!(Error::InvalidIndex.description(), "Invalid index");
    assert_eq!(Error::PushbackFull.description(), "Pushback buffer already full");
    assert_eq!(Error::UnexpectedEof.description(), "Unexpected end of source");
    assert_eq!(Error::InvalidSeek.description(), "Invalid seek");
    let broken = std::io::Error::new(std::io::ErrorKind::Other, "broken");
    assert_eq!(Error::Io(broken).description(), "Source error");
}
