//! What building and extraction share: reading a chunk, probing for the end of the
//! source, telling the wrapper of a stream, and finding the access point for an offset.
use crate::error::Error;
use crate::pushback::PushbackReader;
use crate::source::{shorter, ByteSource};
use crate::types::{CompressionMode, DeflateIndex, CHUNK};
use vstd::prelude::*;

verus! {

/// The input of the engine after a refill: where it had run out, up to `CHUNK` bytes
/// are read from the source.
pub open spec fn refilled(pending: Seq<u8>, upcoming: Seq<u8>) -> (Seq<u8>, Seq<u8>) {
    if pending.len() == 0 {
        let n = shorter(CHUNK as int, upcoming.len() as int);
        (upcoming.take(n), upcoming.skip(n))
    } else {
        (pending, upcoming)
    }
}

/// Reads until `length` bytes stand at the front of `buffer` or the source has ended,
/// and returns how many bytes were read.
pub fn fread<R: ByteSource>(reader: &mut PushbackReader<R>, buffer: &mut [u8], length: usize) -> (r:
    Result<usize, Error>)
    requires
        length <= old(buffer)@.len(),
    ensures
        final(reader).source().content() == old(reader).source().content(),
        final(buffer)@.len() == old(buffer)@.len(),
        r matches Err(e) ==> {
            &&& e.from_source()
            &&& length > 0
            &&& old(reader).pending() is Some ==> length > 1
        },
        old(reader).reliable() ==> final(reader).reliable() && r is Ok,
        r matches Ok(n) ==> {
            &&& n == shorter(length as int, old(reader).upcoming().len() as int)
            &&& final(buffer)@.take(n as int) == old(reader).upcoming().take(n as int)
            &&& final(buffer)@.skip(n as int) == old(buffer)@.skip(n as int)
            &&& final(reader).upcoming() == old(reader).upcoming().skip(n as int)
            &&& final(reader).offset() == old(reader).offset() + n
        },
{
    let mut total_read: usize = 0;
    proof {
        assert(reader.upcoming().skip(0) =~= reader.upcoming());
        assert(buffer@.take(0) =~= reader.upcoming().take(0));
    }
    while total_read < length
        invariant
            total_read <= length <= buffer@.len(),
            buffer@.len() == old(buffer)@.len(),
            reader.source().content() == old(reader).source().content(),
            total_read <= old(reader).upcoming().len(),
            buffer@.take(total_read as int) == old(reader).upcoming().take(total_read as int),
            buffer@.skip(total_read as int) == old(buffer)@.skip(total_read as int),
            reader.upcoming() == old(reader).upcoming().skip(total_read as int),
            reader.offset() == old(reader).offset() + total_read,
            total_read == 0 ==> reader.pending() == old(reader).pending(),
            old(reader).reliable() ==> reader.reliable(),
        ensures
            total_read == shorter(length as int, old(reader).upcoming().len() as int),
        decreases length - total_read,
    {
        let ghost before = buffer@;
        let ghost ahead = reader.upcoming();
        let (front, _back) = buffer.split_at_mut(length);
        let (_done, room) = front.split_at_mut(total_read);
        match reader.read(room) {
            Ok(n) => {
                if n == 0 {
                    proof {
                        assert(room@.skip(0) =~= room@);
                        assert(buffer@ =~= before);
                    }
                    break ;
                }
                proof {
                    let got = total_read + n;
                    assert(buffer@.take(got) =~= old(reader).upcoming().take(got)) by {
                        assert forall|i: int| 0 <= i < got implies #[trigger] buffer@[i] == old(
                            reader,
                        ).upcoming()[i] by {
                            if i < total_read {
                                assert(before.take(total_read as int)[i] == before[i]);
                                assert(old(reader).upcoming().take(total_read as int)[i] == old(
                                    reader,
                                ).upcoming()[i]);
                            } else {
                                assert(room@.take(n as int)[i - total_read] == room@[i
                                    - total_read]);
                                assert(ahead.take(n as int)[i - total_read] == ahead[i
                                    - total_read]);
                            }
                        }
                    }
                    assert(buffer@.skip(got) =~= old(buffer)@.skip(got)) by {
                        assert forall|i: int| got <= i < buffer@.len() implies #[trigger] buffer@[i]
                            == old(buffer)@[i] by {
                            assert(before.skip(total_read as int)[i - total_read] == before[i]);
                            assert(old(buffer)@.skip(total_read as int)[i - total_read] == old(
                                buffer,
                            )@[i]);
                            if i < length {
                                let was = before.subrange(0, length as int).subrange(
                                    total_read as int,
                                    length as int,
                                );
                                assert(room@.skip(n as int)[i - got] == room@[i - total_read]);
                                assert(was.skip(n as int)[i - got] == was[i - total_read]);
                            }
                        }
                    }
                    assert(reader.upcoming() =~= old(reader).upcoming().skip(got));
                }
                total_read = total_read + n;
            },
            Err(e) => {
                return Err(e);
            },
        }
    }
    Ok(total_read)
}

/// Fills the whole of `buffer` from the source, or fails where the source ends first.
pub fn read_exact<R: ByteSource>(reader: &mut PushbackReader<R>, buffer: &mut [u8]) -> (r: Result<
    (),
    Error,
>)
    ensures
        final(reader).source().content() == old(reader).source().content(),
        final(buffer)@.len() == old(buffer)@.len(),
        r is Ok ==> {
            &&& old(buffer)@.len() <= old(reader).upcoming().len()
            &&& final(buffer)@ == old(reader).upcoming().take(old(buffer)@.len() as int)
            &&& final(reader).upcoming() == old(reader).upcoming().skip(old(buffer)@.len() as int)
            &&& final(reader).offset() == old(reader).offset() + old(buffer)@.len()
        },
        old(reader).reliable() ==> {
            &&& final(reader).reliable()
            &&& r is Ok <==> old(buffer)@.len() <= old(reader).upcoming().len()
            &&& r matches Err(e) ==> e is UnexpectedEof
        },
        r matches Err(e) ==> {
            ||| (e is UnexpectedEof && old(buffer)@.len() > old(reader).upcoming().len())
            ||| (e.from_source() && old(buffer)@.len() > 0 && (old(reader).pending() is Some
                ==> old(buffer)@.len() > 1))
        },
{
    let wanted = buffer.len();
    match fread(reader, buffer, wanted) {
        Ok(n) => {
            if n < wanted {
                Err(Error::UnexpectedEof)
            } else {
                proof {
                    assert(buffer@.take(n as int) =~= buffer@);
                }
                Ok(())
            }
        },
        Err(e) => Err(e),
    }
}

/// Tells whether the source has ended, without using up a byte: a byte that could be
/// read is pushed back.
pub fn is_eof<R: ByteSource>(reader: &mut PushbackReader<R>) -> (r: Result<bool, Error>)
    ensures
        final(reader).source().content() == old(reader).source().content(),
        r matches Err(e) ==> e.from_source() && old(reader).pending() is None,
        old(reader).reliable() ==> final(reader).reliable() && r is Ok,
        r matches Ok(ended) ==> {
            &&& ended == (old(reader).upcoming().len() == 0)
            &&& final(reader).upcoming() == old(reader).upcoming()
            &&& final(reader).offset() == old(reader).offset()
        },
{
    let mut buf: Vec<u8> = vec![0u8; 1];
    match reader.read(buf.as_mut_slice()) {
        Ok(n) => {
            if n == 0 {
                proof {
                    assert(reader.upcoming() =~= old(reader).upcoming());
                }
                Ok(true)
            } else {
                let byte = buf[0];
                proof {
                    assert(buf@.take(1)[0] == buf@[0]);
                    assert(old(reader).upcoming().take(1)[0] == old(reader).upcoming()[0]);
                }
                match reader.unread(byte) {
                    Ok(()) => {
                        proof {
                            assert(reader.upcoming() =~= old(reader).upcoming());
                        }
                        Ok(false)
                    },
                    Err(e) => Err(e),
                }
            }
        },
        Err(e) => Err(e),
    }
}

/// The wrapper that a stream is taken to have, judged by its first byte.
pub open spec fn mode_of_first_byte(first: Option<u8>) -> CompressionMode {
    match first {
        None => CompressionMode::Raw,
        Some(byte) => if byte % 16 == 8 {
            CompressionMode::Zlib
        } else if byte == 0x1f {
            CompressionMode::Gzip
        } else {
            CompressionMode::Raw
        },
    }
}

/// Tells the wrapper of a stream by its first byte: a low nibble of 8 is taken for
/// zlib, the byte 0x1f for gzip, and anything else, or no byte at all, for raw DEFLATE.
pub fn detect_mode(first: Option<u8>) -> (mode: CompressionMode)
    ensures
        mode == mode_of_first_byte(first),
{
    match first {
        None => CompressionMode::Raw,
        Some(byte) => {
            assert(byte & 0xf == byte % 16) by (bit_vector);
            if (byte & 0xf) == 8 {
                CompressionMode::Zlib
            } else if byte == 0x1f {
                CompressionMode::Gzip
            } else {
                CompressionMode::Raw
            }
        },
    }
}

/// Whether `i` is the place of the access point to resume from for `offset`: the point
/// is not after the offset, and the next point, if there is one, is.
pub open spec fn is_nearest_point(index: &DeflateIndex, offset: u64, i: int) -> bool {
    &&& 0 <= i < index.list@.len()
    &&& index.list@[i].out <= offset
    &&& i + 1 < index.list@.len() ==> offset < index.list@[i + 1].out
}

/// Finds, by bisection, the access point closest to `offset` but not after it. Where
/// several points stand at one position, the last of them is found.
pub fn find_point(index: &DeflateIndex, offset: u64) -> (i: usize)
    requires
        index.list@.len() > 0,
        index.list@[0].out <= offset,
    ensures
        is_nearest_point(index, offset, i as int),
{
    // `below` is one more than the place of the last point known not to be after the
    // offset; `hi` is the place of the first point known to be after it.
    let mut below: usize = 0;
    let mut hi: usize = index.list.len();
    while below < hi
        invariant
            0 <= below <= hi <= index.list@.len(),
            below > 0 ==> index.list@[below - 1].out <= offset,
            hi < index.list@.len() ==> offset < index.list@[hi as int].out,
            index.list@.len() > 0,
            index.list@[0].out <= offset,
        decreases hi - below,
    {
        let mid: usize = below + (hi - below - 1) / 2;
        if offset < index.list[mid].out {
            hi = mid;
        } else {
            below = mid + 1;
        }
    }
    below - 1
}

} // verus!
