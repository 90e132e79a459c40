//! A reader over the uncompressed data that can be moved to any offset.
use crate::engine::{agrees, Answer, Request};
use crate::error::Error;
use crate::extractor::{begun, extraction_step, Extraction, Stage};
use crate::pushback::PushbackReader;
use crate::source::{shorter, ByteSource, SeekFrom};
use crate::types::{DeflateIndex, CHUNK};
use vstd::prelude::*;

verus! {

/// A seekable reader as a mathematical value.
pub struct ReaderView {
    /// The offset in the uncompressed data of the next byte to be read.
    pub offset: u64,
    /// The buffer into which a chunk is extracted.
    pub scratch: Seq<u8>,
    /// How much of the extracted chunk has been read.
    pub pos: usize,
    /// How long the extracted chunk is.
    pub size: usize,
}

impl ReaderView {
    /// The extracted bytes that have not been read yet.
    pub open spec fn cached(self) -> Seq<u8> {
        self.scratch.subrange(self.pos as int, self.size as int)
    }

    /// The chunk lies in the buffer, and reading it to its end keeps the offset in range.
    pub open spec fn well_formed(self) -> bool {
        &&& self.scratch.len() == CHUNK
        &&& self.pos <= self.size <= CHUNK
        &&& self.offset + (self.size - self.pos) <= u64::MAX
    }

    /// Whether the chunk is used up, so that the next read has to extract another.
    pub open spec fn exhausted(self) -> bool {
        self.pos >= self.size
    }
}

/// The offset that a seek asks for, which may lie outside what a `u64` holds: from the
/// start, from the current offset, or back from the end; forward from the end it stays
/// at the end.
pub open spec fn reader_seek_target(length: u64, offset: u64, pos: SeekFrom) -> int {
    match pos {
        SeekFrom::Start(to) => to as int,
        SeekFrom::End(by) => if by >= 0 {
            length as int
        } else {
            length + by
        },
        SeekFrom::Current(by) => offset + by,
    }
}

/// A read after a seek hands out what an extraction at the offset of the seek
/// delivers: the seek leaves no chunk, so that the read has to extract first, and it
/// extracts at that offset; of the bytes that the extraction delivered into the
/// buffer the read hands out the first, as many as are wanted and were delivered.
pub proof fn lemma_read_after_seek(
    reader: ReaderView,
    target: u64,
    delivered: Seq<u8>,
    count: usize,
    wanted: usize,
)
    requires
        reader.well_formed(),
        delivered.len() == CHUNK,
        count <= CHUNK,
        target + count <= u64::MAX,
    ensures
        ({
            let sought = ReaderView { offset: target, pos: 0, size: 0, ..reader };
            let filled = ReaderView { scratch: delivered, pos: 0, size: count, ..sought };
            let n = shorter(wanted as int, count as int);
            &&& sought.well_formed()
            &&& sought.exhausted()
            &&& filled.well_formed()
            &&& filled.offset == target
            &&& filled.cached().take(n) == delivered.take(n)
            &&& n == shorter(wanted as int, filled.cached().len() as int)
        }),
{
    let sought = ReaderView { offset: target, pos: 0, size: 0, ..reader };
    let filled = ReaderView { scratch: delivered, pos: 0, size: count, ..sought };
    let n = shorter(wanted as int, count as int);
    assert(filled.cached() =~= delivered.take(count as int));
    assert(filled.cached().take(n) =~= delivered.take(n));
}

/// Reads the uncompressed data of a compressed stream from any offset, a chunk at a
/// time, through the stream's index.
pub struct SeekableZLibReader<R: ByteSource> {
    reader: PushbackReader<R>,
    index: DeflateIndex,
    current_offset: u64,
    buffer: Vec<u8>,
    buffer_pos: usize,
    buffer_size: usize,
}

impl<R: ByteSource> View for SeekableZLibReader<R> {
    type V = ReaderView;

    closed spec fn view(&self) -> ReaderView {
        ReaderView {
            offset: self.current_offset,
            scratch: self.buffer@,
            pos: self.buffer_pos,
            size: self.buffer_size,
        }
    }
}

impl<R: ByteSource> SeekableZLibReader<R> {
    /// The compressed stream.
    pub closed spec fn stream(&self) -> PushbackReader<R> {
        self.reader
    }

    /// The index of the stream.
    pub closed spec fn index_of(&self) -> DeflateIndex {
        self.index
    }

    /// A reader at offset 0 that has extracted nothing yet.
    pub fn new(reader: R, index: DeflateIndex) -> (seekable: Self)
        ensures
            seekable@.well_formed(),
            seekable@.offset == 0,
            seekable@.pos == 0,
            seekable@.size == 0,
            seekable.stream().source() == reader,
            seekable.stream().pending() is None,
            seekable.index_of() == index,
    {
        Self {
            reader: PushbackReader::new(reader),
            index,
            current_offset: 0,
            buffer: vec![0u8; CHUNK],
            buffer_pos: 0,
            buffer_size: 0,
        }
    }

    /// The index of the stream.
    pub fn index(&self) -> (index: &DeflateIndex)
        ensures
            *index == self.index_of(),
    {
        &self.index
    }

    /// The offset in the uncompressed data of the next byte to be read.
    pub fn offset(&self) -> (offset: u64)
        ensures
            offset == self@.offset,
    {
        self.current_offset
    }

    /// Moves to another offset and drops the extracted chunk, so that the next read
    /// extracts at the new offset. The compressed stream is not touched.
    ///
    /// An offset before the start, or beyond what a `u64` holds, is refused and
    /// changes nothing.
    pub fn seek(&mut self, pos: SeekFrom) -> (r: Result<u64, Error>)
        requires
            old(self)@.well_formed(),
        ensures
            final(self)@.well_formed(),
            final(self).stream() == old(self).stream(),
            final(self).index_of() == old(self).index_of(),
            ({
                let target = reader_seek_target(old(self).index_of().length, old(self)@.offset, pos);
                if 0 <= target <= u64::MAX {
                    &&& r == Ok::<u64, Error>(target as u64)
                    &&& final(self)@ == (ReaderView {
                        offset: target as u64,
                        pos: 0,
                        size: 0,
                        ..old(self)@
                    })
                } else {
                    &&& r == Err::<u64, Error>(Error::InvalidSeek)
                    &&& final(self)@ == old(self)@
                }
            }),
    {
        let target: Option<u64> = match pos {
            SeekFrom::Start(to) => Some(to),
            SeekFrom::End(by) => if by >= 0 {
                Some(self.index.length)
            } else {
                crate::source::offset_by(self.index.length, by)
            },
            SeekFrom::Current(by) => crate::source::offset_by(self.current_offset, by),
        };
        match target {
            Some(offset) => {
                self.current_offset = offset;
                self.buffer_pos = 0;
                self.buffer_size = 0;
                Ok(offset)
            },
            None => Err(Error::InvalidSeek),
        }
    }

    /// Whether the next read has to extract a chunk first.
    pub fn needs_fill(&self) -> (yes: bool)
        ensures
            yes == self@.exhausted(),
    {
        self.buffer_pos >= self.buffer_size
    }

    /// Sets out to extract the chunk at the current offset into the buffer.
    pub fn fill_buffer(&mut self) -> (r: Result<(Extraction, Request), Error>)
        requires
            old(self)@.well_formed(),
        ensures
            final(self)@ == (ReaderView { pos: 0, size: 0, ..old(self)@ }),
            final(self).index_of() == old(self).index_of(),
            begun(
                old(self).stream(),
                final(self).stream(),
                &old(self).index_of(),
                old(self)@.offset,
                CHUNK,
                r,
            ),
    {
        self.buffer_pos = 0;
        self.buffer_size = 0;
        Extraction::begin(&mut self.reader, &self.index, self.current_offset, CHUNK)
    }

    /// Hands the engine's answer to the extraction that fills the buffer.
    pub fn advance_fill(&mut self, extraction: &mut Extraction, answer: Answer) -> (r: Result<
        Request,
        Error,
    >)
        requires
            old(extraction).wf(),
            old(extraction)@.accepts(answer),
        ensures
            final(self)@ == old(self)@,
            final(self).index_of() == old(self).index_of(),
            r is Ok ==> final(extraction).wf(),
            final(self).stream().source().content() == old(self).stream().source().content(),
            agrees(
                r,
                final(extraction)@,
                final(self).stream().upcoming(),
                extraction_step(old(extraction)@, old(self).stream().upcoming(), answer),
                old(self).stream().reliable(),
            ),
            old(self).stream().reliable() ==> final(self).stream().reliable(),
    {
        extraction.advance(&mut self.reader, answer)
    }

    /// The buffer that the engine delivers into while a chunk is extracted.
    pub fn scratch(&mut self) -> (out: &mut [u8])
        ensures
            out@ == old(self)@.scratch,
            final(self)@ == (ReaderView { scratch: final(out)@, ..old(self)@ }),
            final(self).stream() == old(self).stream(),
            final(self).index_of() == old(self).index_of(),
    {
        self.buffer.as_mut_slice()
    }

    /// Ends the extraction that filled the buffer: what it delivered becomes the
    /// extracted chunk, and where the engine failed the reader stays without one.
    pub fn end_fill(&mut self, extraction: &Extraction) -> (r: Result<(), Error>)
        requires
            extraction.wf(),
            extraction@.stage == Stage::Finished,
            extraction@.total == CHUNK,
            old(self)@.scratch.len() == CHUNK,
            extraction@.result() matches Ok(count) ==> old(self)@.offset + count <= u64::MAX,
        ensures
            final(self)@.well_formed(),
            final(self).stream() == old(self).stream(),
            final(self).index_of() == old(self).index_of(),
            match extraction@.result() {
                Ok(count) => {
                    &&& r is Ok
                    &&& final(self)@ == (ReaderView { pos: 0, size: count, ..old(self)@ })
                    &&& final(self)@.cached() == old(self)@.scratch.take(count as int)
                },
                Err(error) => {
                    &&& r == Err::<(), Error>(error)
                    &&& final(self)@ == (ReaderView { pos: 0, size: 0, ..old(self)@ })
                },
            },
    {
        self.buffer_pos = 0;
        self.buffer_size = 0;
        match extraction.result() {
            Ok(count) => {
                self.buffer_size = count;
                Ok(())
            },
            Err(e) => Err(e),
        }
    }

    /// Reads from the extracted chunk into the front of `buf`, as far as both reach,
    /// and moves the offset on by as much.
    pub fn read_buffered(&mut self, buf: &mut [u8]) -> (n: usize)
        requires
            old(self)@.well_formed(),
        ensures
            final(self)@.well_formed(),
            n == shorter(old(buf)@.len() as int, old(self)@.cached().len() as int),
            final(buf)@.len() == old(buf)@.len(),
            final(buf)@.take(n as int) == old(self)@.cached().take(n as int),
            final(buf)@.skip(n as int) == old(buf)@.skip(n as int),
            final(self)@ == (ReaderView {
                offset: (old(self)@.offset + n) as u64,
                pos: (old(self)@.pos + n) as usize,
                ..old(self)@
            }),
            final(self)@.cached() == old(self)@.cached().skip(n as int),
            final(self).stream() == old(self).stream(),
            final(self).index_of() == old(self).index_of(),
    {
        let available = self.buffer_size - self.buffer_pos;
        let to_copy = if buf.len() < available {
            buf.len()
        } else {
            available
        };
        let mut i: usize = 0;
        while i < to_copy
            invariant
                i <= to_copy,
                to_copy <= buf@.len(),
                self.buffer_pos + to_copy <= self.buffer_size <= self.buffer@.len(),
                buf@.len() == old(buf)@.len(),
                *self == *old(self),
                forall|k: int| 0 <= k < i ==> buf@[k] == self.buffer@[self.buffer_pos + k],
                forall|k: int| i <= k < buf@.len() ==> buf@[k] == old(buf)@[k],
            decreases to_copy - i,
        {
            buf[i] = self.buffer[self.buffer_pos + i];
            i = i + 1;
        }
        proof {
            assert(buf@.take(to_copy as int) =~= self@.cached().take(to_copy as int));
            assert(buf@.skip(to_copy as int) =~= old(buf)@.skip(to_copy as int));
        }
        self.buffer_pos = self.buffer_pos + to_copy;
        self.current_offset = self.current_offset + to_copy as u64;
        proof {
            assert(self@.cached() =~= old(self)@.cached().skip(to_copy as int));
        }
        to_copy
    }
}

} // verus!
