//! Byte sources: anything that can be read from a position and repositioned.
use crate::error::Error;
use vstd::prelude::*;

verus! {

/// Where a seek is measured from.
#[derive(Clone, Copy, Debug, PartialEq, Eq)]
pub enum SeekFrom {
    /// An offset from the first byte.
    Start(u64),
    /// An offset from the end.
    End(i64),
    /// An offset from the current position.
    Current(i64),
}

/// The position that a seek asks for, which may lie outside what a `u64` holds.
pub open spec fn seek_target(len: nat, position: nat, pos: SeekFrom) -> int {
    match pos {
        SeekFrom::Start(offset) => offset as int,
        SeekFrom::End(offset) => len + offset,
        SeekFrom::Current(offset) => position + offset,
    }
}

/// The smaller of two lengths.
pub open spec fn shorter(a: int, b: int) -> int {
    if a <= b {
        a
    } else {
        b
    }
}

/// The bytes of `content` from `position` on; none once the position is at or past the end.
pub open spec fn bytes_from(content: Seq<u8>, position: nat) -> Seq<u8> {
    if position <= content.len() {
        content.skip(position as int)
    } else {
        Seq::empty()
    }
}

/// A source of bytes with a read position.
///
/// The model is a fixed sequence of bytes and a position in it: reading hands out bytes
/// from the position on and moves it, seeking moves it and nothing else. A read may be
/// short, and hands out no byte only at the end or into an empty buffer.
pub trait ByteSource {
    /// All the bytes of the source.
    spec fn content(&self) -> Seq<u8>;

    /// The offset of the next byte to be read.
    spec fn position(&self) -> u64;

    /// Whether the reads and seeks of the source never fail but for a seek out of
    /// range, and its reads never fall short. No source is taken to be so that does
    /// not say it.
    open spec fn reliable(&self) -> bool {
        false
    }

    /// Reads into the front of `buf` and returns how many bytes were read.
    fn read(&mut self, buf: &mut [u8]) -> (r: Result<usize, Error>)
        ensures
            final(self).content() == old(self).content(),
            final(buf)@.len() == old(buf)@.len(),
            r matches Err(e) ==> e.from_source(),
            old(self).reliable() ==> final(self).reliable() && (r matches Ok(n) && n == shorter(
                old(buf)@.len() as int,
                bytes_from(old(self).content(), old(self).position() as nat).len() as int,
            )),
            r matches Ok(n) ==> {
                &&& n <= old(buf)@.len()
                &&& n <= bytes_from(old(self).content(), old(self).position() as nat).len()
                &&& (n == 0 <==> old(buf)@.len() == 0 || bytes_from(
                    old(self).content(),
                    old(self).position() as nat,
                ).len() == 0)
                &&& final(self).position() == old(self).position() + n
                &&& final(buf)@.take(n as int) == bytes_from(
                    old(self).content(),
                    old(self).position() as nat,
                ).take(n as int)
                &&& final(buf)@.skip(n as int) == old(buf)@.skip(n as int)
            },
    ;

    /// Moves the read position and returns the new one.
    fn seek(&mut self, pos: SeekFrom) -> (r: Result<u64, Error>)
        ensures
            final(self).content() == old(self).content(),
            r matches Err(e) ==> e.from_source(),
            old(self).reliable() ==> {
                &&& final(self).reliable()
                &&& r is Ok <==> 0 <= seek_target(
                    old(self).content().len(),
                    old(self).position() as nat,
                    pos,
                ) <= u64::MAX
                &&& r is Err ==> final(self).position() == old(self).position()
            },
            r matches Ok(p) ==> {
                &&& p == seek_target(
                    old(self).content().len(),
                    old(self).position() as nat,
                    pos,
                )
                &&& final(self).position() == p
            },
    ;
}

/// A byte source over bytes held in memory.
pub struct ByteCursor {
    data: Vec<u8>,
    pos: u64,
}

impl ByteCursor {
    /// A cursor at the start of `data`.
    pub fn new(data: Vec<u8>) -> (cursor: Self)
        ensures
            cursor.content() == data@,
            cursor.position() == 0,
    {
        ByteCursor { data, pos: 0 }
    }

    /// Gives the bytes back.
    pub fn into_inner(self) -> (data: Vec<u8>)
        ensures
            data@ == self.content(),
    {
        self.data
    }
}

impl ByteSource for ByteCursor {
    closed spec fn content(&self) -> Seq<u8> {
        self.data@
    }

    closed spec fn position(&self) -> u64 {
        self.pos
    }

    open spec fn reliable(&self) -> bool {
        true
    }

    /// Reads as many bytes as the buffer takes and the data still holds; never fails.
    fn read(&mut self, buf: &mut [u8]) -> (r: Result<usize, Error>) {
        let len = self.data.len();
        let start: usize = if self.pos <= len as u64 {
            self.pos as usize
        } else {
            len
        };
        let mut n: usize = 0;
        while n < buf.len() && n < len - start
            invariant
                start <= len,
                len == self.data@.len(),
                n <= buf@.len(),
                n <= len - start,
                buf@.len() == old(buf)@.len(),
                self.data@ == old(self).data@,
                self.pos == old(self).pos,
                forall|i: int| 0 <= i < n ==> buf@[i] == self.data@[start + i],
                forall|i: int| n <= i < buf@.len() ==> buf@[i] == old(buf)@[i],
            decreases buf@.len() - n,
        {
            buf[n] = self.data[start + n];
            n = n + 1;
        }
        proof {
            let rest = bytes_from(old(self).content(), old(self).position() as nat);
            assert(rest =~= self.data@.skip(start as int));
            assert(buf@.take(n as int) =~= rest.take(n as int));
            assert(buf@.skip(n as int) =~= old(buf)@.skip(n as int));
        }
        self.pos = self.pos + n as u64;
        Ok(n)
    }

    /// Fails only where the position asked for is negative or too large for a `u64`.
    fn seek(&mut self, pos: SeekFrom) -> (r: Result<u64, Error>) {
        let len = self.data.len() as u64;
        let target: Option<u64> = match pos {
            SeekFrom::Start(offset) => Some(offset),
            SeekFrom::End(offset) => offset_by(len, offset),
            SeekFrom::Current(offset) => offset_by(self.pos, offset),
        };
        match target {
            Some(p) => {
                self.pos = p;
                Ok(p)
            },
            None => Err(Error::InvalidSeek),
        }
    }
}

/// `base + delta`, where that is a `u64`.
pub fn offset_by(base: u64, delta: i64) -> (r: Option<u64>)
    ensures
        r matches Some(p) ==> p == base + delta,
        r is Some <==> 0 <= base + delta <= u64::MAX,
{
    if delta >= 0 {
        base.checked_add(delta as u64)
    } else if delta == i64::MIN {
        if base >= 0x8000_0000_0000_0000u64 {
            Some(base - 0x8000_0000_0000_0000u64)
        } else {
            None
        }
    } else {
        base.checked_sub((-delta) as u64)
    }
}

} // verus!
