//! A byte source that can take one byte back.
use crate::error::Error;
use crate::source::{bytes_from, seek_target, shorter, ByteSource, SeekFrom};
use vstd::prelude::*;

verus! {

/// Wraps a byte source and adds a slot for one byte that was read too far.
///
/// The slot holds at most one byte. The next read hands that byte out first; a seek
/// drops it; a second byte is refused while the first is still waiting.
pub struct PushbackReader<R: ByteSource> {
    inner: R,
    buffer: Option<u8>,
}

impl<R: ByteSource> PushbackReader<R> {
    /// The byte that waits in the slot, if any.
    pub closed spec fn pending(&self) -> Option<u8> {
        self.buffer
    }

    /// The wrapped byte source.
    pub closed spec fn source(&self) -> R {
        self.inner
    }

    /// The bytes that reads will hand out from here on: the waiting byte, then what the
    /// source holds from its position on.
    pub open spec fn upcoming(&self) -> Seq<u8> {
        let rest = bytes_from(self.source().content(), self.source().position() as nat);
        match self.pending() {
            Some(byte) => seq![byte] + rest,
            None => rest,
        }
    }

    /// Whether the source is one whose reads neither fail nor fall short.
    pub open spec fn reliable(&self) -> bool {
        self.source().reliable()
    }

    /// How far reading has come: the position of the source, less the waiting byte.
    pub open spec fn offset(&self) -> int {
        match self.pending() {
            Some(_) => self.source().position() - 1,
            None => self.source().position() as int,
        }
    }

    /// Wraps `inner`, with nothing waiting.
    pub fn new(inner: R) -> (reader: Self)
        ensures
            reader.pending() is None,
            reader.source() == inner,
    {
        PushbackReader { inner, buffer: None }
    }

    /// Unwraps the byte source; a waiting byte is dropped.
    pub fn into_inner(self) -> (inner: R)
        ensures
            inner == self.source(),
    {
        self.inner
    }

    /// Puts `byte` in the slot, where the slot is free.
    pub fn unread(&mut self, byte: u8) -> (r: Result<(), Error>)
        ensures
            final(self).source() == old(self).source(),
            old(self).pending() is None ==> r is Ok && final(self).pending() == Some(byte),
            old(self).pending() is Some ==> r == Err::<(), Error>(Error::PushbackFull)
                && final(self).pending() == old(self).pending(),
    {
        if self.buffer.is_some() {
            Err(Error::PushbackFull)
        } else {
            self.buffer = Some(byte);
            Ok(())
        }
    }

    /// Reads into the front of `buf`: the waiting byte first, then from the source.
    ///
    /// An empty `buf` takes nothing and leaves the waiting byte where it is. Where the
    /// source fails, a byte that was waiting is lost. Over a reliable source the read
    /// gives as many bytes as the buffer takes and are still to come.
    pub fn read(&mut self, buf: &mut [u8]) -> (r: Result<usize, Error>)
        ensures
            final(self).source().content() == old(self).source().content(),
            final(buf)@.len() == old(buf)@.len(),
            old(buf)@.len() == 0 ==> *final(self) == *old(self),
            r matches Err(e) ==> {
                &&& e.from_source()
                &&& old(buf)@.len() > 0
                &&& old(self).pending() is Some ==> old(buf)@.len() > 1
                &&& final(self).pending() is None
            },
            old(self).reliable() ==> final(self).reliable() && (r matches Ok(n) && n == shorter(
                old(buf)@.len() as int,
                old(self).upcoming().len() as int,
            )),
            r matches Ok(n) ==> {
                &&& n <= old(buf)@.len()
                &&& n <= old(self).upcoming().len()
                &&& (n == 0 <==> old(buf)@.len() == 0 || old(self).upcoming().len() == 0)
                &&& final(buf)@.take(n as int) == old(self).upcoming().take(n as int)
                &&& final(buf)@.skip(n as int) == old(buf)@.skip(n as int)
                &&& final(self).upcoming() == old(self).upcoming().skip(n as int)
                &&& final(self).offset() == old(self).offset() + n
                &&& (n > 0 ==> final(self).pending() is None)
            },
    {
        if buf.len() == 0 {
            proof {
                assert(self.upcoming().skip(0) =~= self.upcoming());
                assert(buf@.take(0) =~= self.upcoming().take(0));
            }
            return Ok(0);
        }
        match self.buffer.take() {
            Some(byte) => {
                let ghost rest = bytes_from(self.inner.content(), self.inner.position() as nat);
                let (head, tail) = buf.split_at_mut(1);
                head[0] = byte;
                if tail.len() > 0 {
                    match self.inner.read(tail) {
                        Ok(m) => {
                            proof {
                                let after = bytes_from(
                                    self.inner.content(),
                                    self.inner.position() as nat,
                                );
                                assert(after =~= rest.skip(m as int));
                                assert(old(self).upcoming() =~= seq![byte] + rest);
                                assert(buf@.take(m + 1) =~= old(self).upcoming().take(m + 1)) by {
                                    assert forall|i: int| 0 <= i < m + 1 implies #[trigger] buf@[i]
                                        == old(self).upcoming()[i] by {
                                        if i > 0 {
                                            assert(tail@.take(m as int)[i - 1] == tail@[i - 1]);
                                            assert(rest.take(m as int)[i - 1] == rest[i - 1]);
                                        }
                                    }
                                }
                                assert(buf@.skip(m + 1) =~= old(buf)@.skip(m + 1)) by {
                                    assert forall|i: int| m + 1 <= i < buf@.len() implies #[trigger] buf@[i]
                                        == old(buf)@[i] by {
                                        let was = old(buf)@.subrange(1, old(buf)@.len() as int);
                                        assert(tail@.skip(m as int)[i - 1 - m] == tail@[i - 1]);
                                        assert(was.skip(m as int)[i - 1 - m] == was[i - 1]);
                                    }
                                }
                                assert(self.upcoming() =~= old(self).upcoming().skip(m + 1));
                            }
                            Ok(m + 1)
                        },
                        Err(e) => Err(e),
                    }
                } else {
                    proof {
                        assert(old(self).upcoming() =~= seq![byte] + rest);
                        assert(buf@.take(1) =~= old(self).upcoming().take(1));
                        assert(buf@.skip(1) =~= old(buf)@.skip(1));
                        assert(self.upcoming() =~= old(self).upcoming().skip(1));
                    }
                    Ok(1)
                }
            },
            None => {
                match self.inner.read(buf) {
                    Ok(n) => {
                        proof {
                            let rest = bytes_from(
                                old(self).inner.content(),
                                old(self).inner.position() as nat,
                            );
                            assert(self.upcoming() =~= rest.skip(n as int));
                        }
                        Ok(n)
                    },
                    Err(e) => Err(e),
                }
            },
        }
    }

    /// Drops the waiting byte and moves the read position of the source.
    ///
    /// A relative seek starts from the position of the source, which is one past the
    /// waiting byte where there was one. Over a reliable source the seek fails only
    /// where the position asked for is out of range, and then leaves the position.
    pub fn seek(&mut self, pos: SeekFrom) -> (r: Result<u64, Error>)
        ensures
            final(self).source().content() == old(self).source().content(),
            final(self).pending() is None,
            r matches Err(e) ==> e.from_source(),
            old(self).reliable() ==> {
                &&& final(self).reliable()
                &&& r is Ok <==> 0 <= seek_target(
                    old(self).source().content().len(),
                    old(self).source().position() as nat,
                    pos,
                ) <= u64::MAX
                &&& r is Err ==> final(self).source().position() == old(self).source().position()
            },
            r matches Ok(p) ==> {
                &&& p == seek_target(
                    old(self).source().content().len(),
                    old(self).source().position() as nat,
                    pos,
                )
                &&& final(self).source().position() == p
            },
    {
        self.buffer = None;
        self.inner.seek(pos)
    }
}

} // verus!
