//! Byte sources: what the decoders read from. A source is, to its readers, the
//! sequence of bytes that it has not handed out yet.

use crate::error::{ErrorKind, Result, TdmsReadError};
use vstd::prelude::*;

verus! {

/// Whether a read ended as the parser `expected` says it ends on the bytes
/// `before`: with the parsed value and the source moved past what the value
/// took, or with an error of the expected kind.
pub open spec fn parsed<T>(
    r: Result<T>,
    expected: std::result::Result<(T, nat), ErrorKind>,
    before: Seq<u8>,
    after: Seq<u8>,
) -> bool {
    match expected {
        Ok((value, taken)) => r == Ok::<T, TdmsReadError>(value) && taken <= before.len() && after
            == before.skip(taken as int),
        Err(kind) => r is Err && r->Err_0.spec_kind() == kind,
    }
}

/// As `parsed`, for a value that is compared by its view.
pub open spec fn parsed_view<T: View>(
    r: Result<T>,
    expected: std::result::Result<(T::V, nat), ErrorKind>,
    before: Seq<u8>,
    after: Seq<u8>,
) -> bool {
    match expected {
        Ok((value, taken)) => r is Ok && r->Ok_0@ == value && taken <= before.len() && after
            == before.skip(taken as int),
        Err(kind) => r is Err && r->Err_0.spec_kind() == kind,
    }
}

/// Something that bytes can be read from, front to back.
pub trait ByteSource {
    /// The bytes not yet read, in the order in which they will be read.
    spec fn remaining(&self) -> Seq<u8>;

    /// What the source needs to hold of itself to be read from.
    spec fn wf(&self) -> bool;

    /// Fills all of `buf` with the next bytes of the source. Fails with an IO
    /// error, exactly when fewer bytes than `buf` holds are left.
    fn read_exact(&mut self, buf: &mut [u8]) -> (r: Result<()>)
        requires
            old(self).wf(),
        ensures
            final(self).wf(),
            final(buf)@.len() == old(buf)@.len(),
            match r {
                Ok(_) => {
                    &&& old(buf)@.len() <= old(self).remaining().len()
                    &&& final(buf)@ == old(self).remaining().take(old(buf)@.len() as int)
                    &&& final(self).remaining() == old(self).remaining().skip(
                        old(buf)@.len() as int,
                    )
                },
                Err(e) => {
                    &&& old(buf)@.len() > old(self).remaining().len()
                    &&& e.spec_kind() == ErrorKind::Io
                },
            },
    ;
}

/// A seekable reader over bytes held in memory. The position may lie past the
/// end of the bytes: reads there find nothing.
pub struct ByteReader<'a> {
    pub bytes: &'a [u8],
    pub position: u64,
}

impl<'a> ByteReader<'a> {
    /// The bytes of `bytes` from `position` on; none if the position is past
    /// the end.
    pub open spec fn bytes_from(bytes: Seq<u8>, position: nat) -> Seq<u8> {
        if position <= bytes.len() {
            bytes.skip(position as int)
        } else {
            Seq::empty()
        }
    }

    /// A reader at the start of `bytes`.
    pub fn new(bytes: &'a [u8]) -> (r: ByteReader<'a>)
        ensures
            r.bytes@ == bytes@,
            r.position == 0,
    {
        ByteReader { bytes, position: 0 }
    }

    /// The current position, in bytes from the start.
    pub fn position(&self) -> (r: u64)
        ensures
            r == self.position,
    {
        self.position
    }

    /// Moves to an absolute position, which may be past the end.
    pub fn seek(&mut self, position: u64)
        ensures
            final(self).bytes == old(self).bytes,
            final(self).position == position,
    {
        self.position = position;
    }

    /// Number of bytes between the position and the end.
    pub fn available(&self) -> (r: usize)
        ensures
            r == self.remaining().len(),
            r > 0 ==> self.position + r == self.bytes@.len(),
    {
        let len = self.bytes.len();
        if self.position <= len as u64 {
            len - self.position as usize
        } else {
            0
        }
    }

    /// Reads as many bytes as `buf` holds and the source still has, whichever
    /// is fewer, into the front of `buf`, and returns their number.
    pub fn read(&mut self, buf: &mut [u8]) -> (n: usize)
        ensures
            final(self).bytes == old(self).bytes,
            n == if old(buf)@.len() <= old(self).remaining().len() {
                old(buf)@.len()
            } else {
                old(self).remaining().len()
            },
            final(self).position == old(self).position + n,
            final(buf)@ == old(self).remaining().take(n as int) + old(buf)@.skip(n as int),
    {
        let len = self.bytes.len();
        if self.position >= len as u64 || buf.len() == 0 {
            assert(buf@ =~= old(self).remaining().take(0) + old(buf)@.skip(0));
            return 0;
        }
        let start = self.position as usize;
        let available = len - start;
        let n = if buf.len() <= available {
            buf.len()
        } else {
            available
        };
        let mut i: usize = 0;
        while i < n
            invariant
                i <= n,
                n <= available,
                n <= buf@.len(),
                start == self.position,
                start + available == len,
                len == self.bytes@.len(),
                buf@.len() == old(buf)@.len(),
                self.bytes == old(self).bytes,
                self.position == old(self).position,
                buf@ == old(self).remaining().take(i as int) + old(buf)@.skip(i as int),
            decreases n - i,
        {
            buf[i] = self.bytes[start + i];
            i += 1;
            assert(buf@ =~= old(self).remaining().take(i as int) + old(buf)@.skip(i as int));
        }
        self.position = self.position + n as u64;
        n
    }
}

impl<'a> ByteSource for ByteReader<'a> {
    open spec fn remaining(&self) -> Seq<u8> {
        Self::bytes_from(self.bytes@, self.position as nat)
    }

    /// Every reader over bytes in memory can be read from.
    open spec fn wf(&self) -> bool {
        true
    }

    fn read_exact(&mut self, buf: &mut [u8]) -> (r: Result<()>)
        ensures
            final(self).bytes == old(self).bytes,
            r is Ok ==> final(self).position == old(self).position + old(buf)@.len(),
            r is Err ==> final(self).position == old(self).position,
    {
        if buf.len() > self.available() {
            return Err(TdmsReadError::short_read());
        }
        let ghost before = self.remaining();
        let n = self.read(buf);
        assert(buf@ =~= before.take(n as int));
        assert(self.remaining() =~= before.skip(n as int));
        Ok(())
    }
}

} // verus!
