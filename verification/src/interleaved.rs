//! Reading one channel's lane out of a chunk of interleaved channel data.

use crate::byte_reader::ByteSource;
use crate::error::{Result, TdmsReadError};
use crate::layout::chunk_width;
use vstd::prelude::*;

verus! {

/// Number of bytes in the lane of a channel with elements of `type_size`
/// bytes, in a chunk of `len` bytes whose samples are `chunk_width` bytes
/// wide: one element for each whole sample.
pub open spec fn lane_len(len: int, chunk_width: int, type_size: int) -> int {
    type_size * (len / chunk_width)
}

/// Where in the chunk the `position`-th byte of the lane lies: in the sample
/// `position / type_size`, at `position % type_size` behind the channel's
/// offset.
pub open spec fn lane_index(chunk_width: int, type_size: int, offset: int, position: int) -> int {
    offset + (position / type_size) * chunk_width + position % type_size
}

/// The lane of a channel: its bytes in the chunk, strung together.
pub open spec fn lane(bytes: Seq<u8>, chunk_width: int, type_size: int, offset: int) -> Seq<u8> {
    Seq::new(
        lane_len(bytes.len() as int, chunk_width, type_size) as nat,
        |position: int| bytes[lane_index(chunk_width, type_size, offset, position)],
    )
}

/// Every byte of a lane lies inside the chunk, and the lane is no longer than
/// the chunk.
pub proof fn lemma_lane_in_bounds(
    len: int,
    chunk_width: int,
    type_size: int,
    offset: int,
    position: int,
)
    requires
        0 <= len,
        0 < type_size,
        0 <= offset,
        offset + type_size <= chunk_width,
        0 <= position < lane_len(len, chunk_width, type_size),
    ensures
        0 <= lane_index(chunk_width, type_size, offset, position) < len,
        lane_len(len, chunk_width, type_size) <= len,
{
    let samples = len / chunk_width;
    let sample = position / type_size;
    assert(samples * chunk_width <= len) by (nonlinear_arith)
        requires
            samples == len / chunk_width,
            chunk_width > 0,
            len >= 0,
    ;
    assert(0 <= sample < samples) by (nonlinear_arith)
        requires
            sample == position / type_size,
            0 <= position < type_size * samples,
            type_size > 0,
    ;
    assert(0 <= position % type_size < type_size) by (nonlinear_arith)
        requires
            type_size > 0,
    ;
    assert(sample * chunk_width + chunk_width <= samples * chunk_width) by (nonlinear_arith)
        requires
            0 <= sample < samples,
            chunk_width > 0,
    ;
    assert(sample * chunk_width >= 0) by (nonlinear_arith)
        requires
            sample >= 0,
            chunk_width > 0,
    ;
    assert(type_size * samples <= chunk_width * samples) by (nonlinear_arith)
        requires
            type_size <= chunk_width,
            samples >= 0,
    ;
    assert(chunk_width * samples == samples * chunk_width) by (nonlinear_arith);
}

/// A lane is no longer than the chunk, also where it is empty.
pub proof fn lemma_lane_len_bound(len: int, chunk_width: int, type_size: int)
    requires
        0 <= len,
        0 < type_size <= chunk_width,
    ensures
        0 <= lane_len(len, chunk_width, type_size) <= len,
{
    let samples = len / chunk_width;
    assert(0 <= samples && samples * chunk_width <= len) by (nonlinear_arith)
        requires
            samples == len / chunk_width,
            chunk_width > 0,
            len >= 0,
    ;
    assert(0 <= type_size * samples <= samples * chunk_width) by (nonlinear_arith)
        requires
            0 < type_size <= chunk_width,
            samples >= 0,
    ;
}

/// The bytes of the element `i` of a lane are the bytes of the chunk in the
/// sample `i`, from the channel's offset on.
pub proof fn lemma_lane_element(
    bytes: Seq<u8>,
    chunk_width: int,
    type_size: int,
    offset: int,
    i: int,
)
    requires
        0 < type_size,
        0 <= offset,
        offset + type_size <= chunk_width,
        0 <= i < bytes.len() as int / chunk_width,
    ensures
        i * type_size + type_size <= lane(bytes, chunk_width, type_size, offset).len(),
        offset + i * chunk_width + type_size <= bytes.len(),
        lane(bytes, chunk_width, type_size, offset).subrange(
            i * type_size,
            i * type_size + type_size,
        ) == bytes.subrange(offset + i * chunk_width, offset + i * chunk_width + type_size),
{
    let samples = bytes.len() as int / chunk_width;
    let whole = lane(bytes, chunk_width, type_size, offset);
    assert(i * type_size + type_size <= type_size * samples && i * type_size >= 0)
        by (nonlinear_arith)
        requires
            0 <= i < samples,
            type_size > 0,
    ;
    assert(samples * chunk_width <= bytes.len()) by (nonlinear_arith)
        requires
            samples == bytes.len() as int / chunk_width,
            chunk_width > 0,
            bytes.len() >= 0,
    ;
    assert(i * chunk_width + chunk_width <= samples * chunk_width && i * chunk_width >= 0)
        by (nonlinear_arith)
        requires
            0 <= i < samples,
            chunk_width > 0,
    ;
    let part = whole.subrange(i * type_size, i * type_size + type_size);
    let window = bytes.subrange(offset + i * chunk_width, offset + i * chunk_width + type_size);
    assert forall|m: int| 0 <= m < type_size implies #[trigger] part[m] == window[m] by {
        let position = i * type_size + m;
        assert(position / type_size == i && position % type_size == m) by (nonlinear_arith)
            requires
                position == i * type_size + m,
                0 <= m < type_size,
                0 <= i,
        ;
        assert(part[m] == whole[position]);
    }
    assert(part =~= window);
}

/// Reads data for a single channel from a chunk of interleaved channel data
pub struct InterleavedReader<'a> {
    /// Chunk of bytes to read from
    bytes: &'a [u8],
    /// Overall width of all channels in this chunk
    chunk_width: usize,
    /// Width in bytes of the type of data in this channel
    type_size: usize,
    /// Offset within the data to the start of this channel
    offset: usize,
    /// Position in the output interleaved data
    position: usize,
}

impl<'a> InterleavedReader<'a> {
    /// The chunk that is read from.
    pub closed spec fn spec_bytes(&self) -> Seq<u8> {
        self.bytes@
    }

    /// Width in bytes of one sample of all channels.
    pub closed spec fn spec_chunk_width(&self) -> int {
        self.chunk_width as int
    }

    /// Width in bytes of one element of this channel.
    pub closed spec fn spec_type_size(&self) -> int {
        self.type_size as int
    }

    /// Offset of this channel within a sample.
    pub closed spec fn spec_offset(&self) -> int {
        self.offset as int
    }

    /// Number of bytes of the lane that were read already.
    pub closed spec fn spec_position(&self) -> int {
        self.position as int
    }

    /// The whole lane of this channel.
    pub open spec fn spec_lane(&self) -> Seq<u8> {
        lane(self.spec_bytes(), self.spec_chunk_width(), self.spec_type_size(), self.spec_offset())
    }

    pub fn new(bytes: &'a [u8], chunk_width: usize, type_size: usize, offset: usize) -> (r:
        InterleavedReader<'a>)
        requires
            0 < type_size,
            offset + type_size <= chunk_width,
        ensures
            r.wf(),
            r.spec_bytes() == bytes@,
            r.spec_chunk_width() == chunk_width,
            r.spec_type_size() == type_size,
            r.spec_offset() == offset,
            r.spec_position() == 0,
    {
        proof {
            lemma_lane_len_bound(bytes@.len() as int, chunk_width as int, type_size as int);
        }
        InterleavedReader { bytes, chunk_width, type_size, offset, position: 0 }
    }

    /// Number of bytes of the lane that are left to read.
    pub fn available(&self) -> (r: usize)
        requires
            self.wf(),
        ensures
            r == self.spec_lane().len() - self.spec_position(),
            r == self.remaining().len(),
    {
        proof {
            lemma_lane_len_bound(
                self.bytes@.len() as int,
                self.chunk_width as int,
                self.type_size as int,
            );
        }
        let samples = self.bytes.len() / self.chunk_width;
        assert(self.type_size * samples <= self.bytes@.len()) by {
            assert(lane_len(self.bytes@.len() as int, self.chunk_width as int, self.type_size as int)
                == self.type_size * samples);
        }
        let total_bytes = self.type_size * samples;
        total_bytes - self.position
    }

    /// Reads as many bytes of the lane as `buf` holds and the lane still has,
    /// whichever is fewer, into the front of `buf`, and returns their number;
    /// 0 when the lane is exhausted. Never fails.
    pub fn read(&mut self, buf: &mut [u8]) -> (r: std::io::Result<usize>)
        requires
            old(self).wf(),
        ensures
            final(self).wf(),
            final(self).spec_bytes() == old(self).spec_bytes(),
            final(self).spec_chunk_width() == old(self).spec_chunk_width(),
            final(self).spec_type_size() == old(self).spec_type_size(),
            final(self).spec_offset() == old(self).spec_offset(),
            r is Ok,
            r->Ok_0 == (if old(buf)@.len() <= old(self).remaining().len() {
                old(buf)@.len()
            } else {
                old(self).remaining().len()
            }),
            final(self).spec_position() == old(self).spec_position() + r->Ok_0,
            final(buf)@ == old(self).remaining().take(r->Ok_0 as int) + old(buf)@.skip(
                r->Ok_0 as int,
            ),
    {
        let available = self.available();
        let num_bytes_to_read = if buf.len() <= available {
            buf.len()
        } else {
            available
        };
        let length = self.bytes.len();
        let ghost before = self.remaining();
        proof {
            lemma_lane_len_bound(length as int, self.chunk_width as int, self.type_size as int);
        }
        let mut i: usize = 0;
        while i < num_bytes_to_read
            invariant
                i <= num_bytes_to_read,
                num_bytes_to_read <= buf@.len(),
                num_bytes_to_read <= available,
                available == self.spec_lane().len() - self.spec_position(),
                self.position + available <= length,
                self.wf(),
                *self == *old(self),
                before == old(self).remaining(),
                length == self.bytes@.len(),
                buf@.len() == old(buf)@.len(),
                buf@ == before.take(i as int) + old(buf)@.skip(i as int),
            decreases num_bytes_to_read - i,
        {
            let position = i + self.position;
            proof {
                lemma_lane_in_bounds(
                    length as int,
                    self.chunk_width as int,
                    self.type_size as int,
                    self.offset as int,
                    position as int,
                );
                assert((position / self.type_size) * self.chunk_width >= 0) by (nonlinear_arith)
                    requires
                        position / self.type_size >= 0,
                        self.chunk_width >= 0,
                ;
            }
            let type_idx = position / self.type_size;
            let type_offset = position % self.type_size;
            buf[i] = self.bytes[self.offset + type_idx * self.chunk_width + type_offset];
            i += 1;
            assert(buf@ =~= before.take(i as int) + old(buf)@.skip(i as int));
        }
        self.position += num_bytes_to_read;
        Ok(num_bytes_to_read)
    }
}

impl<'a> ByteSource for InterleavedReader<'a> {
    /// The part of the lane behind the position.
    open spec fn remaining(&self) -> Seq<u8> {
        self.spec_lane().skip(self.spec_position())
    }

    /// The channel's elements lie inside a sample, and the position inside
    /// the lane.
    open spec fn wf(&self) -> bool {
        &&& 0 < self.spec_type_size()
        &&& 0 <= self.spec_offset()
        &&& self.spec_offset() + self.spec_type_size() <= self.spec_chunk_width()
        &&& 0 <= self.spec_position() <= self.spec_lane().len()
    }

    fn read_exact(&mut self, buf: &mut [u8]) -> (r: Result<()>)
        ensures
            final(self).spec_bytes() == old(self).spec_bytes(),
            final(self).spec_chunk_width() == old(self).spec_chunk_width(),
            final(self).spec_type_size() == old(self).spec_type_size(),
            final(self).spec_offset() == old(self).spec_offset(),
    {
        if buf.len() > self.available() {
            return Err(TdmsReadError::short_read());
        }
        let ghost before = self.remaining();
        let n = self.read(buf);
        assert(buf@ =~= before.take(buf@.len() as int));
        assert(self.remaining() =~= before.skip(buf@.len() as int));
        Ok(())
    }
}

} // verus!
