//! Segments: the objects of a segment, the raw data index of each, and the
//! layout of the raw data that follows from them.

use byteorder::{BigEndian, LittleEndian};
use crate::arena::{arena_get, arena_map};
use crate::byte_reader::{ByteReader, ByteSource};
use crate::error::{ErrorKind, Result, TdmsReadError};
use crate::interleaved::{InterleavedReader, lane, lemma_lane_element};
use crate::layout::{
    bytes_before, chunk_count, chunk_width, contiguous_outcome, element_at, entry_width,
    first_with_data, interleaved_outcome, last_with_data, lemma_bytes_before_sum,
    lemma_chunk_in_segment, lemma_first_with_data, lemma_segment_outcome, lemma_widths_before_sum,
    ObjectEntry, segment_error, segment_outcome, segment_written, SegmentModel, uniform,
    values_read, widths_before,
};
use crate::object_map::ObjectMap;
use crate::object_path::ObjectPathId;
use crate::primitives::{ByteOrderExt, element_bytes, NativeType, read_values};
use crate::toc::{TocFlag, TocMask};
use crate::types::TdsType;
use id_arena::{Arena, Id};
use vstd::prelude::*;
use vstd::slice::slice_subrange;

verus! {

/// What one object holds in the raw data of a segment: so many values of a
/// type, in so many bytes.
#[derive(Debug, Clone, Copy, PartialEq, Eq, Structural)]
pub struct RawDataIndex {
    pub number_of_values: u64,
    pub data_type: TdsType,
    pub data_size: u64,
}

impl RawDataIndex {
    /// For a type of fixed size, the size in bytes is the number of values
    /// times the size of one.
    pub open spec fn wf(self) -> bool {
        self.data_type.spec_size() matches Some(type_size) ==> self.data_size == type_size
            * self.number_of_values
    }
}

pub type RawDataIndexId = Id<RawDataIndex>;

pub type RawDataIndexCache = ObjectMap<RawDataIndexId>;

/// Something that stands for an object, by the object's id.
pub trait Keyed {
    /// The id of the object.
    spec fn key(self) -> nat;
}

/// An object as a segment lists it. Without a raw data index the object has
/// no data in the segment.
#[derive(Debug, Clone, Copy)]
pub struct SegmentObject {
    pub object_id: ObjectPathId,
    pub raw_data_index: Option<RawDataIndexId>,
}

impl Keyed for SegmentObject {
    open spec fn key(self) -> nat {
        self.object_id.0 as nat
    }
}

impl Keyed for ObjectEntry {
    open spec fn key(self) -> nat {
        self.object_id
    }
}

impl SegmentObject {
    pub fn no_data(object_id: ObjectPathId) -> (r: SegmentObject)
        ensures
            r.object_id == object_id,
            r.raw_data_index is None,
    {
        SegmentObject { object_id, raw_data_index: None }
    }

    pub fn with_data(object_id: ObjectPathId, raw_data_index: RawDataIndexId) -> (r: SegmentObject)
        ensures
            r.object_id == object_id,
            r.raw_data_index == Some(raw_data_index),
    {
        SegmentObject { object_id, raw_data_index: Some(raw_data_index) }
    }

    /// Whether the raw data index of the object, if it has one, is in the
    /// arena.
    pub open spec fn known(self, indexes: Map<RawDataIndexId, RawDataIndex>) -> bool {
        self.raw_data_index matches Some(id) ==> indexes.contains_key(id)
    }

    /// The object with its raw data index looked up.
    pub open spec fn entry(self, indexes: Map<RawDataIndexId, RawDataIndex>) -> ObjectEntry {
        ObjectEntry {
            object_id: self.object_id.0 as nat,
            index: match self.raw_data_index {
                Some(id) => Some(indexes[id]),
                None => None,
            },
        }
    }
}

/// Whether every object of the list has its raw data index, if any, in the
/// arena.
pub open spec fn all_known(
    objects: Seq<SegmentObject>,
    indexes: Map<RawDataIndexId, RawDataIndex>,
) -> bool {
    forall|k: int| 0 <= k < objects.len() ==> (#[trigger] objects[k]).known(indexes)
}

/// The objects of a list, each with its raw data index looked up.
pub open spec fn entries(
    objects: Seq<SegmentObject>,
    indexes: Map<RawDataIndexId, RawDataIndex>,
) -> Seq<ObjectEntry> {
    Seq::new(objects.len(), |k: int| objects[k].entry(indexes))
}

#[derive(Debug)]
pub struct TdmsSegment {
    pub next_segment_position: u64,
    pub objects: Vec<SegmentObject>,
    pub toc_mask: TocMask,
    pub data_position: u64,
    pub data_size: u64,
    pub repetitions: u64,
}

impl TdmsSegment {
    pub fn new(
        toc_mask: TocMask,
        data_position: u64,
        next_segment_position: u64,
        objects: Vec<SegmentObject>,
        data_size: u64,
        repetitions: u64,
    ) -> (r: TdmsSegment)
        ensures
            r.toc_mask == toc_mask,
            r.data_position == data_position,
            r.next_segment_position == next_segment_position,
            r.objects == objects,
            r.data_size == data_size,
            r.repetitions == repetitions,
    {
        TdmsSegment {
            toc_mask,
            data_position,
            next_segment_position,
            objects,
            data_size,
            repetitions,
        }
    }

    /// The segment with the raw data indexes of its objects looked up.
    pub open spec fn model(&self, indexes: Map<RawDataIndexId, RawDataIndex>) -> SegmentModel {
        SegmentModel {
            toc: self.toc_mask@,
            data_position: self.data_position as nat,
            next_segment_position: self.next_segment_position as nat,
            objects: entries(self.objects@, indexes),
            data_size: self.data_size as nat,
            repetitions: self.repetitions as nat,
        }
    }

    /// The raw data indexes of the objects are in the arena, the chunk width
    /// is the sum of their byte sizes, and the repetitions are the whole
    /// chunks that fit before the next segment.
    pub open spec fn wf(&self, indexes: Map<RawDataIndexId, RawDataIndex>) -> bool {
        &&& all_known(self.objects@, indexes)
        &&& self.data_size == chunk_width(entries(self.objects@, indexes))
        &&& self.repetitions == chunk_count(
            self.data_position as nat,
            self.next_segment_position as nat,
            self.data_size as nat,
        )
    }
}

/// Reads `count` elements from each of `repetitions` places of the file
/// `bytes`, the first at `first_position` and each `stride` bytes behind the
/// one before it, into `buffer` from `start` on.
fn read_repetitions<T: NativeType, O: ByteOrderExt>(
    bytes: &[u8],
    buffer: &mut [T],
    start: usize,
    first_position: u64,
    stride: u64,
    repetitions: u64,
    count: u64,
) -> (r: Result<usize>)
    requires
        repetitions > 0 ==> first_position + (repetitions - 1) * stride <= u64::MAX,
    ensures
        final(buffer)@.len() == old(buffer)@.len(),
        ({
            let width = T::spec_native_type().spec_width() as int;
            let total = repetitions * count;
            if start + total > old(buffer)@.len() {
                r is Err && r->Err_0.spec_kind() == ErrorKind::Format
            } else if !(count == 0 || repetitions == 0 || first_position + (repetitions - 1)
                * stride + count * width <= bytes@.len()) {
                r is Err && r->Err_0.spec_kind() == ErrorKind::Io
            } else {
                &&& r == Ok::<usize, TdmsReadError>(total as usize)
                &&& forall|j: int|
                    0 <= j < start || start + total <= j < old(buffer)@.len() ==> final(buffer)@[j]
                        == old(buffer)@[j]
                &&& forall|repetition: int, i: int|
                    0 <= repetition < repetitions && 0 <= i < count ==> #[trigger] final(buffer)@[start + repetition * count + i] == element_at::<T>(
                        bytes@,
                        first_position + repetition * stride + i * width,
                        O::spec_big_endian(),
                    )
            }
        }),
{
    let length = buffer.len();
    let total = match repetitions.checked_mul(count) {
        Some(total) => total,
        None => {
            return Err(TdmsReadError::format("Buffer is too small for the values of a segment"));
        },
    };
    if start > length || total > (length - start) as u64 {
        return Err(TdmsReadError::format("Buffer is too small for the values of a segment"));
    }
    if repetitions == 0 || count == 0 {
        assert(repetitions * count == 0) by (nonlinear_arith)
            requires
                repetitions == 0 || count == 0,
        ;
        return Ok(0);
    }
    assert(count <= total) by (nonlinear_arith)
        requires
            total == repetitions * count,
            repetitions >= 1,
            count >= 0,
    ;
    let values = count as usize;
    let ghost width = T::spec_native_type().spec_width() as int;
    let ghost be = O::spec_big_endian();
    let mut position = first_position;
    let mut written: usize = 0;
    let mut repetition: u64 = 0;
    while repetition < repetitions
        invariant
            repetition <= repetitions,
            repetitions > 0,
            count > 0,
            values == count,
            total == repetitions * count,
            start + total <= length,
            length == buffer@.len(),
            length == old(buffer)@.len(),
            width == T::spec_native_type().spec_width(),
            be == O::spec_big_endian(),
            first_position + (repetitions - 1) * stride <= u64::MAX,
            written == repetition * count,
            repetition < repetitions ==> position == first_position + repetition * stride,
            repetition > 0 ==> first_position + (repetition - 1) * stride + count * width
                <= bytes@.len(),
            forall|j: int|
                0 <= j < start || start + written <= j < length ==> buffer@[j] == old(buffer)@[j],
            forall|done: int, i: int|
                0 <= done < repetition && 0 <= i < count ==> #[trigger] buffer@[start + done * count
                    + i] == element_at::<T>(bytes@, first_position + done * stride + i * width, be),
        decreases repetitions - repetition,
    {
        proof {
            assert((repetition + 1) * count == repetition * count + count) by (nonlinear_arith);
            assert((repetition + 1) * count <= repetitions * count) by (nonlinear_arith)
                requires
                    repetition < repetitions,
                    count >= 0,
            ;
            assert(repetition * stride <= (repetitions - 1) * stride) by (nonlinear_arith)
                requires
                    repetition <= repetitions - 1,
                    stride >= 0,
            ;
        }
        let mut reader = ByteReader::new(bytes);
        reader.seek(position);
        let ghost input = reader.remaining();
        let ghost before = buffer@;
        match read_values::<T, ByteReader, O>(buffer, start + written, &mut reader, values) {
            Ok(_) => {},
            Err(e) => {
                proof {
                    assert(count * width >= 1) by (nonlinear_arith)
                        requires
                            count >= 1,
                            width >= 1,
                    ;
                }
                return Err(e);
            },
        }
        proof {
            assert(count * width >= 1) by (nonlinear_arith)
                requires
                    count >= 1,
                    width >= 1,
            ;
            assert(position + count * width <= bytes@.len());
            assert forall|done: int, i: int|
                0 <= done < repetition + 1 && 0 <= i < count implies #[trigger] buffer@[start + done
                * count + i] == element_at::<T>(
                bytes@,
                first_position + done * stride + i * width,
                be,
            ) by {
                if done < repetition {
                    assert(done * count + count <= repetition * count) by (nonlinear_arith)
                        requires
                            done < repetition,
                            count >= 0,
                    ;
                    assert(done * count >= 0) by (nonlinear_arith)
                        requires
                            done >= 0,
                            count >= 0,
                    ;
                    assert(buffer@[start + done * count + i] == before[start + done * count + i]);
                } else {
                    assert(i * width + width <= count * width) by (nonlinear_arith)
                        requires
                            0 <= i < count,
                            width >= 1,
                    ;
                    assert(i * width >= 0) by (nonlinear_arith)
                        requires
                            0 <= i,
                            width >= 1,
                    ;
                    assert(element_bytes(input, i, width) =~= bytes@.subrange(
                        position + i * width,
                        position + i * width + width,
                    ));
                    assert(buffer@[start + written + i] == T::spec_decode(
                        element_bytes(input, i, width),
                        be,
                    ));
                }
            }
        }
        written = written + values;
        repetition = repetition + 1;
        if repetition < repetitions {
            proof {
                assert(repetition * stride == (repetition - 1) * stride + stride)
                    by (nonlinear_arith);
                assert(repetition * stride <= (repetitions - 1) * stride) by (nonlinear_arith)
                    requires
                        repetition <= repetitions - 1,
                        stride >= 0,
                ;
            }
            position = position + stride;
        }
    }
    Ok(written)
}

impl TdmsSegment {
    /// Reads the values of a channel from a segment of contiguous data.
    fn read_contiguous_channel_data<T: NativeType, O: ByteOrderExt>(
        &self,
        reader: &mut ByteReader,
        channel_id: ObjectPathId,
        buffer: &mut [T],
        start: usize,
        raw_data_indexes: &Arena<RawDataIndex>,
    ) -> (r: Result<usize>)
        requires
            self.wf(arena_map(*raw_data_indexes)),
        ensures
            final(reader).bytes == old(reader).bytes,
            final(buffer)@.len() == old(buffer)@.len(),
            contiguous_outcome::<T>(
                r,
                old(buffer)@,
                final(buffer)@,
                start as int,
                old(reader).bytes@,
                self.model(arena_map(*raw_data_indexes)),
                channel_id.0 as nat,
                O::spec_big_endian(),
            ),
    {
        let ghost indexes = arena_map(*raw_data_indexes);
        let ghost segment = self.model(indexes);
        let ghost objects = segment.objects;
        let ghost channel = channel_id.0 as nat;
        let mut channel_offset: u64 = 0;
        let mut k: usize = 0;
        while k < self.objects.len()
            invariant
                k <= self.objects@.len(),
                self.wf(indexes),
                indexes == arena_map(*raw_data_indexes),
                segment == self.model(indexes),
                objects == segment.objects,
                channel == channel_id.0,
                channel_offset == bytes_before(objects, k as int),
                first_with_data(objects, channel, k as int) is None,
                buffer@ == old(buffer)@,
                *reader == *old(reader),
            decreases self.objects@.len() - k,
        {
            let obj = self.objects[k];
            proof {
                assert(obj.known(indexes));
                assert(objects[k as int] == obj.entry(indexes));
                lemma_bytes_before_sum(objects, k + 1, objects.len() as int);
            }
            if let Some(raw_data_index_id) = obj.raw_data_index {
                let raw_data_index = arena_get(raw_data_indexes, raw_data_index_id).unwrap();
                if obj.object_id.0 == channel_id.0 {
                    proof {
                        lemma_first_with_data(objects, channel, k + 1, objects.len() as int);
                        assert(first_with_data(objects, channel, objects.len() as int) == Some(
                            k as int,
                        ));
                    }
                    let expected_native_type = raw_data_index.data_type.native_type();
                    let matches = match expected_native_type {
                        Some(native_type) => native_type == T::native_type(),
                        None => false,
                    };
                    if !matches {
                        return Err(
                            TdmsReadError::format_with_text(
                                "Expected a buffer with item type ",
                                raw_data_index.data_type.name(),
                            ),
                        );
                    }
                    proof {
                        if self.repetitions > 0 {
                            lemma_chunk_in_segment(segment, k as int, self.repetitions - 1);
                        }
                    }
                    let first_position = if self.repetitions > 0 {
                        self.data_position + channel_offset
                    } else {
                        0
                    };
                    let r = read_repetitions::<T, O>(
                        reader.bytes,
                        buffer,
                        start,
                        first_position,
                        self.data_size,
                        self.repetitions,
                        raw_data_index.number_of_values,
                    );
                    return r;
                } else {
                    channel_offset = channel_offset + raw_data_index.data_size;
                }
            }
            k += 1;
        }
        Ok(0)
    }
}

/// Reads `count` elements of one channel from each of `repetitions` chunks
/// of interleaved data of the file `bytes`. The first chunk is at
/// `first_position` and each `chunk_stride` bytes behind the one before it; a
/// chunk holds `count` samples of `sample_width` bytes, and the channel's
/// element lies `lane_offset` bytes into a sample.
fn read_interleaved_repetitions<T: NativeType, O: ByteOrderExt>(
    bytes: &[u8],
    buffer: &mut [T],
    start: usize,
    first_position: u64,
    chunk_stride: u64,
    repetitions: u64,
    count: u64,
    sample_width: u64,
    lane_offset: u64,
) -> (r: Result<usize>)
    requires
        repetitions > 0 ==> first_position + (repetitions - 1) * chunk_stride <= u64::MAX,
        lane_offset + T::spec_native_type().spec_width() <= sample_width,
    ensures
        final(buffer)@.len() == old(buffer)@.len(),
        ({
            let total = repetitions * count;
            if start + total > old(buffer)@.len() {
                r is Err && r->Err_0.spec_kind() == ErrorKind::Format
            } else if !(count == 0 || repetitions == 0 || first_position + (repetitions - 1)
                * chunk_stride + count * sample_width <= bytes@.len()) {
                r is Err && r->Err_0.spec_kind() == ErrorKind::Io
            } else {
                &&& r == Ok::<usize, TdmsReadError>(total as usize)
                &&& forall|j: int|
                    0 <= j < start || start + total <= j < old(buffer)@.len() ==> final(buffer)@[j]
                        == old(buffer)@[j]
                &&& forall|repetition: int, i: int|
                    0 <= repetition < repetitions && 0 <= i < count ==> #[trigger] final(buffer)@[start
                        + repetition * count + i] == element_at::<T>(
                        bytes@,
                        first_position + repetition * chunk_stride + i * sample_width + lane_offset,
                        O::spec_big_endian(),
                    )
            }
        }),
{
    let length = buffer.len();
    let file_length = bytes.len();
    let total = match repetitions.checked_mul(count) {
        Some(total) => total,
        None => {
            return Err(TdmsReadError::format("Buffer is too small for the values of a segment"));
        },
    };
    if start > length || total > (length - start) as u64 {
        return Err(TdmsReadError::format("Buffer is too small for the values of a segment"));
    }
    if repetitions == 0 || count == 0 {
        assert(repetitions * count == 0) by (nonlinear_arith)
            requires
                repetitions == 0 || count == 0,
        ;
        return Ok(0);
    }
    assert(count <= total) by (nonlinear_arith)
        requires
            total == repetitions * count,
            repetitions >= 1,
            count >= 0,
    ;
    let values = count as usize;
    let type_size = T::native_type().width();
    let ghost width = type_size as int;
    let ghost be = O::spec_big_endian();
    let chunk_bytes = match count.checked_mul(sample_width) {
        Some(chunk_bytes) => chunk_bytes,
        None => {
            proof {
                assert((repetitions - 1) * chunk_stride >= 0) by (nonlinear_arith)
                    requires
                        repetitions >= 1,
                        chunk_stride >= 0,
                ;
            }
            return Err(TdmsReadError::short_read());
        },
    };
    assert(sample_width <= chunk_bytes) by (nonlinear_arith)
        requires
            chunk_bytes == count * sample_width,
            count >= 1,
            sample_width >= 0,
    ;
    let mut position = first_position;
    let mut written: usize = 0;
    let mut repetition: u64 = 0;
    while repetition < repetitions
        invariant
            repetition <= repetitions,
            repetitions > 0,
            count > 0,
            values == count,
            total == repetitions * count,
            chunk_bytes == count * sample_width,
            sample_width <= chunk_bytes,
            start + total <= length,
            length == buffer@.len(),
            length == old(buffer)@.len(),
            file_length == bytes@.len(),
            width == T::spec_native_type().spec_width(),
            width == type_size,
            1 <= width <= 16,
            lane_offset + width <= sample_width,
            be == O::spec_big_endian(),
            first_position + (repetitions - 1) * chunk_stride <= u64::MAX,
            written == repetition * count,
            repetition < repetitions ==> position == first_position + repetition * chunk_stride,
            repetition > 0 ==> first_position + (repetition - 1) * chunk_stride + chunk_bytes
                <= bytes@.len(),
            forall|j: int|
                0 <= j < start || start + written <= j < length ==> buffer@[j] == old(buffer)@[j],
            forall|done: int, i: int|
                0 <= done < repetition && 0 <= i < count ==> #[trigger] buffer@[start + done * count
                    + i] == element_at::<T>(
                    bytes@,
                    first_position + done * chunk_stride + i * sample_width + lane_offset,
                    be,
                ),
        decreases repetitions - repetition,
    {
        proof {
            assert((repetition + 1) * count == repetition * count + count) by (nonlinear_arith);
            assert((repetition + 1) * count <= repetitions * count) by (nonlinear_arith)
                requires
                    repetition < repetitions,
                    count >= 0,
            ;
            assert(repetition * chunk_stride <= (repetitions - 1) * chunk_stride)
                by (nonlinear_arith)
                requires
                    repetition <= repetitions - 1,
                    chunk_stride >= 0,
            ;
        }
        if position > file_length as u64 || chunk_bytes > file_length as u64 - position {
            return Err(TdmsReadError::short_read());
        }
        let chunk_start = position as usize;
        let chunk = slice_subrange(bytes, chunk_start, chunk_start + chunk_bytes as usize);
        let mut interleaved_reader = InterleavedReader::new(
            chunk,
            sample_width as usize,
            type_size,
            lane_offset as usize,
        );
        let ghost whole = lane(chunk@, sample_width as int, width, lane_offset as int);
        let ghost before = buffer@;
        proof {
            assert(chunk@.len() as int / (sample_width as int) == count) by (nonlinear_arith)
                requires
                    chunk@.len() == count * sample_width,
                    sample_width > 0,
            ;
            assert(width * count == count * width) by (nonlinear_arith);
            assert(interleaved_reader.remaining() =~= whole);
            assert(whole.len() == count * width);
        }
        match read_values::<T, InterleavedReader, O>(
            buffer,
            start + written,
            &mut interleaved_reader,
            values,
        ) {
            Ok(_) => {},
            Err(e) => {
                return Err(e);
            },
        }
        proof {
            assert forall|done: int, i: int|
                0 <= done < repetition + 1 && 0 <= i < count implies #[trigger] buffer@[start + done
                * count + i] == element_at::<T>(
                bytes@,
                first_position + done * chunk_stride + i * sample_width + lane_offset,
                be,
            ) by {
                if done < repetition {
                    assert(done * count + count <= repetition * count) by (nonlinear_arith)
                        requires
                            done < repetition,
                            count >= 0,
                    ;
                    assert(done * count >= 0) by (nonlinear_arith)
                        requires
                            done >= 0,
                            count >= 0,
                    ;
                    assert(buffer@[start + done * count + i] == before[start + done * count + i]);
                } else {
                    lemma_lane_element(chunk@, sample_width as int, width, lane_offset as int, i);
                    assert(i * sample_width + sample_width <= count * sample_width
                        && i * sample_width >= 0) by (nonlinear_arith)
                        requires
                            0 <= i < count,
                            sample_width >= 0,
                    ;
                    assert(element_bytes(whole, i, width) == chunk@.subrange(
                        lane_offset + i * sample_width,
                        lane_offset + i * sample_width + width,
                    ));
                    assert(chunk@.subrange(
                        lane_offset + i * sample_width,
                        lane_offset + i * sample_width + width,
                    ) =~= bytes@.subrange(
                        position + i * sample_width + lane_offset,
                        position + i * sample_width + lane_offset + width,
                    ));
                    assert(buffer@[start + written + i] == T::spec_decode(
                        element_bytes(whole, i, width),
                        be,
                    ));
                }
            }
        }
        written = written + values;
        repetition = repetition + 1;
        if repetition < repetitions {
            proof {
                assert(repetition * chunk_stride == (repetition - 1) * chunk_stride + chunk_stride)
                    by (nonlinear_arith);
                assert(repetition * chunk_stride <= (repetitions - 1) * chunk_stride)
                    by (nonlinear_arith)
                    requires
                        repetition <= repetitions - 1,
                        chunk_stride >= 0,
                ;
            }
            position = position + chunk_stride;
        }
    }
    Ok(written)
}

/// What the scan of the objects of an interleaved segment found.
struct LaneLayout {
    /// The number of values of the objects with data, if there is one.
    length: Option<u64>,
    /// Offset in a sample and element type of the channel, if it has data.
    channel: Option<(u64, TdsType)>,
    /// Width of a sample.
    sample_width: u64,
}

impl TdmsSegment {
    /// Looks through the objects of a segment of interleaved data: checks
    /// that they can be interleaved, and finds the width of a sample and
    /// where in it the channel lies.
    fn scan_lanes(&self, channel_id: ObjectPathId, raw_data_indexes: &Arena<RawDataIndex>) -> (r:
        Result<LaneLayout>)
        requires
            self.wf(arena_map(*raw_data_indexes)),
        ensures
            ({
                let objects = self.model(arena_map(*raw_data_indexes)).objects;
                let n = objects.len() as int;
                if !uniform(objects, n) || widths_before(objects, n) > u64::MAX {
                    r is Err && r->Err_0.spec_kind() == ErrorKind::Format
                } else {
                    &&& r is Ok
                    &&& r->Ok_0.sample_width == widths_before(objects, n)
                    &&& match last_with_data(objects, channel_id.0 as nat, n) {
                        Some(k) => {
                            &&& r->Ok_0.channel == Some(
                                (widths_before(objects, k) as u64, objects[k].index->0.data_type),
                            )
                            &&& r->Ok_0.length == Some(objects[k].index->0.number_of_values)
                            &&& 0 <= k < n
                            &&& objects[k].index is Some
                            &&& widths_before(objects, k) + entry_width(objects[k])
                                <= widths_before(objects, n)
                        },
                        None => r->Ok_0.channel is None,
                    }
                }
            }),
    {
        let ghost indexes = arena_map(*raw_data_indexes);
        let ghost objects = self.model(indexes).objects;
        let ghost channel = channel_id.0 as nat;
        let mut length: Option<u64> = None;
        let mut channel_params: Option<(u64, TdsType)> = None;
        let mut chunk_width: u64 = 0;
        let ghost first: int = 0;
        let mut i: usize = 0;
        while i < self.objects.len()
            invariant
                i <= self.objects@.len(),
                self.wf(indexes),
                length matches Some(common) ==> 0 <= first < i && objects[first].index is Some
                    && objects[first].index->0.number_of_values == common,
                indexes == arena_map(*raw_data_indexes),
                objects == self.model(indexes).objects,
                channel == channel_id.0,
                uniform(objects, i as int),
                chunk_width == widths_before(objects, i as int),
                length matches Some(common) ==> forall|j: int|
                    0 <= j < i && (#[trigger] objects[j]).index is Some
                        ==> objects[j].index->0.number_of_values == common,
                length is None ==> forall|j: int|
                    0 <= j < i ==> (#[trigger] objects[j]).index is None,
                match last_with_data(objects, channel, i as int) {
                    Some(k) => {
                        &&& channel_params == Some(
                            (widths_before(objects, k) as u64, objects[k].index->0.data_type),
                        )
                        &&& length is Some
                        &&& 0 <= k < i
                        &&& objects[k].index is Some
                        &&& widths_before(objects, k) + entry_width(objects[k]) <= chunk_width
                    },
                    None => channel_params is None,
                },
            decreases self.objects@.len() - i,
        {
            let obj = self.objects[i];
            proof {
                assert(obj.known(indexes));
                assert(objects[i as int] == obj.entry(indexes));
            }
            if let Some(raw_data_index_id) = obj.raw_data_index {
                let raw_data_index = arena_get(raw_data_indexes, raw_data_index_id).unwrap();
                let type_size = match raw_data_index.data_type.size() {
                    Some(type_size) => type_size,
                    None => {
                        proof {
                            let n = objects.len() as int;
                            if uniform(objects, n) {
                                assert(objects[i as int].index is Some);
                            }
                        }
                        return Err(
                            TdmsReadError::format_with_text(
                                "Cannot read unsized data type in interleaved data chunk: ",
                                raw_data_index.data_type.name(),
                            ),
                        );
                    },
                };
                match length {
                    None => {
                        length = Some(raw_data_index.number_of_values);
                        proof {
                            first = i as int;
                        }
                    },
                    Some(common) => {
                        if raw_data_index.number_of_values != common {
                            proof {
                                let n = objects.len() as int;
                                if uniform(objects, n) {
                                    assert(objects[first].index is Some);
                                    assert(objects[i as int].index is Some);
                                }
                            }
                            return Err(
                                TdmsReadError::format_with_number(
                                    "Different data lengths in interleaved data segment. Expected length ",
                                    common,
                                ),
                            );
                        }
                    },
                }
                if obj.object_id.0 == channel_id.0 {
                    channel_params = Some((chunk_width, raw_data_index.data_type));
                }
                chunk_width = match chunk_width.checked_add(type_size as u64) {
                    Some(sum) => sum,
                    None => {
                        proof {
                            lemma_widths_before_sum(objects, i + 1, objects.len() as int);
                        }
                        return Err(
                            TdmsReadError::format("Sample width does not fit 64 bits"),
                        );
                    },
                };
            }
            i += 1;
        }
        Ok(LaneLayout { length, channel: channel_params, sample_width: chunk_width })
    }
}

impl TdmsSegment {
    /// Reads the values of a channel from a segment of interleaved data.
    fn read_interleaved_channel_data<T: NativeType, O: ByteOrderExt>(
        &self,
        reader: &mut ByteReader,
        channel_id: ObjectPathId,
        buffer: &mut [T],
        start: usize,
        raw_data_indexes: &Arena<RawDataIndex>,
    ) -> (r: Result<usize>)
        requires
            self.wf(arena_map(*raw_data_indexes)),
        ensures
            final(reader).bytes == old(reader).bytes,
            final(buffer)@.len() == old(buffer)@.len(),
            interleaved_outcome::<T>(
                r,
                old(buffer)@,
                final(buffer)@,
                start as int,
                old(reader).bytes@,
                self.model(arena_map(*raw_data_indexes)),
                channel_id.0 as nat,
                O::spec_big_endian(),
            ),
    {
        let ghost segment = self.model(arena_map(*raw_data_indexes));
        let ghost objects = segment.objects;
        let layout = match self.scan_lanes(channel_id, raw_data_indexes) {
            Ok(layout) => layout,
            Err(e) => {
                return Err(e);
            },
        };
        if let (Some((channel_offset, data_type)), Some(length)) = (layout.channel, layout.length) {
            let ghost k = last_with_data(objects, channel_id.0 as nat, objects.len() as int)->0;
            let matches = match data_type.native_type() {
                Some(native_type) => native_type == T::native_type(),
                None => false,
            };
            if !matches {
                return Err(
                    TdmsReadError::format_with_text(
                        "Expected a buffer with item type ",
                        data_type.name(),
                    ),
                );
            }
            proof {
                data_type.lemma_native_types_are_sized();
                if self.repetitions > 0 {
                    lemma_chunk_in_segment(segment, k, self.repetitions - 1);
                }
            }
            let first_position = if self.repetitions > 0 {
                self.data_position
            } else {
                0
            };
            read_interleaved_repetitions::<T, O>(
                reader.bytes,
                buffer,
                start,
                first_position,
                self.data_size,
                self.repetitions,
                length,
                layout.sample_width,
                channel_offset,
            )
        } else {
            Ok(0)
        }
    }

    /// Reads all values that the segment holds for the channel `channel_id`
    /// into `buffer`, from index `start` on, and gives their number. The file
    /// is the one that `reader` reads.
    pub fn read_channel_data<T: NativeType>(
        &self,
        reader: &mut ByteReader,
        channel_id: ObjectPathId,
        buffer: &mut [T],
        start: usize,
        raw_data_indexes: &Arena<RawDataIndex>,
    ) -> (r: Result<usize>)
        requires
            self.wf(arena_map(*raw_data_indexes)),
        ensures
            final(reader).bytes == old(reader).bytes,
            final(buffer)@.len() == old(buffer)@.len(),
            match segment_error::<T>(
                old(reader).bytes@,
                self.model(arena_map(*raw_data_indexes)),
                channel_id.0 as nat,
                old(buffer)@.len() - start,
            ) {
                Some(kind) => r is Err && r->Err_0.spec_kind() == kind,
                None => {
                    &&& r == Ok::<usize, TdmsReadError>(
                        values_read(
                            self.model(arena_map(*raw_data_indexes)),
                            channel_id.0 as nat,
                        ) as usize,
                    )
                    &&& segment_written::<T>(
                        final(buffer)@,
                        start as int,
                        old(reader).bytes@,
                        self.model(arena_map(*raw_data_indexes)),
                        channel_id.0 as nat,
                    )
                    &&& forall|j: int|
                        0 <= j < start || start + values_read(
                            self.model(arena_map(*raw_data_indexes)),
                            channel_id.0 as nat,
                        ) <= j < old(buffer)@.len() ==> final(buffer)@[j] == old(buffer)@[j]
                },
            },
    {
        let interleaved = self.toc_mask.has_flag(TocFlag::InterleavedData);
        let big_endian = self.toc_mask.has_flag(TocFlag::BigEndian);
        let ghost bytes = reader.bytes@;
        let ghost segment = self.model(arena_map(*raw_data_indexes));
        let r = self.read_by_layout::<T>(
            interleaved,
            big_endian,
            reader,
            channel_id,
            buffer,
            start,
            raw_data_indexes,
        );
        proof {
            lemma_segment_outcome::<T>(
                r,
                old(buffer)@,
                buffer@,
                start as int,
                bytes,
                segment,
                channel_id.0 as nat,
            );
        }
        r
    }

    /// Reads the values of a channel in the way that the two flags of the
    /// mask ask for.
    fn read_by_layout<T: NativeType>(
        &self,
        interleaved: bool,
        big_endian: bool,
        reader: &mut ByteReader,
        channel_id: ObjectPathId,
        buffer: &mut [T],
        start: usize,
        raw_data_indexes: &Arena<RawDataIndex>,
    ) -> (r: Result<usize>)
        requires
            self.wf(arena_map(*raw_data_indexes)),
            interleaved == TocMask::spec_has_flag(self.toc_mask@, TocFlag::InterleavedData),
            big_endian == TocMask::spec_has_flag(self.toc_mask@, TocFlag::BigEndian),
        ensures
            final(reader).bytes == old(reader).bytes,
            final(buffer)@.len() == old(buffer)@.len(),
            segment_outcome::<T>(
                r,
                old(buffer)@,
                final(buffer)@,
                start as int,
                old(reader).bytes@,
                self.model(arena_map(*raw_data_indexes)),
                channel_id.0 as nat,
            ),
    {
        match (interleaved, big_endian) {
            (false, false) => self.read_contiguous_channel_data::<T, LittleEndian>(
                reader,
                channel_id,
                buffer,
                start,
                raw_data_indexes,
            ),
            (false, true) => self.read_contiguous_channel_data::<T, BigEndian>(
                reader,
                channel_id,
                buffer,
                start,
                raw_data_indexes,
            ),
            (true, false) => self.read_interleaved_channel_data::<T, LittleEndian>(
                reader,
                channel_id,
                buffer,
                start,
                raw_data_indexes,
            ),
            (true, true) => self.read_interleaved_channel_data::<T, BigEndian>(
                reader,
                channel_id,
                buffer,
                start,
                raw_data_indexes,
            ),
        }
    }
}

} // verus!
