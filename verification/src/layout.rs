//! The layout of the raw data of a segment: where the values of each object
//! lie, in contiguous and in interleaved data.

use crate::error::{ErrorKind, Result, TdmsReadError};
use crate::primitives::NativeType;
use crate::segment::RawDataIndex;
use crate::toc::{TocFlag, TocMask};
use vstd::prelude::*;

verus! {

/// The mathematical value of a `SegmentObject`: the object's id and the raw
/// data index itself.
pub struct ObjectEntry {
    pub object_id: nat,
    pub index: Option<RawDataIndex>,
}

/// Number of bytes that an object takes in one chunk of contiguous data.
pub open spec fn entry_bytes(entry: ObjectEntry) -> nat {
    match entry.index {
        Some(index) => index.data_size as nat,
        None => 0,
    }
}

/// Number of bytes that the first `k` objects take in one chunk: for `k` the
/// length of the list the width of a chunk, for a smaller `k` the offset of
/// the object `k` in a chunk of contiguous data.
pub open spec fn bytes_before(objects: Seq<ObjectEntry>, k: int) -> nat
    decreases k,
{
    if k <= 0 {
        0
    } else {
        bytes_before(objects, k - 1) + entry_bytes(objects[k - 1])
    }
}

/// Width in bytes of one chunk of a segment with these objects.
pub open spec fn chunk_width(objects: Seq<ObjectEntry>) -> nat {
    bytes_before(objects, objects.len() as int)
}

/// Number of whole chunks between the raw data position and the next
/// segment: 0 for chunks of no bytes, and where the next segment does not lie
/// behind the raw data.
pub open spec fn chunk_count(data_position: nat, next_segment_position: nat, width: nat) -> nat {
    if width == 0 || next_segment_position < data_position {
        0
    } else {
        ((next_segment_position - data_position) / (width as int)) as nat
    }
}

/// Whether an object has data for the channel `channel`.
pub open spec fn has_data_for(entry: ObjectEntry, channel: nat) -> bool {
    entry.object_id == channel && entry.index is Some
}

/// Whether the object `k` is the first of the list with data for the
/// channel.
pub open spec fn is_first_with_data(objects: Seq<ObjectEntry>, channel: nat, k: int) -> bool {
    &&& 0 <= k < objects.len()
    &&& has_data_for(objects[k], channel)
    &&& forall|j: int| 0 <= j < k ==> !has_data_for(#[trigger] objects[j], channel)
}

/// Whether no object of the list has data for the channel.
pub open spec fn none_with_data(objects: Seq<ObjectEntry>, channel: nat) -> bool {
    forall|j: int| 0 <= j < objects.len() ==> !has_data_for(#[trigger] objects[j], channel)
}

/// The mathematical value of a segment.
pub struct SegmentModel {
    pub toc: u32,
    pub data_position: nat,
    pub next_segment_position: nat,
    pub objects: Seq<ObjectEntry>,
    pub data_size: nat,
    pub repetitions: nat,
}

/// The index of the first of the first `n` objects that has data for the
/// channel, if there is one.
pub open spec fn first_with_data(objects: Seq<ObjectEntry>, channel: nat, n: int) -> Option<int>
    decreases n,
{
    if n <= 0 {
        None
    } else {
        match first_with_data(objects, channel, n - 1) {
            Some(k) => Some(k),
            None => if has_data_for(objects[n - 1], channel) {
                Some(n - 1)
            } else {
                None
            },
        }
    }
}

/// The first object with data for a channel stays the first when more
/// objects are looked at; it has data for the channel, and none before it
/// has.
pub proof fn lemma_first_with_data(objects: Seq<ObjectEntry>, channel: nat, m: int, n: int)
    requires
        0 <= m <= n <= objects.len(),
    ensures
        first_with_data(objects, channel, m) is Some ==> first_with_data(objects, channel, n)
            == first_with_data(objects, channel, m),
        first_with_data(objects, channel, n) matches Some(k) ==> is_first_with_data(
            objects,
            channel,
            k,
        ) && k < n,
        first_with_data(objects, channel, n) is None ==> forall|j: int|
            0 <= j < n ==> !has_data_for(#[trigger] objects[j], channel),
    decreases n,
{
    if n > 0 {
        if m < n {
            lemma_first_with_data(objects, channel, m, n - 1);
        } else {
            lemma_first_with_data(objects, channel, n - 1, n - 1);
        }
    }
}

/// Where in the file the element `i` of the repetition `repetition` of the
/// object `k` lies in a segment of contiguous data, for elements of `width`
/// bytes: behind the chunks of the repetitions before it and behind the data
/// of the objects before it in the chunk.
pub open spec fn contiguous_position(
    segment: SegmentModel,
    k: int,
    repetition: int,
    i: int,
    width: int,
) -> int {
    segment.data_position + repetition * segment.data_size + bytes_before(segment.objects, k) + i
        * width
}

/// The element `i` of the repetition `repetition` of the object `k`, read
/// from a segment of contiguous data of the file `bytes`.
pub open spec fn contiguous_element<T: NativeType>(
    bytes: Seq<u8>,
    segment: SegmentModel,
    k: int,
    repetition: int,
    i: int,
    big_endian: bool,
) -> T {
    let width = T::spec_native_type().spec_width() as int;
    let position = contiguous_position(segment, k, repetition, i, width);
    T::spec_decode(bytes.subrange(position, position + width), big_endian)
}

/// Whether the file `bytes` holds all values of the object `k` of a segment
/// of contiguous data, for elements of `width` bytes.
pub open spec fn contiguous_complete(bytes: Seq<u8>, segment: SegmentModel, k: int, width: int)
    -> bool {
    let count = segment.objects[k].index->0.number_of_values as int;
    count == 0 || segment.repetitions == 0 || contiguous_position(
        segment,
        k,
        segment.repetitions - 1,
        count,
        width,
    ) <= bytes.len()
}

/// Whether `after` is `before` with the values of the object `k` of a
/// segment of contiguous data written from index `start` on, repetition
/// after repetition.
pub open spec fn contiguous_written<T: NativeType>(
    before: Seq<T>,
    after: Seq<T>,
    start: int,
    bytes: Seq<u8>,
    segment: SegmentModel,
    k: int,
    big_endian: bool,
) -> bool {
    let count = segment.objects[k].index->0.number_of_values as int;
    &&& after.len() == before.len()
    &&& forall|j: int|
        0 <= j < start || start + segment.repetitions * count <= j < before.len() ==> after[j]
            == before[j]
    &&& forall|repetition: int, i: int|
        0 <= repetition < segment.repetitions && 0 <= i < count ==> #[trigger] after[start
            + repetition * count + i] == contiguous_element::<T>(
            bytes,
            segment,
            k,
            repetition,
            i,
            big_endian,
        )
}

/// What reading the values of a channel from a segment of contiguous data
/// has to give: nothing from a segment without data for the channel; a format
/// error where the data is not of the element kind of `T` or does not fit the
/// buffer behind `start`; an IO error where the file ends before the data;
/// else the values, written to the buffer from `start` on, and their number.
pub open spec fn contiguous_outcome<T: NativeType>(
    r: Result<usize>,
    before: Seq<T>,
    after: Seq<T>,
    start: int,
    bytes: Seq<u8>,
    segment: SegmentModel,
    channel: nat,
    big_endian: bool,
) -> bool {
    match first_with_data(segment.objects, channel, segment.objects.len() as int) {
        None => r == Ok::<usize, TdmsReadError>(0) && after == before,
        Some(k) => {
            let index = segment.objects[k].index->0;
            let total = segment.repetitions * index.number_of_values;
            if index.data_type.spec_native_type() != Some(T::spec_native_type()) || start + total
                > before.len() {
                r is Err && r->Err_0.spec_kind() == ErrorKind::Format
            } else if !contiguous_complete(
                bytes,
                segment,
                k,
                T::spec_native_type().spec_width() as int,
            ) {
                r is Err && r->Err_0.spec_kind() == ErrorKind::Io && after.len() == before.len()
            } else {
                r == Ok::<usize, TdmsReadError>(total as usize) && contiguous_written(
                    before,
                    after,
                    start,
                    bytes,
                    segment,
                    k,
                    big_endian,
                )
            }
        },
    }
}

/// The chunks of a segment lie before the next segment: every repetition of
/// every object ends at or before the position of the next segment.
pub proof fn lemma_chunk_in_segment(segment: SegmentModel, k: int, repetition: int)
    requires
        segment.data_size == chunk_width(segment.objects),
        segment.repetitions == chunk_count(
            segment.data_position,
            segment.next_segment_position,
            segment.data_size,
        ),
        0 <= k < segment.objects.len(),
        0 <= repetition < segment.repetitions,
    ensures
        segment.data_position + repetition * segment.data_size + bytes_before(segment.objects, k)
            + entry_bytes(segment.objects[k]) <= segment.next_segment_position,
        repetition * segment.data_size >= 0,
{
    let width = segment.data_size as int;
    let room = segment.next_segment_position - segment.data_position;
    let repetitions = segment.repetitions as int;
    lemma_bytes_before_sum(segment.objects, k + 1, segment.objects.len() as int);
    assert(repetitions * width <= room) by (nonlinear_arith)
        requires
            width > 0,
            room >= 0,
            repetitions == room / width,
    ;
    assert(repetition * width + width <= repetitions * width && repetition * width >= 0)
        by (nonlinear_arith)
        requires
            0 <= repetition < repetitions,
            width > 0,
    ;
}

/// The bytes before an object are no more than the bytes before a later one.
pub proof fn lemma_bytes_before_sum(objects: Seq<ObjectEntry>, j: int, k: int)
    requires
        0 <= j <= k,
    ensures
        bytes_before(objects, j) <= bytes_before(objects, k),
    decreases k - j,
{
    if j < k {
        lemma_bytes_before_sum(objects, j, k - 1);
    }
}

/// The element of `width` bytes at `position` in the file `bytes`.
pub open spec fn element_at<T: NativeType>(bytes: Seq<u8>, position: int, big_endian: bool) -> T {
    T::spec_decode(
        bytes.subrange(position, position + T::spec_native_type().spec_width()),
        big_endian,
    )
}

/// Number of bytes that an object takes in one sample of interleaved data:
/// the size of one element of its type.
pub open spec fn entry_width(entry: ObjectEntry) -> nat {
    match entry.index {
        Some(index) => match index.data_type.spec_size() {
            Some(size) => size as nat,
            None => 0,
        },
        None => 0,
    }
}

/// Number of bytes that the first `k` objects take in one sample: for `k` the
/// length of the list the width of a sample, for a smaller `k` the offset of
/// the object `k` in a sample of interleaved data.
pub open spec fn widths_before(objects: Seq<ObjectEntry>, k: int) -> nat
    decreases k,
{
    if k <= 0 {
        0
    } else {
        widths_before(objects, k - 1) + entry_width(objects[k - 1])
    }
}

/// Whether the first `n` objects can be interleaved: all of them that have
/// data have a type of fixed size and the same number of values.
pub open spec fn uniform(objects: Seq<ObjectEntry>, n: int) -> bool {
    forall|a: int, b: int|
        0 <= a < n && 0 <= b < n && (#[trigger] objects[a]).index is Some && (
        #[trigger] objects[b]).index is Some ==> objects[a].index->0.data_type.spec_size() is Some
            && objects[a].index->0.number_of_values == objects[b].index->0.number_of_values
}

/// The index of the last of the first `n` objects that has data for the
/// channel, if there is one.
pub open spec fn last_with_data(objects: Seq<ObjectEntry>, channel: nat, n: int) -> Option<int>
    decreases n,
{
    if n <= 0 {
        None
    } else if has_data_for(objects[n - 1], channel) {
        Some(n - 1)
    } else {
        last_with_data(objects, channel, n - 1)
    }
}

/// The last object with data for a channel has data for the channel, and
/// where there is none, no object has.
pub proof fn lemma_last_with_data(objects: Seq<ObjectEntry>, channel: nat, n: int)
    requires
        0 <= n <= objects.len(),
    ensures
        last_with_data(objects, channel, n) matches Some(k) ==> 0 <= k < n && has_data_for(
            objects[k],
            channel,
        ),
        last_with_data(objects, channel, n) is None ==> forall|j: int|
            0 <= j < n ==> !has_data_for(#[trigger] objects[j], channel),
    decreases n,
{
    if n > 0 {
        lemma_last_with_data(objects, channel, n - 1);
    }
}

/// The widths before an object are no more than the widths before a later
/// one.
pub proof fn lemma_widths_before_sum(objects: Seq<ObjectEntry>, j: int, k: int)
    requires
        0 <= j <= k,
    ensures
        widths_before(objects, j) <= widths_before(objects, k),
    decreases k - j,
{
    if j < k {
        lemma_widths_before_sum(objects, j, k - 1);
    }
}

/// What reading the values of a channel from a segment of interleaved data
/// has to give: a format error where the objects cannot be interleaved or a
/// sample is wider than 64 bits can say; nothing from a segment without data
/// for the channel; a format error where the data is not of the element kind
/// of `T` or does not fit the buffer behind `start`; an IO error where the
/// file ends before the data; else the values, written to the buffer from
/// `start` on, and their number. The element `i` of the repetition
/// `repetition` is read from the sample `i` of the chunk `repetition`, at the
/// offset of the channel in the sample.
pub open spec fn interleaved_outcome<T: NativeType>(
    r: Result<usize>,
    before: Seq<T>,
    after: Seq<T>,
    start: int,
    bytes: Seq<u8>,
    segment: SegmentModel,
    channel: nat,
    big_endian: bool,
) -> bool {
    let objects = segment.objects;
    let sample_width = widths_before(objects, objects.len() as int);
    if !uniform(objects, objects.len() as int) || sample_width > u64::MAX {
        r is Err && r->Err_0.spec_kind() == ErrorKind::Format
    } else {
        match last_with_data(objects, channel, objects.len() as int) {
            None => r == Ok::<usize, TdmsReadError>(0) && after == before,
            Some(k) => {
                let index = objects[k].index->0;
                let count = index.number_of_values as int;
                let total = segment.repetitions * count;
                if index.data_type.spec_native_type() != Some(T::spec_native_type()) || start
                    + total > before.len() {
                    r is Err && r->Err_0.spec_kind() == ErrorKind::Format
                } else if !(count == 0 || segment.repetitions == 0 || segment.data_position + (
                segment.repetitions - 1) * segment.data_size + count * sample_width
                    <= bytes.len()) {
                    r is Err && r->Err_0.spec_kind() == ErrorKind::Io
                } else {
                    &&& r == Ok::<usize, TdmsReadError>(total as usize)
                    &&& after.len() == before.len()
                    &&& forall|j: int|
                        0 <= j < start || start + total <= j < before.len() ==> after[j]
                            == before[j]
                    &&& forall|repetition: int, i: int|
                        0 <= repetition < segment.repetitions && 0 <= i < count
                            ==> #[trigger] after[start + repetition * count + i] == element_at::<T>(
                            bytes,
                            segment.data_position + repetition * segment.data_size + i
                                * sample_width + widths_before(objects, k),
                            big_endian,
                        )
                }
            },
        }
    }
}

/// What reading the values of a channel from a segment has to give: see
/// `interleaved_outcome` for a segment whose mask says that its data is
/// interleaved, and `contiguous_outcome` for every other segment; the byte
/// order is that which the mask names.
pub open spec fn segment_outcome<T: NativeType>(
    r: Result<usize>,
    before: Seq<T>,
    after: Seq<T>,
    start: int,
    bytes: Seq<u8>,
    segment: SegmentModel,
    channel: nat,
) -> bool {
    let big_endian = TocMask::spec_has_flag(segment.toc, TocFlag::BigEndian);
    if TocMask::spec_has_flag(segment.toc, TocFlag::InterleavedData) {
        interleaved_outcome::<T>(r, before, after, start, bytes, segment, channel, big_endian)
    } else {
        contiguous_outcome::<T>(r, before, after, start, bytes, segment, channel, big_endian)
    }
}

/// Whether the mask of the segment says that its data is interleaved.
pub open spec fn is_interleaved(segment: SegmentModel) -> bool {
    TocMask::spec_has_flag(segment.toc, TocFlag::InterleavedData)
}

/// Whether the segment lists the channel with data.
pub open spec fn lists_channel(segment: SegmentModel, channel: nat) -> bool {
    exists|k: int| 0 <= k < segment.objects.len() && has_data_for(#[trigger] segment.objects[k], channel)
}

/// The object of the segment that the values of the channel are read from:
/// in contiguous data the first object with data for the channel, in
/// interleaved data the last.
pub open spec fn source_object(segment: SegmentModel, channel: nat) -> Option<int> {
    if is_interleaved(segment) {
        last_with_data(segment.objects, channel, segment.objects.len() as int)
    } else {
        first_with_data(segment.objects, channel, segment.objects.len() as int)
    }
}

/// Number of values that are read from the segment for the channel.
pub open spec fn values_read(segment: SegmentModel, channel: nat) -> nat {
    match source_object(segment, channel) {
        Some(k) => segment.repetitions * segment.objects[k].index->0.number_of_values as nat,
        None => 0,
    }
}

/// Where in the file the element `i` of the repetition `repetition` of the
/// object `k` of the segment lies, for elements of `width` bytes.
pub open spec fn element_position(
    segment: SegmentModel,
    k: int,
    repetition: int,
    i: int,
    width: int,
) -> int {
    if is_interleaved(segment) {
        segment.data_position + repetition * segment.data_size + i * widths_before(
            segment.objects,
            segment.objects.len() as int,
        ) + widths_before(segment.objects, k)
    } else {
        contiguous_position(segment, k, repetition, i, width)
    }
}

/// The error that reading the values of the channel from the segment into a
/// buffer with room for `room` values ends with, if it does: a format error
/// where the objects of a segment of interleaved data cannot be interleaved,
/// where the data is not of the element kind of `T`, and where the values do
/// not fit the room; an IO error where the file `bytes` ends before the data.
#[verifier::opaque]
pub open spec fn segment_error<T: NativeType>(
    bytes: Seq<u8>,
    segment: SegmentModel,
    channel: nat,
    room: int,
) -> Option<ErrorKind> {
    let objects = segment.objects;
    let n = objects.len() as int;
    if is_interleaved(segment) && (!uniform(objects, n) || widths_before(objects, n) > u64::MAX) {
        Some(ErrorKind::Format)
    } else {
        match source_object(segment, channel) {
            None => None,
            Some(k) => {
                let index = objects[k].index->0;
                let count = index.number_of_values as int;
                let width = T::spec_native_type().spec_width() as int;
                let values_width = if is_interleaved(segment) {
                    count * widths_before(objects, n)
                } else {
                    bytes_before(objects, k) + count * width
                };
                if index.data_type.spec_native_type() != Some(T::spec_native_type())
                    || segment.repetitions * count > room {
                    Some(ErrorKind::Format)
                } else if !(count == 0 || segment.repetitions == 0 || segment.data_position + (
                segment.repetitions - 1) * segment.data_size + values_width <= bytes.len()) {
                    Some(ErrorKind::Io)
                } else {
                    None
                }
            },
        }
    }
}

/// Whether the buffer `buffer` holds the values of the channel from the
/// segment, from index `start` on: repetition after repetition, each element
/// decoded from where it lies in the file `bytes`, in the byte order that the
/// mask of the segment names.
#[verifier::opaque]
pub open spec fn segment_written<T: NativeType>(
    buffer: Seq<T>,
    start: int,
    bytes: Seq<u8>,
    segment: SegmentModel,
    channel: nat,
) -> bool {
    match source_object(segment, channel) {
        None => true,
        Some(k) => {
            let count = segment.objects[k].index->0.number_of_values as int;
            forall|repetition: int, i: int|
                0 <= repetition < segment.repetitions && 0 <= i < count ==> #[trigger] buffer[start
                    + repetition * count + i] == element_at::<T>(
                    bytes,
                    element_position(
                        segment,
                        k,
                        repetition,
                        i,
                        T::spec_native_type().spec_width() as int,
                    ),
                    TocMask::spec_has_flag(segment.toc, TocFlag::BigEndian),
                )
        },
    }
}

/// A buffer holds the values of a segment from which none are read.
pub proof fn lemma_nothing_written<T: NativeType>(
    buffer: Seq<T>,
    start: int,
    bytes: Seq<u8>,
    segment: SegmentModel,
    channel: nat,
)
    requires
        source_object(segment, channel) is None,
    ensures
        segment_written::<T>(buffer, start, bytes, segment, channel),
{
    reveal(segment_written);
}

/// The values of a segment that can be read fit the room that they are read
/// into.
pub proof fn lemma_read_fits<T: NativeType>(
    bytes: Seq<u8>,
    segment: SegmentModel,
    channel: nat,
    room: int,
)
    requires
        segment_error::<T>(bytes, segment, channel, room) is None,
        0 <= room,
    ensures
        values_read(segment, channel) <= room,
{
    reveal(segment_error);
}

/// What reading the values of a channel from a segment gives, said with
/// `segment_error`, `values_read` and `segment_written`.
pub proof fn lemma_segment_outcome<T: NativeType>(
    r: Result<usize>,
    before: Seq<T>,
    after: Seq<T>,
    start: int,
    bytes: Seq<u8>,
    segment: SegmentModel,
    channel: nat,
)
    requires
        segment_outcome::<T>(r, before, after, start, bytes, segment, channel),
        after.len() == before.len(),
        0 <= start,
    ensures
        match segment_error::<T>(bytes, segment, channel, before.len() - start) {
            Some(kind) => r is Err && r->Err_0.spec_kind() == kind,
            None => {
                &&& r == Ok::<usize, TdmsReadError>(values_read(segment, channel) as usize)
                &&& segment_written::<T>(after, start, bytes, segment, channel)
                &&& forall|j: int|
                    0 <= j < start || start + values_read(segment, channel) <= j < before.len()
                        ==> after[j] == before[j]
            },
        },
{
    reveal(segment_error);
    reveal(segment_written);
    let objects = segment.objects;
    let n = objects.len() as int;
    if !is_interleaved(segment) {
        match first_with_data(objects, channel, n) {
            Some(k) => {
                let count = objects[k].index->0.number_of_values as int;
                let width = T::spec_native_type().spec_width() as int;
                assert(contiguous_position(segment, k, segment.repetitions - 1, count, width)
                    == segment.data_position + (segment.repetitions - 1) * segment.data_size + (
                bytes_before(objects, k) + count * width));
            },
            None => {},
        }
    }
}

} // verus!
