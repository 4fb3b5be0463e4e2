//! What reading the values of a channel gives, over all segments of a file.

use crate::channel_index::{total_values, values_before};
use crate::error::ErrorKind;
use crate::layout::{
    element_at, element_position, first_with_data, has_data_for, last_with_data,
    lemma_first_with_data, lemma_last_with_data, lists_channel, ObjectEntry, segment_error,
    segment_written, SegmentModel, source_object, values_read,
};
use crate::primitives::{lemma_quotient, NativeType};
use crate::toc::{TocFlag, TocMask};
use vstd::prelude::*;

verus! {

/// Number of values that are read for the channel from the first `n`
/// segments.
pub open spec fn total_read(segments: Seq<SegmentModel>, channel: nat, n: int) -> nat
    decreases n,
{
    if n <= 0 {
        0
    } else {
        total_read(segments, channel, n - 1) + values_read(segments[n - 1], channel)
    }
}

/// The error that reading the values of the channel from the first `n`
/// segments into a buffer of `capacity` values ends with, if it does: the
/// error of the first segment that lists the channel with data and cannot be
/// read into what is left of the buffer.
pub open spec fn channel_error<T: NativeType>(
    bytes: Seq<u8>,
    segments: Seq<SegmentModel>,
    channel: nat,
    capacity: int,
    n: int,
) -> Option<ErrorKind>
    decreases n,
{
    if n <= 0 {
        None
    } else {
        match channel_error::<T>(bytes, segments, channel, capacity, n - 1) {
            Some(kind) => Some(kind),
            None => if lists_channel(segments[n - 1], channel) {
                segment_error::<T>(
                    bytes,
                    segments[n - 1],
                    channel,
                    capacity - total_read(segments, channel, n - 1),
                )
            } else {
                None
            },
        }
    }
}

/// Whether the buffer holds the values of the channel from the first `n`
/// segments, one segment behind the other, from index 0 on.
pub open spec fn channel_written<T: NativeType>(
    buffer: Seq<T>,
    bytes: Seq<u8>,
    segments: Seq<SegmentModel>,
    channel: nat,
    n: int,
) -> bool {
    forall|s: int|
        0 <= s < n ==> segment_written::<T>(
            buffer,
            total_read(segments, channel, s) as int,
            bytes,
            #[trigger] segments[s],
            channel,
        )
}

/// The number of values read grows with the number of segments.
pub proof fn lemma_total_read_grows(segments: Seq<SegmentModel>, channel: nat, m: int, n: int)
    requires
        0 <= m <= n,
    ensures
        total_read(segments, channel, m) <= total_read(segments, channel, n),
    decreases n - m,
{
    if m < n {
        lemma_total_read_grows(segments, channel, m, n - 1);
    }
}

/// Once reading a channel has failed at a segment, it stays failed with that
/// error.
pub proof fn lemma_channel_error_stays<T: NativeType>(
    bytes: Seq<u8>,
    segments: Seq<SegmentModel>,
    channel: nat,
    capacity: int,
    m: int,
    n: int,
)
    requires
        0 <= m <= n,
        channel_error::<T>(bytes, segments, channel, capacity, m) is Some,
    ensures
        channel_error::<T>(bytes, segments, channel, capacity, n) == channel_error::<T>(
            bytes,
            segments,
            channel,
            capacity,
            m,
        ),
    decreases n - m,
{
    if m < n {
        lemma_channel_error_stays::<T>(bytes, segments, channel, capacity, m, n - 1);
    }
}

/// The values of a segment stay written where the buffer is not changed
/// below the end of the values.
pub proof fn lemma_written_stays<T: NativeType>(
    before: Seq<T>,
    after: Seq<T>,
    start: int,
    bytes: Seq<u8>,
    segment: SegmentModel,
    channel: nat,
    bound: int,
)
    requires
        segment_written::<T>(before, start, bytes, segment, channel),
        0 <= start,
        start + values_read(segment, channel) <= bound,
        forall|j: int| 0 <= j < bound ==> after[j] == before[j],
    ensures
        segment_written::<T>(after, start, bytes, segment, channel),
{
    reveal(segment_written);
    match source_object(segment, channel) {
        None => {},
        Some(k) => {
            let count = segment.objects[k].index->0.number_of_values as int;
            let repetitions = segment.repetitions as int;
            assert forall|repetition: int, i: int|
                0 <= repetition < repetitions && 0 <= i < count implies #[trigger] after[start
                + repetition * count + i] == before[start + repetition * count + i] by {
                assert(repetition * count + count <= repetitions * count && repetition * count >= 0)
                    by (nonlinear_arith)
                    requires
                        0 <= repetition < repetitions,
                        count >= 0,
                ;
            }
        },
    }
}

/// From a segment that does not list a channel with data no value of the
/// channel is read.
pub proof fn lemma_source_needs_listing(segment: SegmentModel, channel: nat)
    requires
        !lists_channel(segment, channel),
    ensures
        source_object(segment, channel) is None,
        values_read(segment, channel) == 0,
{
    lemma_first_with_data(
        segment.objects,
        channel,
        segment.objects.len() as int,
        segment.objects.len() as int,
    );
    lemma_last_with_data(segment.objects, channel, segment.objects.len() as int);
}

/// Whether no segment lists the channel with data more than once.
pub open spec fn listed_once(segments: Seq<SegmentModel>, channel: nat) -> bool {
    forall|s: int, a: int, b: int|
        0 <= s < segments.len() && 0 <= a < segments[s].objects.len() && 0 <= b
            < segments[s].objects.len() && has_data_for(
            #[trigger] segments[s].objects[a],
            channel,
        ) && has_data_for(#[trigger] segments[s].objects[b], channel) ==> a == b
}

/// The values of the first `n` objects of a segment, where at most one of
/// them has data for the channel, are the values of that one.
pub proof fn lemma_values_of_one(objects: Seq<ObjectEntry>, channel: nat, repetitions: nat, n: int)
    requires
        0 <= n <= objects.len(),
        forall|a: int, b: int|
            0 <= a < objects.len() && 0 <= b < objects.len() && has_data_for(
                #[trigger] objects[a],
                channel,
            ) && has_data_for(#[trigger] objects[b], channel) ==> a == b,
    ensures
        first_with_data(objects, channel, n) == last_with_data(objects, channel, n),
        values_before(objects, channel, repetitions, n) == (match first_with_data(
            objects,
            channel,
            n,
        ) {
            Some(k) => repetitions * objects[k].index->0.number_of_values as nat,
            None => 0,
        }),
    decreases n,
{
    if n > 0 {
        lemma_values_of_one(objects, channel, repetitions, n - 1);
        lemma_first_with_data(objects, channel, n - 1, n - 1);
        lemma_last_with_data(objects, channel, n - 1);
        if has_data_for(objects[n - 1], channel) {
            let count = objects[n - 1].index->0.number_of_values as nat;
            assert(count * repetitions == repetitions * count) by (nonlinear_arith);
        }
    }
}

/// Where no segment lists the channel with data more than once, the number
/// of values that are read for the channel is the number of values in its
/// cumulative index: reading all values of a channel gives exactly as many
/// values as the channel is long.
pub proof fn lemma_read_count_is_length(segments: Seq<SegmentModel>, channel: nat, n: int)
    requires
        0 <= n <= segments.len(),
        listed_once(segments, channel),
    ensures
        total_read(segments, channel, n) == total_values(segments, channel, n),
    decreases n,
{
    if n > 0 {
        lemma_read_count_is_length(segments, channel, n - 1);
        let segment = segments[n - 1];
        assert forall|a: int, b: int|
            0 <= a < segment.objects.len() && 0 <= b < segment.objects.len() && has_data_for(
                #[trigger] segment.objects[a],
                channel,
            ) && has_data_for(#[trigger] segment.objects[b], channel) implies a == b by {
            assert(has_data_for(segments[n - 1].objects[a], channel));
            assert(has_data_for(segments[n - 1].objects[b], channel));
        }
        lemma_values_of_one(
            segment.objects,
            channel,
            segment.repetitions,
            segment.objects.len() as int,
        );
    }
}

/// What reading a channel writes is determined by the file: two buffers that
/// both hold the values of the channel from the first `n` segments are equal
/// as far as values are read. So reading a channel twice gives the same
/// values.
pub proof fn lemma_read_is_determined<T: NativeType>(
    first: Seq<T>,
    second: Seq<T>,
    bytes: Seq<u8>,
    segments: Seq<SegmentModel>,
    channel: nat,
    n: int,
    j: int,
)
    requires
        0 <= n <= segments.len(),
        channel_written::<T>(first, bytes, segments, channel, n),
        channel_written::<T>(second, bytes, segments, channel, n),
        0 <= j < total_read(segments, channel, n),
    ensures
        first[j] == second[j],
    decreases n,
{
    reveal(segment_written);
    if n > 0 {
        let start = total_read(segments, channel, n - 1) as int;
        if j < start {
            lemma_read_is_determined::<T>(first, second, bytes, segments, channel, n - 1, j);
        } else {
            let segment = segments[n - 1];
            assert(segment_written::<T>(first, start, bytes, segment, channel));
            assert(segment_written::<T>(second, start, bytes, segment, channel));
            let k = source_object(segment, channel)->0;
            let count = segment.objects[k].index->0.number_of_values as int;
            let repetitions = segment.repetitions as int;
            let behind = j - start;
            lemma_quotient(behind, count, repetitions);
            let repetition = behind / count;
            let i = behind % count;
            assert(first[start + repetition * count + i] == element_at::<T>(
                bytes,
                element_position(
                    segment,
                    k,
                    repetition,
                    i,
                    T::spec_native_type().spec_width() as int,
                ),
                TocMask::spec_has_flag(segment.toc, TocFlag::BigEndian),
            ));
            assert(second[start + repetition * count + i] == first[start + repetition * count
                + i]);
        }
    }
}

} // verus!
