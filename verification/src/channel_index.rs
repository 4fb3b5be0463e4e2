//! The cumulative data index of the channels: the element type of each
//! channel and the number of its values over all segments.

use crate::arena::{arena_get, arena_map};
use crate::error::{ErrorKind, Result, TdmsReadError};
use crate::layout::{ObjectEntry, SegmentModel};
use crate::object_map::ObjectMap;
use crate::segment::{all_known, entries, RawDataIndex, SegmentObject};
use crate::types::TdsType;
use id_arena::Arena;
use vstd::prelude::*;

verus! {

/// The cumulative data index of a channel: the type of its elements and the
/// number of its values over all segments.
#[derive(Debug, Clone, Copy, PartialEq, Eq, Structural)]
pub struct ChannelDataIndex {
    pub number_of_values: u64,
    pub data_type: TdsType,
}

impl ChannelDataIndex {
    /// The index of a channel that has data for the first time, in a
    /// segment that repeats its chunk `repetitions` times. Fails with a
    /// format error exactly when the number of values does not fit 64 bits.
    pub fn from_segment_index(index: &RawDataIndex, repetitions: u64) -> (r: Result<
        ChannelDataIndex,
    >)
        ensures
            match r {
                Ok(channel) => {
                    &&& channel.data_type == index.data_type
                    &&& channel.number_of_values == index.number_of_values * repetitions
                },
                Err(e) => {
                    &&& index.number_of_values * repetitions > u64::MAX
                    &&& e.spec_kind() == ErrorKind::Format
                },
            },
    {
        match index.number_of_values.checked_mul(repetitions) {
            Some(number_of_values) => Ok(
                ChannelDataIndex { data_type: index.data_type, number_of_values },
            ),
            None => Err(
                TdmsReadError::format_with_number(
                    "Number of values does not fit 64 bits for repetitions ",
                    repetitions,
                ),
            ),
        }
    }

    /// Adds the values of one more segment to the index of a channel. Fails
    /// with a format error, and changes nothing, exactly when the segment has
    /// another element type for the channel or the number of values does not
    /// fit 64 bits.
    pub fn update_with_segment_index(&mut self, index: &RawDataIndex, repetitions: u64) -> (r:
        Result<()>)
        ensures
            match r {
                Ok(_) => {
                    &&& index.data_type == old(self).data_type
                    &&& final(self).data_type == old(self).data_type
                    &&& final(self).number_of_values == old(self).number_of_values
                        + index.number_of_values * repetitions
                },
                Err(e) => {
                    &&& index.data_type != old(self).data_type || old(self).number_of_values
                        + index.number_of_values * repetitions > u64::MAX
                    &&& e.spec_kind() == ErrorKind::Format
                    &&& *final(self) == *old(self)
                },
            },
    {
        // We have data in this segment for an object that already had data in a
        // previous segment, check the raw data index is compatible.
        if index.data_type != self.data_type {
            return Err(
                TdmsReadError::format_with_text(
                    "Data type does not match existing data type ",
                    self.data_type.name(),
                ),
            );
        }
        let added = match index.number_of_values.checked_mul(repetitions) {
            Some(added) => added,
            None => {
                return Err(
                    TdmsReadError::format_with_number(
                        "Number of values does not fit 64 bits for repetitions ",
                        repetitions,
                    ),
                );
            },
        };
        match self.number_of_values.checked_add(added) {
            Some(total) => {
                self.number_of_values = total;
                Ok(())
            },
            None => Err(
                TdmsReadError::format_with_number(
                    "Number of values does not fit 64 bits for repetitions ",
                    repetitions,
                ),
            ),
        }
    }
}

pub type ChannelDataIndexMap = ObjectMap<ChannelDataIndex>;

/// Number of values that one object of a segment adds to the channel
/// `channel`, where the segment repeats its chunk `repetitions` times.
pub open spec fn values_in(entry: ObjectEntry, channel: nat, repetitions: nat) -> nat {
    match entry.index {
        Some(index) => if entry.object_id == channel {
            index.number_of_values as nat * repetitions
        } else {
            0
        },
        None => 0,
    }
}

/// Number of values that the first `k` objects of a segment add to the
/// channel.
pub open spec fn values_before(objects: Seq<ObjectEntry>, channel: nat, repetitions: nat, k: int)
    -> nat
    decreases k,
{
    if k <= 0 {
        0
    } else {
        values_before(objects, channel, repetitions, k - 1) + values_in(
            objects[k - 1],
            channel,
            repetitions,
        )
    }
}

/// Number of values that a segment holds for the channel: for each object
/// with data for the channel, the number of values in a chunk times the
/// repetitions of the chunk.
pub open spec fn segment_values(segment: SegmentModel, channel: nat) -> nat {
    values_before(segment.objects, channel, segment.repetitions, segment.objects.len() as int)
}

/// Number of values that the first `n` segments hold for the channel.
pub open spec fn total_values(segments: Seq<SegmentModel>, channel: nat, n: int) -> nat
    decreases n,
{
    if n <= 0 {
        0
    } else {
        total_values(segments, channel, n - 1) + segment_values(segments[n - 1], channel)
    }
}

/// The number of values that the cumulative index has for the channel; 0 for
/// a channel that is not in it.
pub open spec fn channel_count(channels: Map<nat, ChannelDataIndex>, channel: nat) -> nat {
    if channels.contains_key(channel) {
        channels[channel].number_of_values as nat
    } else {
        0
    }
}

/// Whether every object among the first `k` that has data has its channel in
/// the cumulative index, with the same element type.
pub open spec fn types_agree(channels: Map<nat, ChannelDataIndex>, objects: Seq<ObjectEntry>, k: int)
    -> bool {
    forall|j: int|
        0 <= j < k && j < objects.len() ==> ((#[trigger] objects[j]).index matches Some(index)
            ==> channels.contains_key(objects[j].object_id) && channels[objects[j].object_id].data_type
            == index.data_type)
}

/// Whether the cumulative index is that of the segments: for every channel
/// the number of values is the sum over all segments of the values in a chunk
/// times the repetitions, and every object with data has the element type of
/// its channel.
pub open spec fn channels_match(channels: Map<nat, ChannelDataIndex>, segments: Seq<SegmentModel>)
    -> bool {
    &&& forall|channel: nat| #[trigger]
        channel_count(channels, channel) == total_values(segments, channel, segments.len() as int)
    &&& forall|s: int|
        0 <= s < segments.len() ==> types_agree(
            channels,
            (#[trigger] segments[s]).objects,
            segments[s].objects.len() as int,
        )
}

/// The cumulative index with one object of a segment added: unchanged for an
/// object without data; a new entry with the object's element type for a
/// channel that had no data before; else more values for the channel. `None`
/// where the element type differs from that of the channel, and where the
/// number of values does not fit 64 bits.
pub open spec fn update_one(channels: Map<nat, ChannelDataIndex>, entry: ObjectEntry, repetitions: nat)
    -> Option<Map<nat, ChannelDataIndex>> {
    match entry.index {
        None => Some(channels),
        Some(index) => {
            let added = index.number_of_values as nat * repetitions;
            if channels.contains_key(entry.object_id) {
                let existing = channels[entry.object_id];
                if existing.data_type != index.data_type || existing.number_of_values + added
                    > u64::MAX {
                    None
                } else {
                    Some(
                        channels.insert(
                            entry.object_id,
                            ChannelDataIndex {
                                number_of_values: (existing.number_of_values + added) as u64,
                                data_type: existing.data_type,
                            },
                        ),
                    )
                }
            } else if added > u64::MAX {
                None
            } else {
                Some(
                    channels.insert(
                        entry.object_id,
                        ChannelDataIndex {
                            number_of_values: added as u64,
                            data_type: index.data_type,
                        },
                    ),
                )
            }
        },
    }
}

/// The cumulative index with the first `k` objects of a segment added.
pub open spec fn update_first(
    channels: Map<nat, ChannelDataIndex>,
    objects: Seq<ObjectEntry>,
    repetitions: nat,
    k: int,
) -> Option<Map<nat, ChannelDataIndex>>
    decreases k,
{
    if k <= 0 {
        Some(channels)
    } else {
        match update_first(channels, objects, repetitions, k - 1) {
            Some(before) => update_one(before, objects[k - 1], repetitions),
            None => None,
        }
    }
}

/// The cumulative index with all objects of a segment added.
pub open spec fn spec_update_channels(
    channels: Map<nat, ChannelDataIndex>,
    objects: Seq<ObjectEntry>,
    repetitions: nat,
) -> Option<Map<nat, ChannelDataIndex>> {
    update_first(channels, objects, repetitions, objects.len() as int)
}

/// Adding objects to the cumulative index adds their values to the count of
/// their channel, keeps every channel and its element type, and gives every
/// object with data the element type of its channel.
pub proof fn lemma_update_counts(
    channels: Map<nat, ChannelDataIndex>,
    objects: Seq<ObjectEntry>,
    repetitions: nat,
    k: int,
)
    requires
        0 <= k <= objects.len(),
        update_first(channels, objects, repetitions, k) is Some,
    ensures
        forall|channel: nat| #[trigger]
            channel_count(update_first(channels, objects, repetitions, k)->0, channel)
                == channel_count(channels, channel) + values_before(
                objects,
                channel,
                repetitions,
                k,
            ),
        forall|channel: nat| #[trigger]
            channels.contains_key(channel) ==> update_first(
                channels,
                objects,
                repetitions,
                k,
            )->0.contains_key(channel) && update_first(
                channels,
                objects,
                repetitions,
                k,
            )->0[channel].data_type == channels[channel].data_type,
        types_agree(update_first(channels, objects, repetitions, k)->0, objects, k),
    decreases k,
{
    if k > 0 {
        lemma_update_counts(channels, objects, repetitions, k - 1);
        let before = update_first(channels, objects, repetitions, k - 1)->0;
        let after = update_first(channels, objects, repetitions, k)->0;
        let entry = objects[k - 1];
        assert forall|channel: nat| #[trigger]
            channel_count(after, channel) == channel_count(channels, channel) + values_before(
                objects,
                channel,
                repetitions,
                k,
            ) by {
            assert(channel_count(before, channel) == channel_count(channels, channel)
                + values_before(objects, channel, repetitions, k - 1));
        }
        assert forall|channel: nat| #[trigger] channels.contains_key(channel) implies after.contains_key(
            channel,
        ) && after[channel].data_type == channels[channel].data_type by {
            assert(before.contains_key(channel));
        }
        assert forall|j: int| 0 <= j < k && j < objects.len() implies ((#[trigger] objects[j]).index matches Some(
            index,
        ) ==> after.contains_key(objects[j].object_id) && after[objects[j].object_id].data_type
            == index.data_type) by {
            if j < k - 1 && objects[j].index is Some {
                assert(before.contains_key(objects[j].object_id));
            }
        }
    }
}

/// Once adding the objects of a segment has failed, it stays failed.
pub proof fn lemma_update_stays_failed(
    channels: Map<nat, ChannelDataIndex>,
    objects: Seq<ObjectEntry>,
    repetitions: nat,
    k: int,
    n: int,
)
    requires
        0 <= k <= n,
        update_first(channels, objects, repetitions, k) is None,
    ensures
        update_first(channels, objects, repetitions, n) is None,
    decreases n - k,
{
    if k < n {
        lemma_update_stays_failed(channels, objects, repetitions, k, n - 1);
    }
}

/// Update the channel data indexes with data indexes for the current objects in a segment
pub(crate) fn update_data_indexes(
    channels: &mut ChannelDataIndexMap,
    data_indexes: &Arena<RawDataIndex>,
    segment_objects: &Vec<SegmentObject>,
    repetitions: u64,
) -> (r: Result<()>)
    requires
        all_known(segment_objects@, arena_map(*data_indexes)),
        forall|k: int|
            0 <= k < segment_objects@.len() ==> (#[trigger] segment_objects@[k]).object_id.0
                < usize::MAX,
    ensures
        match spec_update_channels(
            old(channels)@,
            entries(segment_objects@, arena_map(*data_indexes)),
            repetitions as nat,
        ) {
            Some(updated) => r is Ok && final(channels)@ == updated,
            None => r is Err && r->Err_0.spec_kind() == ErrorKind::Format,
        },
{
    let ghost objects = entries(segment_objects@, arena_map(*data_indexes));
    let ghost reps = repetitions as nat;
    let mut k: usize = 0;
    while k < segment_objects.len()
        invariant
            k <= segment_objects@.len(),
            all_known(segment_objects@, arena_map(*data_indexes)),
            forall|j: int|
                0 <= j < segment_objects@.len() ==> (#[trigger] segment_objects@[j]).object_id.0
                    < usize::MAX,
            objects == entries(segment_objects@, arena_map(*data_indexes)),
            reps == repetitions,
            update_first(old(channels)@, objects, reps, k as int) == Some(channels@),
        decreases segment_objects@.len() - k,
    {
        let segment_obj = segment_objects[k];
        assert(segment_obj.known(arena_map(*data_indexes)));
        assert(objects[k as int] == segment_obj.entry(arena_map(*data_indexes)));
        if let Some(segment_data_index_id) = segment_obj.raw_data_index {
            // If we have a valid raw data index id it must correspond to a raw data index
            // in data_indexes so unwrap here is safe.
            let segment_raw_data_index = arena_get(data_indexes, segment_data_index_id).unwrap();
            let existing = match self::copied(channels.get(segment_obj.object_id)) {
                Some(existing_data_index) => {
                    let mut updated = existing_data_index;
                    match updated.update_with_segment_index(segment_raw_data_index, repetitions) {
                        Ok(_) => {},
                        Err(e) => {
                            proof {
                                assert(update_first(old(channels)@, objects, reps, k + 1) is None);
                                lemma_update_stays_failed(
                                    old(channels)@,
                                    objects,
                                    reps,
                                    k + 1,
                                    objects.len() as int,
                                );
                            }
                            return Err(e);
                        },
                    }
                    updated
                },
                None => match ChannelDataIndex::from_segment_index(
                    segment_raw_data_index,
                    repetitions,
                ) {
                    Ok(new_data_index) => new_data_index,
                    Err(e) => {
                        proof {
                            assert(update_first(old(channels)@, objects, reps, k + 1) is None);
                            lemma_update_stays_failed(
                                old(channels)@,
                                objects,
                                reps,
                                k + 1,
                                objects.len() as int,
                            );
                        }
                        return Err(e);
                    },
                },
            };
            channels.set(segment_obj.object_id, existing);
        }
        k += 1;
    }
    Ok(())
}

/// A copy of what a reference in an option points to.
pub(crate) fn copied(index: Option<&ChannelDataIndex>) -> (r: Option<ChannelDataIndex>)
    ensures
        r == (match index {
            Some(value) => Some(*value),
            None => None,
        }),
{
    match index {
        Some(value) => Some(*value),
        None => None,
    }
}

/// The values of the first segments do not depend on what comes behind them.
pub proof fn lemma_total_values_prefix(
    segments: Seq<SegmentModel>,
    segment: SegmentModel,
    channel: nat,
    n: int,
)
    requires
        0 <= n <= segments.len(),
    ensures
        total_values(segments.push(segment), channel, n) == total_values(segments, channel, n),
    decreases n,
{
    if n > 0 {
        lemma_total_values_prefix(segments, segment, channel, n - 1);
    }
}

/// A cumulative index that is that of the segments, with the objects of one
/// more segment added, is that of the segments with that segment.
pub proof fn lemma_push_segment(
    channels: Map<nat, ChannelDataIndex>,
    segments: Seq<SegmentModel>,
    segment: SegmentModel,
)
    requires
        channels_match(channels, segments),
        spec_update_channels(channels, segment.objects, segment.repetitions) is Some,
    ensures
        channels_match(
            spec_update_channels(channels, segment.objects, segment.repetitions)->0,
            segments.push(segment),
        ),
{
    let updated = spec_update_channels(channels, segment.objects, segment.repetitions)->0;
    let pushed = segments.push(segment);
    lemma_update_counts(channels, segment.objects, segment.repetitions, segment.objects.len() as int);
    assert forall|channel: nat| #[trigger]
        channel_count(updated, channel) == total_values(pushed, channel, pushed.len() as int) by {
        lemma_total_values_prefix(segments, segment, channel, segments.len() as int);
        assert(channel_count(channels, channel) == total_values(
            segments,
            channel,
            segments.len() as int,
        ));
    }
    assert forall|s: int| 0 <= s < pushed.len() implies types_agree(
        updated,
        (#[trigger] pushed[s]).objects,
        pushed[s].objects.len() as int,
    ) by {
        if s < segments.len() {
            assert(types_agree(channels, segments[s].objects, segments[s].objects.len() as int));
            assert forall|j: int|
                0 <= j < pushed[s].objects.len() implies ((#[trigger] pushed[s].objects[j]).index matches Some(
                index,
            ) ==> updated.contains_key(pushed[s].objects[j].object_id)
                && updated[pushed[s].objects[j].object_id].data_type == index.data_type) by {
                if pushed[s].objects[j].index is Some {
                    assert(channels.contains_key(segments[s].objects[j].object_id));
                }
            }
        }
    }
}

/// A file in which a channel has one element type in one segment and another
/// in a later segment cannot be opened: where adding the objects of a segment
/// to the cumulative index meets a channel with another element type, it
/// fails.
pub proof fn lemma_type_conflict_fails(
    channels: Map<nat, ChannelDataIndex>,
    objects: Seq<ObjectEntry>,
    repetitions: nat,
    k: int,
)
    requires
        0 <= k < objects.len(),
        update_first(channels, objects, repetitions, k) is Some,
        objects[k].index is Some,
        update_first(channels, objects, repetitions, k)->0.contains_key(objects[k].object_id),
        update_first(channels, objects, repetitions, k)->0[objects[k].object_id].data_type
            != objects[k].index->0.data_type,
    ensures
        spec_update_channels(channels, objects, repetitions) is None,
{
    assert(update_first(channels, objects, repetitions, k + 1) is None);
    lemma_update_stays_failed(channels, objects, repetitions, k + 1, objects.len() as int);
}

} // verus!
