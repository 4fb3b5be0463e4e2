//! The metadata engine: scans the segments of a file once and builds the
//! directory of objects, their properties and the layout of their data.

use byteorder::{BigEndian, LittleEndian};
use crate::arena::{arena_get, arena_map, arena_new, no_indexes};
use crate::byte_reader::{ByteReader, ByteSource};
use crate::channel_index::{
    channel_count, ChannelDataIndex, ChannelDataIndexMap, channels_match, lemma_push_segment,
    spec_update_channels, total_values, update_data_indexes,
};
use crate::channel_read::{
    channel_error, channel_written, lemma_channel_error_stays, lemma_source_needs_listing,
    lemma_total_read_grows, lemma_written_stays, total_read,
};
use crate::error::{ErrorKind, Result, TdmsReadError};
use crate::layout::{
    bytes_before, chunk_count, chunk_width, has_data_for, lemma_bytes_before_sum,
    lemma_nothing_written, lemma_read_fits, lists_channel, ObjectEntry, segment_written,
    SegmentModel,
};
use crate::merge::{lemma_merge_entries, lemma_merge_members, ObjectMerger, spec_merge};
use crate::object_metadata::{
    cache_model, DirectoryModel, extends, indexes_wf, lemma_entries_stable, lemma_id_of,
    lists_model, read_objects, spec_id_of, spec_read_object_metadata, spec_read_objects,
};
use crate::object_path::{ObjectPath, ObjectPathCache, ObjectPathId, PathView, spec_parse};
use crate::primitives::{ByteOrderExt, NativeType, read_value, spec_read_value};
use crate::properties::{property_views, PropertyView, TdmsProperty};
use crate::scan::{
    empty_reader, is_big_endian, ReaderModel, segment_tag, spec_read_lead_in, spec_read_segment,
    spec_scan, spec_segment_objects,
};
use crate::segment::{
    all_known, entries, Keyed, RawDataIndex, RawDataIndexCache, RawDataIndexId, SegmentObject,
    TdmsSegment,
};
use crate::toc::{TocFlag, TocMask};
use id_arena::Arena;
use vstd::prelude::*;

verus! {

/// Whether the ids of all objects of the list are below `bound`.
pub open spec fn ids_below(objects: Seq<SegmentObject>, bound: nat) -> bool {
    forall|k: int| 0 <= k < objects.len() ==> (#[trigger] objects[k]).key() < bound
}

#[derive(Debug)]
pub struct TdmsReader {
    properties: Vec<Vec<TdmsProperty>>,
    object_paths: ObjectPathCache,
    data_indexes: Arena<RawDataIndex>,
    raw_data_index_cache: RawDataIndexCache,
    segments: Vec<TdmsSegment>,
    channel_data_index_map: ChannelDataIndexMap,
}

impl TdmsReader {
    /// The texts of the object paths, by id.
    pub closed spec fn spec_texts(&self) -> Seq<Seq<char>> {
        self.object_paths.spec_texts()
    }

    /// The object paths, by id.
    pub closed spec fn spec_paths(&self) -> Seq<PathView> {
        self.object_paths.spec_paths()
    }

    /// The properties of each object, by id.
    pub closed spec fn spec_properties(&self) -> Seq<Seq<PropertyView>> {
        lists_model(self.properties@)
    }

    /// All raw data indexes that were read, by their id in the arena.
    pub closed spec fn spec_indexes(&self) -> Map<RawDataIndexId, RawDataIndex> {
        arena_map(self.data_indexes)
    }

    /// The raw data index that each object had last.
    pub closed spec fn spec_cache(&self) -> Map<nat, RawDataIndex> {
        cache_model(self.raw_data_index_cache@, self.spec_indexes())
    }

    /// The directory: texts, properties and last indexes.
    pub open spec fn spec_directory(&self) -> DirectoryModel {
        DirectoryModel {
            texts: self.spec_texts(),
            properties: self.spec_properties(),
            cache: self.spec_cache(),
        }
    }

    /// The segments that were read.
    pub closed spec fn spec_segments(&self) -> Seq<SegmentModel> {
        Seq::new(self.segments@.len(), |i: int| self.segments@[i].model(self.spec_indexes()))
    }

    /// The cumulative data index of each channel that ever had data.
    pub closed spec fn spec_channels(&self) -> Map<nat, ChannelDataIndex> {
        self.channel_data_index_map@
    }

    /// What holds of the directory between any two steps of reading: the
    /// registry is well formed, every object has a list of properties, every
    /// raw data index in use is in the arena, and every index in the arena is
    /// well formed.
    pub closed spec fn directory_wf(&self) -> bool {
        &&& self.object_paths.wf()
        &&& self.properties@.len() == self.object_paths.spec_len()
        &&& indexes_wf(self.raw_data_index_cache@, self.spec_indexes())
        &&& forall|s: int|
            0 <= s < self.segments@.len() ==> all_known(
                (#[trigger] self.segments@[s]).objects@,
                self.spec_indexes(),
            )
        &&& forall|s: int|
            0 <= s < self.segments@.len() ==> ids_below(
                (#[trigger] self.segments@[s]).objects@,
                self.object_paths.spec_len(),
            )
    }

    /// All that the reader holds, as mathematical values.
    pub open spec fn model(&self) -> ReaderModel {
        ReaderModel {
            directory: self.spec_directory(),
            segments: self.spec_segments(),
            channels: self.spec_channels(),
        }
    }

    /// The invariant of the reader: the directory is well formed, every
    /// segment has the chunk width and the repetitions that follow from its
    /// objects and positions, and the cumulative index of every channel is
    /// the sum over the segments.
    pub closed spec fn wf(&self) -> bool {
        &&& self.directory_wf()
        &&& forall|s: int|
            0 <= s < self.segments@.len() ==> (#[trigger] self.segments@[s]).wf(
                self.spec_indexes(),
            )
        &&& channels_match(self.spec_channels(), self.spec_segments())
    }

    fn new() -> (r: TdmsReader)
        ensures
            r.directory_wf(),
            r.wf(),
            r.model() == empty_reader(),
            r.spec_texts() == Seq::<Seq<char>>::empty(),
            r.spec_properties() == Seq::<Seq<PropertyView>>::empty(),
            r.spec_segments() == Seq::<SegmentModel>::empty(),
            r.spec_channels() == Map::<nat, ChannelDataIndex>::empty(),
            r.spec_cache() == Map::<nat, RawDataIndex>::empty(),
    {
        let r = TdmsReader {
            properties: Vec::new(),
            object_paths: ObjectPathCache::new(),
            data_indexes: arena_new(),
            raw_data_index_cache: RawDataIndexCache::new(),
            segments: Vec::new(),
            channel_data_index_map: ChannelDataIndexMap::new(),
        };
        proof {
            assert(r.spec_properties() =~= Seq::<Seq<PropertyView>>::empty());
            assert(r.spec_segments() =~= Seq::<SegmentModel>::empty());
            assert(r.spec_cache() =~= Map::<nat, RawDataIndex>::empty());
            assert(arena_map(r.data_indexes) == no_indexes());
        }
        r
    }
}

impl TdmsReader {
    /// Reads the metadata of a segment: the records of its objects. Paths
    /// are interned, raw data indexes stored and remembered as the last of
    /// their object, and properties added to those of their object.
    fn read_object_metadata<S: ByteSource, O: ByteOrderExt>(&mut self, source: &mut S) -> (r:
        Result<Vec<SegmentObject>>)
        requires
            old(source).wf(),
            old(self).directory_wf(),
        ensures
            final(source).wf(),
            final(self).directory_wf(),
            final(self).segments == old(self).segments,
            final(self).channel_data_index_map == old(self).channel_data_index_map,
            extends(old(self).spec_indexes(), final(self).spec_indexes()),
            old(self).spec_texts().len() <= final(self).spec_texts().len(),
            match spec_read_object_metadata(
                old(self).spec_directory(),
                old(source).remaining(),
                O::spec_big_endian(),
            ) {
                Ok((directory, objects, taken)) => {
                    &&& r is Ok
                    &&& all_known(r->Ok_0@, final(self).spec_indexes())
                    &&& entries(r->Ok_0@, final(self).spec_indexes()) == objects
                    &&& ids_below(r->Ok_0@, final(self).spec_texts().len())
                    &&& final(self).spec_directory() == directory
                    &&& taken <= old(source).remaining().len()
                    &&& final(source).remaining() == old(source).remaining().skip(taken as int)
                },
                Err(kind) => r is Err && r->Err_0.spec_kind() == kind,
            },
    {
        let ghost input = source.remaining();
        let ghost old_indexes = self.spec_indexes();
        let num_objects = match read_value::<u32, S, O>(source) {
            Ok(num_objects) => num_objects,
            Err(e) => {
                return Err(e);
            },
        };
        let r = read_objects::<S, O>(
            source,
            &mut self.object_paths,
            &mut self.properties,
            &mut self.data_indexes,
            &mut self.raw_data_index_cache,
            num_objects,
        );
        proof {
            assert forall|s: int| 0 <= s < self.segments@.len() implies all_known(
                (#[trigger] self.segments@[s]).objects@,
                self.spec_indexes(),
            ) by {
                lemma_entries_stable(self.segments@[s].objects@, old_indexes, self.spec_indexes());
            }
            if r is Ok {
                let taken = spec_read_objects(
                    old(self).spec_directory(),
                    input.skip(4),
                    O::spec_big_endian(),
                    num_objects as nat,
                )->Ok_0.2;
                assert(input.skip(4).skip(taken as int) =~= input.skip((4 + taken) as int));
            }
        }
        r
    }
}

/// The width in bytes of one chunk of a segment with these objects, if it
/// fits 64 bits.
fn compute_chunk_width(segment_objects: &Vec<SegmentObject>, data_indexes: &Arena<RawDataIndex>)
    -> (r: Option<u64>)
    requires
        all_known(segment_objects@, arena_map(*data_indexes)),
    ensures
        r == (if chunk_width(entries(segment_objects@, arena_map(*data_indexes))) <= u64::MAX {
            Some(chunk_width(entries(segment_objects@, arena_map(*data_indexes))) as u64)
        } else {
            None
        }),
{
    let ghost objects = entries(segment_objects@, arena_map(*data_indexes));
    let mut width: u64 = 0;
    let mut k: usize = 0;
    while k < segment_objects.len()
        invariant
            k <= segment_objects@.len(),
            all_known(segment_objects@, arena_map(*data_indexes)),
            objects == entries(segment_objects@, arena_map(*data_indexes)),
            width == bytes_before(objects, k as int),
        decreases segment_objects@.len() - k,
    {
        let segment_obj = segment_objects[k];
        assert(segment_obj.known(arena_map(*data_indexes)));
        assert(objects[k as int] == segment_obj.entry(arena_map(*data_indexes)));
        if let Some(id) = segment_obj.raw_data_index {
            let raw_data_index = arena_get(data_indexes, id).unwrap();
            match width.checked_add(raw_data_index.data_size) {
                Some(sum) => {
                    width = sum;
                },
                None => {
                    proof {
                        lemma_bytes_before_sum(objects, k + 1, objects.len() as int);
                    }
                    return None;
                },
            }
        }
        k += 1;
    }
    Some(width)
}

/// The number of whole chunks of `width` bytes between the raw data and the
/// next segment.
fn compute_repetitions(data_position: u64, next_segment_position: u64, width: u64) -> (r: u64)
    ensures
        r == chunk_count(data_position as nat, next_segment_position as nat, width as nat),
{
    if width == 0 || next_segment_position < data_position {
        0
    } else {
        (next_segment_position - data_position) / width
    }
}

/// A copy of a list of segment objects.
fn copy_objects(objects: &Vec<SegmentObject>) -> (r: Vec<SegmentObject>)
    ensures
        r@ == objects@,
{
    let mut copy: Vec<SegmentObject> = Vec::with_capacity(objects.len());
    let mut k: usize = 0;
    while k < objects.len()
        invariant
            k <= objects@.len(),
            copy@ == objects@.take(k as int),
        decreases objects@.len() - k,
    {
        copy.push(objects[k]);
        assert(copy@ =~= objects@.take(k + 1));
        k += 1;
    }
    assert(copy@ =~= objects@);
    copy
}

/// What is true of both lists is true of the merged list.
proof fn lemma_merge_keeps(
    previous: Seq<SegmentObject>,
    declared: Seq<SegmentObject>,
    indexes: Map<RawDataIndexId, RawDataIndex>,
    bound: nat,
)
    requires
        all_known(previous, indexes),
        all_known(declared, indexes),
        ids_below(previous, bound),
        ids_below(declared, bound),
    ensures
        all_known(spec_merge(previous, declared), indexes),
        ids_below(spec_merge(previous, declared), bound),
{
    lemma_merge_members(previous, declared, declared.len() as int);
    let merged = spec_merge(previous, declared);
    assert forall|k: int| 0 <= k < merged.len() implies (#[trigger] merged[k]).known(indexes)
        && merged[k].key() < bound by {
        if previous.contains(merged[k]) {
            let j = choose|j: int| 0 <= j < previous.len() && previous[j] == merged[k];
            assert(previous[j].known(indexes));
        } else {
            let j = choose|j: int| 0 <= j < declared.len() && declared[j] == merged[k];
            assert(declared[j].known(indexes));
        }
    }
}

impl TdmsReader {
    /// The object list of a segment with the mask `toc_mask`, whose metadata,
    /// if it has any, is read from `source`.
    fn segment_objects<S: ByteSource, O: ByteOrderExt>(
        &mut self,
        source: &mut S,
        toc_mask: TocMask,
        object_merger: &mut ObjectMerger,
    ) -> (r: Result<Vec<SegmentObject>>)
        requires
            old(source).wf(),
            old(self).directory_wf(),
            O::spec_big_endian() == is_big_endian(toc_mask@),
        ensures
            final(self).directory_wf(),
            final(self).segments == old(self).segments,
            final(self).channel_data_index_map == old(self).channel_data_index_map,
            extends(old(self).spec_indexes(), final(self).spec_indexes()),
            match spec_segment_objects(
                old(self).spec_directory(),
                old(self).spec_segments(),
                toc_mask@,
                old(source).remaining(),
            ) {
                Ok((directory, objects)) => {
                    &&& r is Ok
                    &&& all_known(r->Ok_0@, final(self).spec_indexes())
                    &&& ids_below(r->Ok_0@, final(self).spec_texts().len())
                    &&& entries(r->Ok_0@, final(self).spec_indexes()) == objects
                    &&& final(self).spec_directory() == directory
                },
                Err(kind) => r is Err && r->Err_0.spec_kind() == kind,
            },
    {
        reveal(spec_segment_objects);
        let ghost old_indexes = self.spec_indexes();
        if toc_mask.has_flag(TocFlag::MetaData) {
            let this_segment_objects = match self.read_object_metadata::<S, O>(source) {
                Ok(objects) => objects,
                Err(e) => {
                    return Err(e);
                },
            };
            if toc_mask.has_flag(TocFlag::NewObjList) || self.segments.len() == 0 {
                Ok(this_segment_objects)
            } else {
                // Not a new object list so merge with previous segment objects
                let last = self.segments.len() - 1;
                let prev_objs = &self.segments[last].objects;
                let count = self.object_paths.len();
                proof {
                    assert(ids_below(self.segments@[last as int].objects@, count as nat));
                    assert(all_known(self.segments@[last as int].objects@, self.spec_indexes()));
                    assert(all_known(self.segments@[last as int].objects@, old_indexes));
                    lemma_entries_stable(prev_objs@, old_indexes, self.spec_indexes());
                    lemma_merge_keeps(
                        prev_objs@,
                        this_segment_objects@,
                        self.spec_indexes(),
                        count as nat,
                    );
                    lemma_merge_entries(
                        prev_objs@,
                        this_segment_objects@,
                        self.spec_indexes(),
                        this_segment_objects@.len() as int,
                    );
                    assert(old(self).spec_segments().last().objects == entries(
                        prev_objs@,
                        old_indexes,
                    ));
                }
                Ok(object_merger.merge_objects(Some(prev_objs), this_segment_objects))
            }
        } else {
            // No meta data in this segment, re-use metadata from the previous segment
            if self.segments.len() == 0 {
                let none: Vec<SegmentObject> = Vec::new();
                assert(entries(none@, self.spec_indexes()) =~= Seq::<ObjectEntry>::empty());
                Ok(none)
            } else {
                let last = self.segments.len() - 1;
                proof {
                    assert(ids_below(
                        self.segments@[last as int].objects@,
                        self.object_paths.spec_len(),
                    ));
                    assert(all_known(self.segments@[last as int].objects@, self.spec_indexes()));
                }
                Ok(copy_objects(&self.segments[last].objects))
            }
        }
    }
}

/// Lays out the raw data of a segment with the objects `objects` and adds
/// its values to the cumulative index.
fn finish_segment(
    channels: &mut ChannelDataIndexMap,
    data_indexes: &Arena<RawDataIndex>,
    toc_mask: TocMask,
    data_position: u64,
    next_segment_position: u64,
    objects: Vec<SegmentObject>,
) -> (r: Result<TdmsSegment>)
    requires
        all_known(objects@, arena_map(*data_indexes)),
        forall|k: int| 0 <= k < objects@.len() ==> (#[trigger] objects@[k]).key() < usize::MAX,
    ensures
        ({
            let listed = entries(objects@, arena_map(*data_indexes));
            let width = chunk_width(listed);
            let repetitions = chunk_count(
                data_position as nat,
                next_segment_position as nat,
                width,
            );
            if width > u64::MAX {
                r is Err && r->Err_0.spec_kind() == ErrorKind::Format
            } else {
                match spec_update_channels(old(channels)@, listed, repetitions) {
                    None => r is Err && r->Err_0.spec_kind() == ErrorKind::Format,
                    Some(updated) => {
                        &&& r is Ok
                        &&& final(channels)@ == updated
                        &&& r->Ok_0.toc_mask == toc_mask
                        &&& r->Ok_0.data_position == data_position
                        &&& r->Ok_0.next_segment_position == next_segment_position
                        &&& r->Ok_0.objects == objects
                        &&& r->Ok_0.data_size == width
                        &&& r->Ok_0.repetitions == repetitions
                        &&& r->Ok_0.wf(arena_map(*data_indexes))
                    },
                }
            }
        }),
{
    let data_size = match compute_chunk_width(&objects, data_indexes) {
        Some(data_size) => data_size,
        None => {
            return Err(TdmsReadError::format("Chunk width does not fit 64 bits"));
        },
    };
    let repetitions = compute_repetitions(data_position, next_segment_position, data_size);
    match update_data_indexes(channels, data_indexes, &objects, repetitions) {
        Ok(_) => {},
        Err(e) => {
            return Err(e);
        },
    }
    Ok(
        TdmsSegment::new(
            toc_mask,
            data_position,
            next_segment_position,
            objects,
            data_size,
            repetitions,
        ),
    )
}

impl TdmsReader {
    /// Reads what follows the mask of a segment at `position`: the rest of
    /// the lead-in and the metadata. Gives the segment, which is not yet in
    /// the list of segments.
    fn read_segment_metadata<S: ByteSource, O: ByteOrderExt>(
        &mut self,
        source: &mut S,
        toc_mask: TocMask,
        position: u64,
        object_merger: &mut ObjectMerger,
        Ghost(input): Ghost<Seq<u8>>,
    ) -> (r: Result<Option<TdmsSegment>>)
        requires
            old(source).wf(),
            old(self).wf(),
            O::spec_big_endian() == is_big_endian(toc_mask@),
            input.len() >= 8,
            input.take(4) == segment_tag(),
            spec_read_value::<u32>(input.skip(4), false) == Ok::<(u32, nat), ErrorKind>(
                (toc_mask@, 4),
            ),
            old(source).remaining() == input.skip(8),
        ensures
            Self::read_segment_post(*old(self), *final(self), r, input, position as nat),
    {
        reveal(spec_read_lead_in);
        reveal(spec_read_segment);
        let ghost old_indexes = self.spec_indexes();
        let _version = match read_value::<i32, S, O>(source) {
            Ok(version) => version,
            Err(e) => {
                return Err(e);
            },
        };
        assert(source.remaining() =~= input.skip(12));
        let next_segment_offset = match read_value::<u64, S, O>(source) {
            Ok(offset) => offset,
            Err(e) => {
                return Err(e);
            },
        };
        assert(source.remaining() =~= input.skip(20));
        let raw_data_offset = match read_value::<u64, S, O>(source) {
            Ok(offset) => offset,
            Err(e) => {
                return Err(e);
            },
        };
        assert(source.remaining() =~= input.skip(28));

        let lead_in_length: u64 = 28;
        let segment_start = match position.checked_add(lead_in_length) {
            Some(start) => start,
            None => {
                return Err(
                    TdmsReadError::format_with_number(
                        "Segment position does not fit 64 bits at position ",
                        position,
                    ),
                );
            },
        };
        let next_segment_position = match segment_start.checked_add(next_segment_offset) {
            Some(next) => next,
            None => {
                return Err(
                    TdmsReadError::format_with_number(
                        "Next segment position does not fit 64 bits at position ",
                        position,
                    ),
                );
            },
        };
        let raw_data_position = match segment_start.checked_add(raw_data_offset) {
            Some(raw) => raw,
            None => {
                return Err(
                    TdmsReadError::format_with_number(
                        "Raw data position does not fit 64 bits at position ",
                        position,
                    ),
                );
            },
        };

        let segment_objects = match self.segment_objects::<S, O>(source, toc_mask, object_merger) {
            Ok(objects) => objects,
            Err(e) => {
                return Err(e);
            },
        };
        let count = self.object_paths.len();
        proof {
            assert(old(self).spec_segments() =~= self.spec_segments()) by {
                assert forall|s: int| 0 <= s < self.segments@.len() implies self.segments@[s].model(
                    self.spec_indexes(),
                ) == self.segments@[s].model(old_indexes) by {
                    assert(all_known(old(self).segments@[s].objects@, old_indexes));
                    lemma_entries_stable(self.segments@[s].objects@, old_indexes, self.spec_indexes());
                }
            }
        }
        let segment = match finish_segment(
            &mut self.channel_data_index_map,
            &self.data_indexes,
            toc_mask,
            raw_data_position,
            next_segment_position,
            segment_objects,
        ) {
            Ok(segment) => segment,
            Err(e) => {
                return Err(e);
            },
        };
        proof {
            let indexes = self.spec_indexes();
            let model = spec_read_segment(old(self).model(), input, position as nat)->Ok_0->0;
            assert(self.directory_wf());
            assert forall|s: int| 0 <= s < self.segments@.len() implies (#[trigger] self.segments@[s]).wf(
                indexes,
            ) by {
                assert(old(self).segments@[s].wf(old_indexes));
                lemma_entries_stable(self.segments@[s].objects@, old_indexes, indexes);
            }
            assert(model.directory == self.spec_directory());
            assert(model.channels == self.spec_channels());
            assert(model.segments =~= self.spec_segments().push(segment.model(indexes)));
            lemma_push_segment(
                old(self).spec_channels(),
                old(self).spec_segments(),
                segment.model(indexes),
            );
            assert(channels_match(model.channels, model.segments));
        }
        Ok(Some(segment))
    }

    /// What reading a segment leaves behind: see `spec_read_segment`. The
    /// segment that was read is not yet in the list of segments; with it
    /// there, the reader is well formed again.
    pub closed spec fn read_segment_post(
        before: TdmsReader,
        after: TdmsReader,
        r: Result<Option<TdmsSegment>>,
        input: Seq<u8>,
        position: nat,
    ) -> bool {
        match spec_read_segment(before.model(), input, position) {
            Ok(Some(model)) => {
                &&& r is Ok
                &&& r->Ok_0 is Some
                &&& after.directory_wf()
                &&& after.segments == before.segments
                &&& forall|s: int|
                    0 <= s < after.segments@.len() ==> (#[trigger] after.segments@[s]).wf(
                        after.spec_indexes(),
                    )
                &&& r->Ok_0->0.wf(after.spec_indexes())
                &&& all_known(r->Ok_0->0.objects@, after.spec_indexes())
                &&& ids_below(r->Ok_0->0.objects@, after.spec_texts().len())
                &&& model.directory == after.spec_directory()
                &&& model.channels == after.spec_channels()
                &&& model.segments == after.spec_segments().push(
                    r->Ok_0->0.model(after.spec_indexes()),
                )
                &&& channels_match(model.channels, model.segments)
                &&& position + 28 <= r->Ok_0->0.next_segment_position
            },
            Ok(None) => r is Ok && r->Ok_0 is None && after.wf() && after.model() == before.model(),
            Err(kind) => r is Err && r->Err_0.spec_kind() == kind,
        }
    }
}

impl TdmsReader {
    /// Reads the segment of the file `bytes` at `position`, if there is one.
    /// Gives the segment, which is not yet in the list of segments.
    fn read_segment(
        &mut self,
        bytes: &[u8],
        position: u64,
        object_merger: &mut ObjectMerger,
    ) -> (r: Result<Option<TdmsSegment>>)
        requires
            old(self).wf(),
        ensures
            Self::read_segment_post(
                *old(self),
                *final(self),
                r,
                ByteReader::bytes_from(bytes@, position as nat),
                position as nat,
            ),
    {
        let ghost input = ByteReader::bytes_from(bytes@, position as nat);
        let mut reader = ByteReader::new(bytes);
        reader.seek(position);
        let mut header_bytes = vec![0u8; 4];
        let bytes_read = reader.read(header_bytes.as_mut_slice());
        if bytes_read == 0 {
            proof {
                reveal(spec_read_segment);
            }
            return Ok(None);
        }
        proof {
            reveal(spec_read_segment);
            reveal(spec_read_lead_in);
        }
        if bytes_read < 4 {
            return Err(
                TdmsReadError::format_with_number(
                    "Incomplete segment header at position ",
                    position,
                ),
            );
        }
        // Check segment header
        if header_bytes[0] != 0x54 || header_bytes[1] != 0x44 || header_bytes[2] != 0x53
            || header_bytes[3] != 0x6d {
            proof {
                assert(input.take(4)[0] == header_bytes@[0]);
                assert(input.take(4)[1] == header_bytes@[1]);
                assert(input.take(4)[2] == header_bytes@[2]);
                assert(input.take(4)[3] == header_bytes@[3]);
            }
            return Err(
                TdmsReadError::format_with_number("Invalid segment header at position ", position),
            );
        }
        assert(input.take(4) =~= segment_tag());
        assert(reader.remaining() =~= input.skip(4));
        let toc_mask = match read_value::<u32, ByteReader, LittleEndian>(&mut reader) {
            Ok(flags) => TocMask::from_flags(flags),
            Err(e) => {
                return Err(e);
            },
        };
        assert(reader.remaining() =~= input.skip(8));
        if toc_mask.has_flag(TocFlag::BigEndian) {
            self.read_segment_metadata::<ByteReader, BigEndian>(
                &mut reader,
                toc_mask,
                position,
                object_merger,
                Ghost(input),
            )
        } else {
            self.read_segment_metadata::<ByteReader, LittleEndian>(
                &mut reader,
                toc_mask,
                position,
                object_merger,
                Ghost(input),
            )
        }
    }

    /// Reads all segments of the file that `reader` reads, from the position
    /// of `reader` on.
    fn read_segments(&mut self, reader: &mut ByteReader) -> (r: Result<()>)
        requires
            old(self).wf(),
        ensures
            final(reader).bytes == old(reader).bytes,
            match spec_scan(old(self).model(), old(reader).bytes@, old(reader).position as nat) {
                Ok(model) => r is Ok && final(self).wf() && final(self).model() == model,
                Err(kind) => r is Err && r->Err_0.spec_kind() == kind,
            },
    {
        let mut object_merger = ObjectMerger::new();
        let ghost bytes = reader.bytes@;
        let ghost first = self.model();
        let ghost start = reader.position as nat;
        loop
            invariant
                self.wf(),
                reader.bytes == old(reader).bytes,
                bytes == reader.bytes@,
                first == old(self).model(),
                start == old(reader).position,
                spec_scan(first, bytes, start) == spec_scan(
                    self.model(),
                    bytes,
                    reader.position as nat,
                ),
            ensures
                spec_scan(first, bytes, start) == Ok::<ReaderModel, ErrorKind>(self.model()),
            decreases
                    (if reader.position < bytes.len() {
                        bytes.len() - reader.position
                    } else {
                        0
                    }),
        {
            let position = reader.position();
            let ghost before = *self;
            match self.read_segment(reader.bytes, position, &mut object_merger) {
                Err(e) => {
                    return Err(e);
                },
                Ok(None) => {
                    // Reached end of file
                    proof {
                        reveal(spec_read_segment);
                        assert(self.model() == before.model());
                    }
                    break ;
                },
                Ok(Some(segment)) => {
                    // Seek to the start of the next segment
                    reader.seek(segment.next_segment_position);
                    let ghost listed = segment.model(self.spec_indexes());
                    let ghost segments_before = self.spec_segments();
                    self.segments.push(segment);
                    proof {
                        reveal(spec_read_segment);
                        assert(self.spec_segments() =~= segments_before.push(listed));
                        let next = spec_read_segment(
                            before.model(),
                            ByteReader::bytes_from(bytes, position as nat),
                            position as nat,
                        )->Ok_0->0;
                        assert(self.model() == next);
                        assert(self.wf());
                    }
                },
            }
        }
        proof {
            reveal(spec_read_segment);
        }
        Ok(())
    }
}

/// Reads the metadata of the file that `reader` reads, from the position of
/// `reader` on: all its segments, one after the other. Fails with the first
/// error that reading a segment gives.
pub fn read_metadata(reader: &mut ByteReader) -> (r: Result<TdmsReader>)
    ensures
        final(reader).bytes == old(reader).bytes,
        match spec_scan(empty_reader(), old(reader).bytes@, old(reader).position as nat) {
            Ok(model) => r is Ok && r->Ok_0.wf() && r->Ok_0.model() == model,
            Err(kind) => r is Err && r->Err_0.spec_kind() == kind,
        },
{
    let mut tdms_reader = TdmsReader::new();
    match tdms_reader.read_segments(reader) {
        Ok(_) => Ok(tdms_reader),
        Err(e) => Err(e),
    }
}

impl TdmsReader {
    /// The id of the object with the path text `path`, if the file has it.
    pub fn get_object_id(&self, path: &str) -> (r: Option<ObjectPathId>)
        requires
            self.wf(),
        ensures
            match r {
                Some(id) => {
                    &&& id.0 < self.spec_texts().len()
                    &&& self.spec_texts()[id.0 as int] == path@
                    &&& self.spec_paths().len() == self.spec_texts().len()
                    &&& spec_parse(path@) == Some(self.spec_paths()[id.0 as int])
                },
                None => !self.spec_texts().contains(path@),
            },
    {
        self.object_paths.get_id(path)
    }

    /// The path of the object with the id `object_path_id`, if there is one.
    pub fn get_object_path(&self, object_path_id: ObjectPathId) -> (r: Option<&ObjectPath>)
        requires
            self.wf(),
        ensures
            match r {
                Some(path) => object_path_id.0 < self.spec_paths().len() && path@
                    == self.spec_paths()[object_path_id.0 as int],
                None => object_path_id.0 >= self.spec_paths().len(),
            },
            self.spec_paths().len() == self.spec_texts().len(),
    {
        self.object_paths.get_path(object_path_id)
    }

    /// All objects of the file in the order of their ids, each with its path.
    pub fn objects(&self) -> (r: Vec<(ObjectPathId, &ObjectPath)>)
        requires
            self.wf(),
        ensures
            r@.len() == self.spec_paths().len(),
            self.spec_paths().len() == self.spec_texts().len(),
            forall|i: int|
                0 <= i < r@.len() ==> (#[trigger] r@[i]).0 == ObjectPathId(i as usize) && r@[i].1@
                    == self.spec_paths()[i],
    {
        self.object_paths.objects()
    }

    /// The cumulative data index of a channel, if the channel ever had data.
    pub fn get_channel_data_index(&self, object_id: ObjectPathId) -> (r: Option<&ChannelDataIndex>)
        requires
            self.wf(),
        ensures
            r == (if self.spec_channels().contains_key(object_id.0 as nat) {
                Some(&self.spec_channels()[object_id.0 as nat])
            } else {
                None
            }),
            channel_count(self.spec_channels(), object_id.0 as nat) == total_values(
                self.spec_segments(),
                object_id.0 as nat,
                self.spec_segments().len() as int,
            ),
    {
        self.channel_data_index_map.get(object_id)
    }

    /// The properties of the object with the id `object_id`, in the order in
    /// which the file declares them; none for an id that the file does not
    /// have.
    pub fn get_properties(&self, object_id: ObjectPathId) -> (r: &[TdmsProperty])
        requires
            self.wf(),
        ensures
            property_views(r@) == (if object_id.0 < self.spec_properties().len() {
                self.spec_properties()[object_id.0 as int]
            } else {
                Seq::empty()
            }),
    {
        if object_id.0 < self.properties.len() {
            self.properties[object_id.0].as_slice()
        } else {
            let none: &[TdmsProperty] = &[];
            assert(property_views(none@) =~= Seq::<PropertyView>::empty());
            none
        }
    }
}

/// Whether the list has an object with data for the channel.
fn lists_data_for(objects: &Vec<SegmentObject>, channel_id: ObjectPathId) -> (r: bool)
    ensures
        r == exists|k: int|
            0 <= k < objects@.len() && (#[trigger] objects@[k]).object_id.0 == channel_id.0
                && objects@[k].raw_data_index is Some,
{
    let mut k: usize = 0;
    while k < objects.len()
        invariant
            k <= objects@.len(),
            forall|j: int|
                0 <= j < k ==> !((#[trigger] objects@[j]).object_id.0 == channel_id.0
                    && objects@[j].raw_data_index is Some),
        decreases objects@.len() - k,
    {
        if objects[k].object_id.0 == channel_id.0 && objects[k].raw_data_index.is_some() {
            return true;
        }
        k += 1;
    }
    false
}

impl TdmsReader {
    /// Reads all values of the channel `channel_id` into `buffer`, from
    /// index 0 on: the values of each segment that lists the channel with
    /// data, in the order of the segments. The file is the one that `reader`
    /// reads.
    pub fn read_channel_data<T: NativeType>(
        &self,
        reader: &mut ByteReader,
        channel_id: ObjectPathId,
        buffer: &mut [T],
    ) -> (r: Result<()>)
        requires
            self.wf(),
        ensures
            final(reader).bytes == old(reader).bytes,
            final(buffer)@.len() == old(buffer)@.len(),
            match channel_error::<T>(
                old(reader).bytes@,
                self.spec_segments(),
                channel_id.0 as nat,
                old(buffer)@.len() as int,
                self.spec_segments().len() as int,
            ) {
                Some(kind) => r is Err && r->Err_0.spec_kind() == kind,
                None => {
                    &&& r is Ok
                    &&& total_read(
                        self.spec_segments(),
                        channel_id.0 as nat,
                        self.spec_segments().len() as int,
                    ) <= old(buffer)@.len()
                    &&& channel_written::<T>(
                        final(buffer)@,
                        old(reader).bytes@,
                        self.spec_segments(),
                        channel_id.0 as nat,
                        self.spec_segments().len() as int,
                    )
                    &&& forall|j: int|
                        total_read(
                            self.spec_segments(),
                            channel_id.0 as nat,
                            self.spec_segments().len() as int,
                        ) <= j < old(buffer)@.len() ==> final(buffer)@[j] == old(buffer)@[j]
                },
            },
    {
        let ghost bytes = reader.bytes@;
        let ghost segments = self.spec_segments();
        let ghost channel = channel_id.0 as nat;
        let ghost capacity = buffer@.len() as int;
        let length = buffer.len();
        let mut offset: usize = 0;
        let mut s: usize = 0;
        while s < self.segments.len()
            invariant
                s <= self.segments@.len(),
                self.wf(),
                segments == self.spec_segments(),
                segments.len() == self.segments@.len(),
                channel == channel_id.0,
                bytes == reader.bytes@,
                reader.bytes == old(reader).bytes,
                capacity == old(buffer)@.len(),
                buffer@.len() == capacity,
                length == capacity,
                offset == total_read(segments, channel, s as int),
                offset <= length,
                channel_error::<T>(bytes, segments, channel, capacity, s as int) is None,
                channel_written::<T>(buffer@, bytes, segments, channel, s as int),
                forall|j: int| offset <= j < capacity ==> buffer@[j] == old(buffer)@[j],
            decreases self.segments@.len() - s,
        {
            let segment = &self.segments[s];
            let ghost listed = segments[s as int];
            proof {
                assert(listed == segment.model(self.spec_indexes()));
                assert(segment.wf(self.spec_indexes()));
                if lists_channel(listed, channel) {
                    let k = choose|k: int|
                        0 <= k < listed.objects.len() && has_data_for(
                            #[trigger] listed.objects[k],
                            channel,
                        );
                    assert(segment.objects@[k].object_id.0 == channel_id.0);
                }
            }
            if lists_data_for(&segment.objects, channel_id) {
                proof {
                    let k = choose|k: int|
                        0 <= k < segment.objects@.len() && (
                        #[trigger] segment.objects@[k]).object_id.0 == channel_id.0
                            && segment.objects@[k].raw_data_index is Some;
                    assert(has_data_for(listed.objects[k], channel));
                }
                let ghost before = buffer@;
                let written = match segment.read_channel_data(
                    reader,
                    channel_id,
                    buffer,
                    offset,
                    &self.data_indexes,
                ) {
                    Ok(written) => written,
                    Err(e) => {
                        proof {
                            lemma_channel_error_stays::<T>(
                                bytes,
                                segments,
                                channel,
                                capacity,
                                s + 1,
                                segments.len() as int,
                            );
                        }
                        return Err(e);
                    },
                };
                proof {
                    lemma_read_fits::<T>(bytes, listed, channel, capacity - offset);
                    assert forall|earlier: int| 0 <= earlier < s implies segment_written::<T>(
                        buffer@,
                        total_read(segments, channel, earlier) as int,
                        bytes,
                        #[trigger] segments[earlier],
                        channel,
                    ) by {
                        lemma_total_read_grows(segments, channel, earlier + 1, s as int);
                        lemma_written_stays::<T>(
                            before,
                            buffer@,
                            total_read(segments, channel, earlier) as int,
                            bytes,
                            segments[earlier],
                            channel,
                            offset as int,
                        );
                    }
                }
                offset = offset + written;
            } else {
                proof {
                    lemma_source_needs_listing(listed, channel);
                    lemma_nothing_written::<T>(buffer@, offset as int, bytes, listed, channel);
                }
            }
            s += 1;
        }
        Ok(())
    }
}

impl TdmsReader {
    /// In a well-formed reader the id of a text is the one index that holds
    /// it, and every object has a path and a list of properties.
    pub proof fn lemma_id_of_text(&self, text: Seq<char>, id: nat)
        requires
            self.wf(),
            id < self.spec_texts().len(),
            self.spec_texts()[id as int] == text,
        ensures
            spec_id_of(self.spec_texts(), text) == id,
            self.spec_properties().len() == self.spec_texts().len(),
            self.spec_paths().len() == self.spec_texts().len(),
            spec_parse(text) == Some(self.spec_paths()[id as int]),
    {
        lemma_id_of(self.object_paths, text, id);
    }

    /// In a well-formed reader every object has a path and a list of
    /// properties.
    pub proof fn lemma_every_object_has_a_path(&self)
        requires
            self.wf(),
        ensures
            self.spec_paths().len() == self.spec_texts().len(),
            self.spec_properties().len() == self.spec_texts().len(),
    {
    }
}

} // verus!
