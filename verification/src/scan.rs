//! What reading the segments of a file gives, as a function of its bytes.

use crate::byte_reader::ByteReader;
use crate::channel_index::{
    channel_count, ChannelDataIndex, channels_match, lemma_push_segment, spec_update_channels,
    total_values,
};
use crate::error::ErrorKind;
use crate::layout::{chunk_count, chunk_width, ObjectEntry, SegmentModel};
use crate::merge::spec_merge;
use crate::object_metadata::{DirectoryModel, spec_read_object_metadata};
use crate::primitives::spec_read_value;
use crate::toc::{TocFlag, TocMask};
use vstd::prelude::*;

verus! {

/// All that the reader holds, as mathematical values.
pub struct ReaderModel {
    pub directory: DirectoryModel,
    pub segments: Seq<SegmentModel>,
    pub channels: Map<nat, ChannelDataIndex>,
}

/// The lead-in of a segment, as far as the reader uses it.
pub struct LeadIn {
    pub toc: u32,
    pub next_segment_offset: u64,
    pub raw_data_offset: u64,
}

/// The four bytes that every segment starts with: `TDSm`.
pub open spec fn segment_tag() -> Seq<u8> {
    seq![0x54u8, 0x44u8, 0x53u8, 0x6du8]
}

/// Whether the mask says that the segment is in big-endian byte order.
pub open spec fn is_big_endian(toc: u32) -> bool {
    TocMask::spec_has_flag(toc, TocFlag::BigEndian)
}

/// What the 28 bytes of a lead-in at the front of `input` hold: the tag, the
/// mask as a little-endian `u32`, and in the byte order that the mask names
/// the version as an `i32`, the offset of the next segment and the offset of
/// the raw data, both as `u64`. A format error without the tag, an IO error
/// where `input` ends behind the tag and inside the lead-in.
#[verifier::opaque]
pub open spec fn spec_read_lead_in(input: Seq<u8>) -> std::result::Result<LeadIn, ErrorKind> {
    if input.len() < 4 || input.take(4) != segment_tag() {
        Err(ErrorKind::Format)
    } else {
        match spec_read_value::<u32>(input.skip(4), false) {
            Err(kind) => Err(kind),
            Ok((toc, _)) => match spec_read_value::<i32>(input.skip(8), is_big_endian(toc)) {
                Err(kind) => Err(kind),
                Ok(_) => match spec_read_value::<u64>(input.skip(12), is_big_endian(toc)) {
                    Err(kind) => Err(kind),
                    Ok((next_segment_offset, _)) => match spec_read_value::<u64>(
                        input.skip(20),
                        is_big_endian(toc),
                    ) {
                        Err(kind) => Err(kind),
                        Ok((raw_data_offset, _)) => Ok(
                            LeadIn { toc, next_segment_offset, raw_data_offset },
                        ),
                    },
                },
            },
        }
    }
}

/// The object list of a segment with the mask `toc` and the metadata
/// `input`, behind the segments `segments`: without metadata the list of the
/// previous segment, or no object if there is none; with metadata what the
/// metadata declares, merged into the list of the previous segment unless the
/// mask asks for a new list or there is no previous segment.
#[verifier::opaque]
pub open spec fn spec_segment_objects(
    directory: DirectoryModel,
    segments: Seq<SegmentModel>,
    toc: u32,
    input: Seq<u8>,
) -> std::result::Result<(DirectoryModel, Seq<ObjectEntry>), ErrorKind> {
    if !TocMask::spec_has_flag(toc, TocFlag::MetaData) {
        if segments.len() == 0 {
            Ok((directory, Seq::empty()))
        } else {
            Ok((directory, segments.last().objects))
        }
    } else {
        match spec_read_object_metadata(directory, input, is_big_endian(toc)) {
            Err(kind) => Err(kind),
            Ok((next, declared, _)) => {
                if TocMask::spec_has_flag(toc, TocFlag::NewObjList) || segments.len() == 0 {
                    Ok((next, declared))
                } else {
                    Ok((next, spec_merge(segments.last().objects, declared)))
                }
            },
        }
    }
}

/// What reading a segment at `position` gives, where `input` are the bytes of
/// the file from that position on: `None` at or behind the end of the file;
/// else the reader with one more segment.
/// The positions of the raw data and of the next segment are the offsets of
/// the lead-in counted from behind the lead-in, and have to fit 64 bits, as
/// has the width of a chunk.
#[verifier::opaque]
pub open spec fn spec_read_segment(model: ReaderModel, input: Seq<u8>, position: nat)
    -> std::result::Result<Option<ReaderModel>, ErrorKind> {
    if input.len() == 0 {
        Ok(None)
    } else {
        match spec_read_lead_in(input) {
            Err(kind) => Err(kind),
            Ok(lead_in) => {
                let next_segment_position = position + 28 + lead_in.next_segment_offset;
                let data_position = position + 28 + lead_in.raw_data_offset;
                if next_segment_position > u64::MAX || data_position > u64::MAX {
                    Err(ErrorKind::Format)
                } else {
                    match spec_segment_objects(
                        model.directory,
                        model.segments,
                        lead_in.toc,
                        input.skip(28),
                    ) {
                        Err(kind) => Err(kind),
                        Ok((directory, objects)) => {
                            let width = chunk_width(objects);
                            let repetitions = chunk_count(
                                data_position as nat,
                                next_segment_position as nat,
                                width,
                            );
                            if width > u64::MAX {
                                Err(ErrorKind::Format)
                            } else {
                                match spec_update_channels(model.channels, objects, repetitions) {
                                    None => Err(ErrorKind::Format),
                                    Some(channels) => Ok(
                                        Some(
                                            ReaderModel {
                                                directory,
                                                segments: model.segments.push(
                                                    SegmentModel {
                                                        toc: lead_in.toc,
                                                        data_position: data_position as nat,
                                                        next_segment_position: next_segment_position as nat,
                                                        objects,
                                                        data_size: width,
                                                        repetitions,
                                                    },
                                                ),
                                                channels,
                                            },
                                        ),
                                    ),
                                }
                            }
                        },
                    }
                }
            },
        }
    }
}

/// What reading the segments of the file `bytes` from `position` on gives:
/// one segment after the other, each at the position that the one before it
/// names for it, up to the first position at or behind the end of the file.
pub open spec fn spec_scan(model: ReaderModel, bytes: Seq<u8>, position: nat)
    -> std::result::Result<ReaderModel, ErrorKind>
    decreases bytes.len() - position,
{
    match spec_read_segment(model, ByteReader::bytes_from(bytes, position), position) {
        Err(kind) => Err(kind),
        Ok(None) => Ok(model),
        Ok(Some(next)) => {
            let next_position = next.segments.last().next_segment_position;
            if next_position <= position || next_position >= bytes.len() {
                Ok(next)
            } else {
                spec_scan(next, bytes, next_position)
            }
        },
    }
}

/// A reader that has read nothing.
pub open spec fn empty_reader() -> ReaderModel {
    ReaderModel {
        directory: DirectoryModel {
            texts: Seq::empty(),
            properties: Seq::empty(),
            cache: Map::empty(),
        },
        segments: Seq::empty(),
        channels: Map::empty(),
    }
}

/// What opening the file `bytes` gives: all its segments read from the start.
pub open spec fn spec_read_metadata(bytes: Seq<u8>) -> std::result::Result<
    ReaderModel,
    ErrorKind,
> {
    spec_scan(empty_reader(), bytes, 0)
}

/// Reading segments keeps the cumulative index that of the segments.
pub proof fn lemma_scan_counts(model: ReaderModel, bytes: Seq<u8>, position: nat)
    requires
        channels_match(model.channels, model.segments),
        spec_scan(model, bytes, position) is Ok,
    ensures
        channels_match(
            spec_scan(model, bytes, position)->Ok_0.channels,
            spec_scan(model, bytes, position)->Ok_0.segments,
        ),
    decreases bytes.len() - position,
{
    reveal(spec_read_segment);
    let input = ByteReader::bytes_from(bytes, position);
    match spec_read_segment(model, input, position) {
        Ok(Some(next)) => {
            let segment = next.segments.last();
            assert(next.segments =~= model.segments.push(segment));
            lemma_push_segment(model.channels, model.segments, segment);
            let next_position = segment.next_segment_position;
            if !(next_position <= position || next_position >= bytes.len()) {
                lemma_scan_counts(next, bytes, next_position);
            }
        },
        _ => {},
    }
}

/// For every file that can be opened and every channel, the number of values
/// in the cumulative index is the sum over all segments of the number of
/// values in a chunk times the repetitions of the chunk; it is 0 for a
/// channel that never had data.
pub proof fn lemma_length_is_sum(bytes: Seq<u8>, channel: nat)
    requires
        spec_read_metadata(bytes) is Ok,
    ensures
        channel_count(spec_read_metadata(bytes)->Ok_0.channels, channel) == total_values(
            spec_read_metadata(bytes)->Ok_0.segments,
            channel,
            spec_read_metadata(bytes)->Ok_0.segments.len() as int,
        ),
{
    assert(total_values(Seq::<SegmentModel>::empty(), channel, 0) == 0);
    assert(channels_match(empty_reader().channels, empty_reader().segments));
    lemma_scan_counts(empty_reader(), bytes, 0);
}

/// At or behind the end of a file there is no segment: reading stops there
/// without an error.
pub proof fn lemma_scan_ends_at_the_end(model: ReaderModel, bytes: Seq<u8>, position: nat)
    requires
        position >= bytes.len(),
    ensures
        spec_scan(model, bytes, position) == Ok::<ReaderModel, ErrorKind>(model),
{
    reveal(spec_read_segment);
}

/// A file that ends inside the lead-in of a segment cannot be read: with one
/// to three bytes left it is a format error, with more an IO error unless the
/// bytes are not a segment's tag.
pub proof fn lemma_truncated_lead_in_fails(model: ReaderModel, bytes: Seq<u8>, position: nat)
    requires
        position < bytes.len() < position + 28,
    ensures
        spec_scan(model, bytes, position) is Err,
        bytes.len() < position + 4 ==> spec_scan(model, bytes, position) == Err::<
            ReaderModel,
            ErrorKind,
        >(ErrorKind::Format),
{
    reveal(spec_read_segment);
    reveal(spec_read_lead_in);
}

} // verus!
