//! The metadata of a segment: the records of its objects, each with a path, a
//! raw data index and properties, and how they change the directory.

use crate::arena::{arena_alloc, arena_map};
use crate::byte_reader::{ByteSource, parsed};
use crate::error::{ErrorKind, Result, TdmsReadError};
use crate::layout::ObjectEntry;
use crate::object_path::{ObjectPathCache, ObjectPathId, spec_intern, spec_parse};
use crate::primitives::{ByteOrderExt, read_string, read_value, spec_read_string, spec_read_value};
use crate::properties::{property_views, PropertyView, spec_read_property, TdmsProperty};
use crate::segment::{
    all_known, entries, RawDataIndex, RawDataIndexCache, RawDataIndexId, SegmentObject,
};
use crate::types::TdsType;
use id_arena::Arena;
use vstd::prelude::*;

verus! {

pub const RAW_DATA_INDEX_NO_DATA: u32 = 0xFFFFFFFF;

pub const RAW_DATA_INDEX_MATCHES_PREVIOUS: u32 = 0x00000000;

pub const FORMAT_CHANGING_SCALER: u32 = 0x00001269;

pub const DIGITAL_LINE_SCALER: u32 = 0x0000126A;

/// What reading a raw data index from the front of `input` gives: the tag of
/// the element type as a `u32`, the dimension as a `u32`, which has to be 1,
/// the number of values as a `u64` and, for strings only, the size in bytes
/// as a `u64`. For a type of fixed size the size in bytes is the number of
/// values times the size of one, which has to fit 64 bits.
#[verifier::opaque]
pub open spec fn spec_read_raw_data_index(input: Seq<u8>, big_endian: bool)
    -> std::result::Result<(RawDataIndex, nat), ErrorKind> {
    match spec_read_value::<u32>(input, big_endian) {
        Err(kind) => Err(kind),
        Ok((tag, _)) => match TdsType::spec_from_tag(tag) {
            None => Err(ErrorKind::Format),
            Some(data_type) => match spec_read_value::<u32>(input.skip(4), big_endian) {
                Err(kind) => Err(kind),
                Ok((dimension, _)) => match spec_read_value::<u64>(input.skip(8), big_endian) {
                    Err(kind) => Err(kind),
                    Ok((number_of_values, _)) => {
                        if dimension != 1 {
                            Err(ErrorKind::Format)
                        } else {
                            match data_type.spec_size() {
                                Some(type_size) => {
                                    if type_size * number_of_values > u64::MAX {
                                        Err(ErrorKind::Format)
                                    } else {
                                        Ok(
                                            (
                                                RawDataIndex {
                                                    number_of_values,
                                                    data_type,
                                                    data_size: (type_size
                                                        * number_of_values) as u64,
                                                },
                                                16,
                                            ),
                                        )
                                    }
                                },
                                None => {
                                    if data_type != TdsType::String {
                                        Err(ErrorKind::Format)
                                    } else {
                                        match spec_read_value::<u64>(input.skip(16), big_endian) {
                                            Err(kind) => Err(kind),
                                            Ok((data_size, _)) => Ok(
                                                (
                                                    RawDataIndex {
                                                        number_of_values,
                                                        data_type,
                                                        data_size,
                                                    },
                                                    24,
                                                ),
                                            ),
                                        }
                                    }
                                },
                            }
                        }
                    },
                },
            },
        },
    }
}

/// Reads a raw data index.
pub fn read_raw_data_index<S: ByteSource, O: ByteOrderExt>(source: &mut S) -> (r: Result<
    RawDataIndex,
>)
    requires
        old(source).wf(),
    ensures
        final(source).wf(),
        parsed(
            r,
            spec_read_raw_data_index(old(source).remaining(), O::spec_big_endian()),
            old(source).remaining(),
            final(source).remaining(),
        ),
        r matches Ok(index) ==> index.wf(),
{
    reveal(spec_read_raw_data_index);
    let ghost input = source.remaining();
    let data_type = match read_value::<u32, S, O>(source) {
        Ok(raw) => raw,
        Err(e) => {
            return Err(e);
        },
    };
    let data_type = match TdsType::from_u32(data_type) {
        Ok(data_type) => data_type,
        Err(e) => {
            return Err(e);
        },
    };
    let dimension = match read_value::<u32, S, O>(source) {
        Ok(dimension) => dimension,
        Err(e) => {
            return Err(e);
        },
    };
    assert(source.remaining() =~= input.skip(8));
    let number_of_values = match read_value::<u64, S, O>(source) {
        Ok(number_of_values) => number_of_values,
        Err(e) => {
            return Err(e);
        },
    };
    assert(source.remaining() =~= input.skip(16));

    if dimension != 1 {
        return Err(TdmsReadError::format_with_number("Dimension must be 1, got ", dimension as u64));
    }
    let data_size = match data_type.size() {
        Some(type_size) => match (type_size as u64).checked_mul(number_of_values) {
            Some(data_size) => data_size,
            None => {
                return Err(
                    TdmsReadError::format_with_number(
                        "Data size does not fit 64 bits for number of values ",
                        number_of_values,
                    ),
                );
            },
        },
        None => {
            if data_type == TdsType::String {
                match read_value::<u64, S, O>(source) {
                    Ok(data_size) => {
                        assert(source.remaining() =~= input.skip(24));
                        data_size
                    },
                    Err(e) => {
                        return Err(e);
                    },
                }
            } else {
                return Err(
                    TdmsReadError::format_with_text("Unsupported data type: ", data_type.name()),
                );
            }
        },
    };
    Ok(RawDataIndex { number_of_values, data_type, data_size })
}

/// The directory of a file as far as it was read: the texts of the object
/// paths by id, the properties of each object, and the raw data index that
/// each object had last.
pub struct DirectoryModel {
    pub texts: Seq<Seq<char>>,
    pub properties: Seq<Seq<PropertyView>>,
    pub cache: Map<nat, RawDataIndex>,
}

/// The id of a text in a registry that holds it.
pub open spec fn spec_id_of(texts: Seq<Seq<char>>, text: Seq<char>) -> nat {
    choose|i: nat| i < texts.len() && texts[i as int] == text
}

/// The property lists, with an empty list for each id from their number up
/// to `n`.
pub open spec fn padded(properties: Seq<Seq<PropertyView>>, n: nat) -> Seq<Seq<PropertyView>> {
    Seq::new(
        n,
        |i: int|
            if i < properties.len() {
                properties[i]
            } else {
                Seq::empty()
            },
    )
}

/// What reading `count` properties from the front of `input` gives.
pub open spec fn spec_read_properties(input: Seq<u8>, big_endian: bool, count: nat)
    -> std::result::Result<(Seq<PropertyView>, nat), ErrorKind>
    decreases count,
{
    if count == 0 {
        Ok((Seq::empty(), 0))
    } else {
        match spec_read_property(input, big_endian) {
            Err(kind) => Err(kind),
            Ok((property, taken)) => match spec_read_properties(
                input.skip(taken as int),
                big_endian,
                (count - 1) as nat,
            ) {
                Err(kind) => Err(kind),
                Ok((rest, more)) => Ok((seq![property] + rest, taken + more)),
            },
        }
    }
}

/// What the raw data index header `header` of the object `id` stands for,
/// with the bytes `input` behind it: no data; the index that the object had
/// last, which it must have had; an unsupported DAQmx index, which is a
/// format error; or an index that follows in `input` and becomes the
/// object's last. Gives the index, the last indexes of all objects, and the
/// number of bytes read.
#[verifier::opaque]
pub open spec fn spec_read_index(
    cache: Map<nat, RawDataIndex>,
    id: nat,
    header: u32,
    input: Seq<u8>,
    big_endian: bool,
) -> std::result::Result<(Option<RawDataIndex>, Map<nat, RawDataIndex>, nat), ErrorKind> {
    if header == RAW_DATA_INDEX_NO_DATA {
        Ok((None, cache, 0))
    } else if header == RAW_DATA_INDEX_MATCHES_PREVIOUS {
        if cache.contains_key(id) {
            Ok((Some(cache[id]), cache, 0))
        } else {
            Err(ErrorKind::Format)
        }
    } else if header == FORMAT_CHANGING_SCALER || header == DIGITAL_LINE_SCALER {
        Err(ErrorKind::Format)
    } else {
        match spec_read_raw_data_index(input, big_endian) {
            Err(kind) => Err(kind),
            Ok((index, taken)) => Ok((Some(index), cache.insert(id, index), taken)),
        }
    }
}

/// What reading the record of one object from the front of `input` gives:
/// the text of its path, which is interned; the header of its raw data index
/// and what the header stands for; the number of its properties and the
/// properties, which are added to those of the object.
#[verifier::opaque]
pub open spec fn spec_read_object(dir: DirectoryModel, input: Seq<u8>, big_endian: bool)
    -> std::result::Result<(DirectoryModel, ObjectEntry, nat), ErrorKind> {
    match spec_read_string(input, big_endian) {
        Err(kind) => Err(kind),
        Ok((text, text_len)) => {
            if !dir.texts.contains(text) && spec_parse(text) is None {
                Err(ErrorKind::Format)
            } else {
                let texts = spec_intern(dir.texts, text);
                let id = spec_id_of(texts, text);
                let behind_text = input.skip(text_len as int);
                match spec_read_value::<u32>(behind_text, big_endian) {
                    Err(kind) => Err(kind),
                    Ok((header, _)) => match spec_read_index(
                        dir.cache,
                        id,
                        header,
                        behind_text.skip(4),
                        big_endian,
                    ) {
                        Err(kind) => Err(kind),
                        Ok((index, cache, index_len)) => {
                            let behind_index = behind_text.skip(4).skip(index_len as int);
                            match spec_read_value::<u32>(behind_index, big_endian) {
                                Err(kind) => Err(kind),
                                Ok((count, _)) => match spec_read_properties(
                                    behind_index.skip(4),
                                    big_endian,
                                    count as nat,
                                ) {
                                    Err(kind) => Err(kind),
                                    Ok((properties, properties_len)) => Ok(
                                        (
                                            DirectoryModel {
                                                texts,
                                                properties: padded(
                                                    dir.properties,
                                                    texts.len(),
                                                ).update(
                                                    id as int,
                                                    padded(dir.properties, texts.len())[id as int]
                                                        + properties,
                                                ),
                                                cache,
                                            },
                                            ObjectEntry { object_id: id, index },
                                            text_len + 4 + index_len + 4 + properties_len,
                                        ),
                                    ),
                                },
                            }
                        },
                    },
                }
            }
        },
    }
}

/// What reading the records of `count` objects from the front of `input`
/// gives.
pub open spec fn spec_read_objects(
    dir: DirectoryModel,
    input: Seq<u8>,
    big_endian: bool,
    count: nat,
) -> std::result::Result<(DirectoryModel, Seq<ObjectEntry>, nat), ErrorKind>
    decreases count,
{
    if count == 0 {
        Ok((dir, Seq::empty(), 0))
    } else {
        match spec_read_object(dir, input, big_endian) {
            Err(kind) => Err(kind),
            Ok((next, entry, taken)) => match spec_read_objects(
                next,
                input.skip(taken as int),
                big_endian,
                (count - 1) as nat,
            ) {
                Err(kind) => Err(kind),
                Ok((last, rest, more)) => Ok((last, seq![entry] + rest, taken + more)),
            },
        }
    }
}

/// What reading the metadata of a segment from the front of `input` gives:
/// the number of objects as a `u32`, then their records.
pub open spec fn spec_read_object_metadata(dir: DirectoryModel, input: Seq<u8>, big_endian: bool)
    -> std::result::Result<(DirectoryModel, Seq<ObjectEntry>, nat), ErrorKind> {
    match spec_read_value::<u32>(input, big_endian) {
        Err(kind) => Err(kind),
        Ok((count, _)) => match spec_read_objects(dir, input.skip(4), big_endian, count as nat) {
            Err(kind) => Err(kind),
            Ok((last, objects, taken)) => Ok((last, objects, 4 + taken)),
        },
    }
}

/// Whether the arena `after` holds all that `before` held.
pub open spec fn extends(
    before: Map<RawDataIndexId, RawDataIndex>,
    after: Map<RawDataIndexId, RawDataIndex>,
) -> bool {
    forall|id: RawDataIndexId| #[trigger]
        before.contains_key(id) ==> after.contains_key(id) && after[id] == before[id]
}

/// Objects whose indexes are in an arena look the same in every arena that
/// extends it.
pub proof fn lemma_entries_stable(
    objects: Seq<SegmentObject>,
    before: Map<RawDataIndexId, RawDataIndex>,
    after: Map<RawDataIndexId, RawDataIndex>,
)
    requires
        all_known(objects, before),
        extends(before, after),
    ensures
        all_known(objects, after),
        entries(objects, after) == entries(objects, before),
{
    assert forall|k: int| 0 <= k < objects.len() implies (#[trigger] objects[k]).known(after)
        && objects[k].entry(after) == objects[k].entry(before) by {
        assert(objects[k].known(before));
    }
    assert(entries(objects, after) =~= entries(objects, before));
}

/// The properties of each object by id, as mathematical values.
pub open spec fn lists_model(properties: Seq<Vec<TdmsProperty>>) -> Seq<Seq<PropertyView>> {
    Seq::new(properties.len(), |i: int| property_views(properties[i]@))
}

/// The raw data index that each object had last, looked up in the arena.
pub open spec fn cache_model(
    cache: Map<nat, RawDataIndexId>,
    indexes: Map<RawDataIndexId, RawDataIndex>,
) -> Map<nat, RawDataIndex> {
    Map::new(|i: nat| cache.contains_key(i), |i: nat| indexes[cache[i]])
}

/// Whether every raw data index that the cache names is in the arena, and
/// every index in the arena is well formed.
pub open spec fn indexes_wf(
    cache: Map<nat, RawDataIndexId>,
    indexes: Map<RawDataIndexId, RawDataIndex>,
) -> bool {
    &&& forall|i: nat| #[trigger] cache.contains_key(i) ==> indexes.contains_key(cache[i])
    &&& forall|id: RawDataIndexId| #[trigger] indexes.contains_key(id) ==> indexes[id].wf()
}

/// Reads `count` properties and adds them to the list.
pub(crate) fn read_properties<S: ByteSource, O: ByteOrderExt>(
    source: &mut S,
    list: &mut Vec<TdmsProperty>,
    count: u32,
) -> (r: Result<()>)
    requires
        old(source).wf(),
    ensures
        final(source).wf(),
        match spec_read_properties(old(source).remaining(), O::spec_big_endian(), count as nat) {
            Ok((properties, taken)) => {
                &&& r is Ok
                &&& property_views(final(list)@) == property_views(old(list)@) + properties
                &&& taken <= old(source).remaining().len()
                &&& final(source).remaining() == old(source).remaining().skip(taken as int)
            },
            Err(kind) => r is Err && r->Err_0.spec_kind() == kind,
        },
{
    let ghost input = source.remaining();
    let ghost be = O::spec_big_endian();
    let ghost before = property_views(list@);
    let ghost read: Seq<PropertyView> = Seq::empty();
    let ghost taken: nat = 0;
    let mut i: u32 = 0;
    proof {
        assert(input.skip(0) =~= input);
        assert(before + read =~= before);
        if spec_read_properties(input, be, count as nat) is Ok {
            let rest = spec_read_properties(input, be, count as nat)->Ok_0.0;
            assert(read + rest =~= rest);
        }
    }
    while i < count
        invariant
            i <= count,
            source.wf(),
            be == O::spec_big_endian(),
            before == property_views(old(list)@),
            input == old(source).remaining(),
            taken <= input.len(),
            source.remaining() == input.skip(taken as int),
            property_views(list@) == before + read,
            spec_read_properties(input, be, count as nat) == (match spec_read_properties(
                input.skip(taken as int),
                be,
                (count - i) as nat,
            ) {
                Ok((rest, more)) => Ok::<(Seq<PropertyView>, nat), ErrorKind>(
                    (read + rest, taken + more),
                ),
                Err(kind) => Err(kind),
            }),
        decreases count - i,
    {
        let ghost here = source.remaining();
        let property = match TdmsProperty::read::<S, O>(source) {
            Ok(property) => property,
            Err(e) => {
                return Err(e);
            },
        };
        let ghost step = spec_read_property(here, be)->Ok_0.1;
        let ghost list_before = list@;
        list.push(property);
        proof {
            assert(property_views(list_before.push(property)) =~= property_views(
                list_before,
            ).push(property@));
            assert(before + read.push(property@) =~= (before + read).push(property@));
            assert(input.skip(taken as int).skip(step as int) =~= input.skip(
                (taken + step) as int,
            ));
            let next = spec_read_properties(
                input.skip((taken + step) as int),
                be,
                (count - i - 1) as nat,
            );
            if next is Ok {
                let rest = next->Ok_0.0;
                assert(read + (seq![property@] + rest) =~= read.push(property@) + rest);
            }
            read = read.push(property@);
            taken = taken + step;
        }
        i += 1;
    }
    proof {
        assert(read + Seq::<PropertyView>::empty() =~= read);
    }
    Ok(())
}

/// Reads what the raw data index header `header` of the object announces,
/// and gives the object as the segment lists it.
pub(crate) fn read_index<S: ByteSource, O: ByteOrderExt>(
    source: &mut S,
    data_indexes: &mut Arena<RawDataIndex>,
    cache: &mut RawDataIndexCache,
    object_id: ObjectPathId,
    header: u32,
) -> (r: Result<SegmentObject>)
    requires
        old(source).wf(),
        indexes_wf(old(cache)@, arena_map(*old(data_indexes))),
        object_id.0 < usize::MAX,
    ensures
        final(source).wf(),
        indexes_wf(final(cache)@, arena_map(*final(data_indexes))),
        extends(arena_map(*old(data_indexes)), arena_map(*final(data_indexes))),
        match spec_read_index(
            cache_model(old(cache)@, arena_map(*old(data_indexes))),
            object_id.0 as nat,
            header,
            old(source).remaining(),
            O::spec_big_endian(),
        ) {
            Ok((index, last, taken)) => {
                &&& r is Ok
                &&& r->Ok_0.object_id == object_id
                &&& r->Ok_0.known(arena_map(*final(data_indexes)))
                &&& r->Ok_0.entry(arena_map(*final(data_indexes))).index == index
                &&& cache_model(final(cache)@, arena_map(*final(data_indexes))) == last
                &&& taken <= old(source).remaining().len()
                &&& final(source).remaining() == old(source).remaining().skip(taken as int)
            },
            Err(kind) => r is Err && r->Err_0.spec_kind() == kind,
        },
{
    reveal(spec_read_index);
    let ghost input = source.remaining();
    let ghost old_indexes = arena_map(*data_indexes);
    let ghost old_cache = cache@;
    if header == RAW_DATA_INDEX_NO_DATA {
        assert(input.skip(0) =~= input);
        Ok(SegmentObject::no_data(object_id))
    } else if header == RAW_DATA_INDEX_MATCHES_PREVIOUS {
        match cache.get(object_id) {
            Some(raw_data_index_id) => {
                assert(input.skip(0) =~= input);
                Ok(SegmentObject::with_data(object_id, *raw_data_index_id))
            },
            None => Err(TdmsReadError::format("Object has no previous raw data index")),
        }
    } else if header == FORMAT_CHANGING_SCALER || header == DIGITAL_LINE_SCALER {
        Err(TdmsReadError::format("DAQmx raw data is not supported"))
    } else {
        // Raw data index header gives length of index information
        let index = match read_raw_data_index::<S, O>(source) {
            Ok(index) => index,
            Err(e) => {
                return Err(e);
            },
        };
        let raw_data_index = arena_alloc(data_indexes, index);
        cache.set(object_id, raw_data_index);
        proof {
            let new_indexes = arena_map(*data_indexes);
            assert(cache_model(cache@, new_indexes) =~= cache_model(old_cache, old_indexes).insert(
                object_id.0 as nat,
                index,
            )) by {
                assert forall|i: nat| cache@.contains_key(i) implies #[trigger] cache_model(
                    cache@,
                    new_indexes,
                )[i] == cache_model(old_cache, old_indexes).insert(object_id.0 as nat, index)[i] by {
                    if i != object_id.0 {
                        assert(old_cache.contains_key(i));
                    }
                }
            }
        }
        Ok(SegmentObject::with_data(object_id, raw_data_index))
    }
}

/// The directory that the parts of a reader stand for.
pub open spec fn directory_of(
    object_paths: ObjectPathCache,
    properties: Seq<Vec<TdmsProperty>>,
    indexes: Map<RawDataIndexId, RawDataIndex>,
    cache: Map<nat, RawDataIndexId>,
) -> DirectoryModel {
    DirectoryModel {
        texts: object_paths.spec_texts(),
        properties: lists_model(properties),
        cache: cache_model(cache, indexes),
    }
}

/// In a well-formed registry the id of a text is the one index that holds it.
pub proof fn lemma_id_of(object_paths: ObjectPathCache, text: Seq<char>, id: nat)
    requires
        object_paths.wf(),
        id < object_paths.spec_texts().len(),
        object_paths.spec_texts()[id as int] == text,
    ensures
        spec_id_of(object_paths.spec_texts(), text) == id,
{
    let texts = object_paths.spec_texts();
    let found = spec_id_of(texts, text);
    assert(found < texts.len() && texts[found as int] == text);
    if found < id {
        assert(texts[found as int] != texts[id as int]);
    } else if id < found {
        assert(texts[id as int] != texts[found as int]);
    }
}

/// Reads the record of one object.
pub(crate) fn read_object<S: ByteSource, O: ByteOrderExt>(
    source: &mut S,
    object_paths: &mut ObjectPathCache,
    properties: &mut Vec<Vec<TdmsProperty>>,
    data_indexes: &mut Arena<RawDataIndex>,
    cache: &mut RawDataIndexCache,
) -> (r: Result<SegmentObject>)
    requires
        old(source).wf(),
        old(object_paths).wf(),
        old(properties)@.len() == old(object_paths).spec_len(),
        indexes_wf(old(cache)@, arena_map(*old(data_indexes))),
    ensures
        final(source).wf(),
        final(object_paths).wf(),
        final(properties)@.len() == final(object_paths).spec_len(),
        indexes_wf(final(cache)@, arena_map(*final(data_indexes))),
        extends(arena_map(*old(data_indexes)), arena_map(*final(data_indexes))),
        old(object_paths).spec_len() <= final(object_paths).spec_len(),
        match spec_read_object(
            directory_of(
                *old(object_paths),
                old(properties)@,
                arena_map(*old(data_indexes)),
                old(cache)@,
            ),
            old(source).remaining(),
            O::spec_big_endian(),
        ) {
            Ok((directory, entry, taken)) => {
                &&& r is Ok
                &&& r->Ok_0.object_id.0 < final(object_paths).spec_len()
                &&& r->Ok_0.known(arena_map(*final(data_indexes)))
                &&& r->Ok_0.entry(arena_map(*final(data_indexes))) == entry
                &&& directory_of(
                    *final(object_paths),
                    final(properties)@,
                    arena_map(*final(data_indexes)),
                    final(cache)@,
                ) == directory
                &&& taken <= old(source).remaining().len()
                &&& final(source).remaining() == old(source).remaining().skip(taken as int)
            },
            Err(kind) => r is Err && r->Err_0.spec_kind() == kind,
        },
{
    reveal(spec_read_object);
    let ghost input = source.remaining();
    let ghost be = O::spec_big_endian();
    let ghost old_lists = lists_model(properties@);
    let object_path = match read_string::<S, O>(source) {
        Ok(object_path) => object_path,
        Err(e) => {
            return Err(e);
        },
    };
    let ghost text = object_path@;
    let ghost text_len = spec_read_string(input, be)->Ok_0.1;
    let object_id = match object_paths.get_or_create_id(object_path) {
        Ok(object_id) => object_id,
        Err(e) => {
            return Err(e);
        },
    };
    let ghost texts = object_paths.spec_texts();
    proof {
        lemma_id_of(*object_paths, text, object_id.0 as nat);
    }
    let count = object_paths.len();
    while properties.len() < count
        invariant
            old(properties)@.len() <= properties@.len() <= count,
            lists_model(properties@) == padded(old_lists, properties@.len() as nat),
            old_lists == lists_model(old(properties)@),
        decreases count - properties@.len(),
    {
        let ghost before = properties@;
        let empty: Vec<TdmsProperty> = Vec::new();
        properties.push(empty);
        proof {
            assert(properties@ == before.push(empty));
            assert(property_views(empty@) =~= Seq::<PropertyView>::empty());
            assert forall|k: int| 0 <= k < properties@.len() implies #[trigger] lists_model(
                properties@,
            )[k] == padded(old_lists, properties@.len() as nat)[k] by {
                if k < before.len() {
                    assert(lists_model(before)[k] == padded(old_lists, before.len() as nat)[k]);
                }
            }
            assert(lists_model(properties@) =~= padded(old_lists, properties@.len() as nat));
        }
    }
    let ghost padded_lists = lists_model(properties@);
    let raw_data_index_header = match read_value::<u32, S, O>(source) {
        Ok(header) => header,
        Err(e) => {
            return Err(e);
        },
    };
    let ghost behind_header = source.remaining();
    let segment_object = match read_index::<S, O>(
        source,
        data_indexes,
        cache,
        object_id,
        raw_data_index_header,
    ) {
        Ok(segment_object) => segment_object,
        Err(e) => {
            return Err(e);
        },
    };
    let ghost index_len = spec_read_index(
        cache_model(old(cache)@, arena_map(*old(data_indexes))),
        object_id.0 as nat,
        raw_data_index_header,
        behind_header,
        be,
    )->Ok_0.2;
    let ghost behind_index = source.remaining();
    let num_properties = match read_value::<u32, S, O>(source) {
        Ok(num_properties) => num_properties,
        Err(e) => {
            return Err(e);
        },
    };
    let ghost behind_count = source.remaining();
    let ghost lists_before = properties@;
    match read_properties::<S, O>(source, &mut properties[object_id.0], num_properties) {
        Ok(_) => {},
        Err(e) => {
            return Err(e);
        },
    }
    proof {
        let read = spec_read_properties(behind_count, be, num_properties as nat)->Ok_0.0;
        let properties_len = spec_read_properties(behind_count, be, num_properties as nat)->Ok_0.1;
        assert(forall|k: int|
            0 <= k < lists_before.len() && k != object_id.0 ==> properties@[k] == lists_before[k]);
        assert(lists_model(properties@) =~= padded_lists.update(
            object_id.0 as int,
            padded_lists[object_id.0 as int] + read,
        ));
        assert(source.remaining() =~= input.skip(
            (text_len + 4 + index_len + 4 + properties_len) as int,
        ));
    }
    Ok(segment_object)
}

/// An arena that extends an arena that extends a third extends the third.
pub proof fn lemma_extends_transitive(
    first: Map<RawDataIndexId, RawDataIndex>,
    second: Map<RawDataIndexId, RawDataIndex>,
    third: Map<RawDataIndexId, RawDataIndex>,
)
    requires
        extends(first, second),
        extends(second, third),
    ensures
        extends(first, third),
{
    assert forall|id: RawDataIndexId| #[trigger] first.contains_key(id) implies third.contains_key(
        id,
    ) && third[id] == first[id] by {
        assert(second.contains_key(id));
    }
}

/// Reads the records of `count` objects.
pub(crate) fn read_objects<S: ByteSource, O: ByteOrderExt>(
    source: &mut S,
    object_paths: &mut ObjectPathCache,
    properties: &mut Vec<Vec<TdmsProperty>>,
    data_indexes: &mut Arena<RawDataIndex>,
    cache: &mut RawDataIndexCache,
    count: u32,
) -> (r: Result<Vec<SegmentObject>>)
    requires
        old(source).wf(),
        old(object_paths).wf(),
        old(properties)@.len() == old(object_paths).spec_len(),
        indexes_wf(old(cache)@, arena_map(*old(data_indexes))),
    ensures
        final(source).wf(),
        final(object_paths).wf(),
        final(properties)@.len() == final(object_paths).spec_len(),
        indexes_wf(final(cache)@, arena_map(*final(data_indexes))),
        extends(arena_map(*old(data_indexes)), arena_map(*final(data_indexes))),
        old(object_paths).spec_len() <= final(object_paths).spec_len(),
        match spec_read_objects(
            directory_of(
                *old(object_paths),
                old(properties)@,
                arena_map(*old(data_indexes)),
                old(cache)@,
            ),
            old(source).remaining(),
            O::spec_big_endian(),
            count as nat,
        ) {
            Ok((directory, objects, taken)) => {
                &&& r is Ok
                &&& all_known(r->Ok_0@, arena_map(*final(data_indexes)))
                &&& entries(r->Ok_0@, arena_map(*final(data_indexes))) == objects
                &&& forall|k: int|
                    0 <= k < r->Ok_0@.len() ==> (#[trigger] r->Ok_0@[k]).object_id.0 < final(object_paths).spec_len()
                &&& directory_of(
                    *final(object_paths),
                    final(properties)@,
                    arena_map(*final(data_indexes)),
                    final(cache)@,
                ) == directory
                &&& taken <= old(source).remaining().len()
                &&& final(source).remaining() == old(source).remaining().skip(taken as int)
            },
            Err(kind) => r is Err && r->Err_0.spec_kind() == kind,
        },
{
    let ghost input = source.remaining();
    let ghost be = O::spec_big_endian();
    let ghost first = directory_of(*object_paths, properties@, arena_map(*data_indexes), cache@);
    let ghost first_indexes = arena_map(*data_indexes);
    let ghost taken: nat = 0;
    let mut segment_objects: Vec<SegmentObject> = Vec::with_capacity(count as usize);
    let mut i: u32 = 0;
    proof {
        assert(input.skip(0) =~= input);
        assert(entries(segment_objects@, first_indexes) =~= Seq::<ObjectEntry>::empty());
        if spec_read_objects(first, input, be, count as nat) is Ok {
            let rest = spec_read_objects(first, input, be, count as nat)->Ok_0.1;
            assert(Seq::<ObjectEntry>::empty() + rest =~= rest);
        }
    }
    while i < count
        invariant
            i <= count,
            source.wf(),
            object_paths.wf(),
            properties@.len() == object_paths.spec_len(),
            indexes_wf(cache@, arena_map(*data_indexes)),
            extends(first_indexes, arena_map(*data_indexes)),
            first_indexes == arena_map(*old(data_indexes)),
            old(object_paths).spec_len() <= object_paths.spec_len(),
            be == O::spec_big_endian(),
            input == old(source).remaining(),
            first == directory_of(
                *old(object_paths),
                old(properties)@,
                arena_map(*old(data_indexes)),
                old(cache)@,
            ),
            taken <= input.len(),
            source.remaining() == input.skip(taken as int),
            all_known(segment_objects@, arena_map(*data_indexes)),
            forall|k: int|
                0 <= k < segment_objects@.len() ==> (#[trigger] segment_objects@[k]).object_id.0
                    < object_paths.spec_len(),
            spec_read_objects(first, input, be, count as nat) == (match spec_read_objects(
                directory_of(*object_paths, properties@, arena_map(*data_indexes), cache@),
                input.skip(taken as int),
                be,
                (count - i) as nat,
            ) {
                Ok((last, rest, more)) => Ok::<(DirectoryModel, Seq<ObjectEntry>, nat), ErrorKind>(
                    (last, entries(segment_objects@, arena_map(*data_indexes)) + rest, taken + more),
                ),
                Err(kind) => Err(kind),
            }),
        decreases count - i,
    {
        let ghost here = directory_of(*object_paths, properties@, arena_map(*data_indexes), cache@);
        let ghost indexes_here = arena_map(*data_indexes);
        let ghost objects_here = segment_objects@;
        let ghost rest_input = source.remaining();
        let segment_object = match read_object::<S, O>(
            source,
            object_paths,
            properties,
            data_indexes,
            cache,
        ) {
            Ok(segment_object) => segment_object,
            Err(e) => {
                return Err(e);
            },
        };
        segment_objects.push(segment_object);
        proof {
            let indexes_now = arena_map(*data_indexes);
            let step = spec_read_object(here, rest_input, be)->Ok_0.2;
            let entry = spec_read_object(here, rest_input, be)->Ok_0.1;
            lemma_entries_stable(objects_here, indexes_here, indexes_now);
            lemma_extends_transitive(first_indexes, indexes_here, indexes_now);
            assert(entries(segment_objects@, indexes_now) =~= entries(
                objects_here,
                indexes_here,
            ).push(entry));
            assert(input.skip(taken as int).skip(step as int) =~= input.skip(
                (taken + step) as int,
            ));
            let next = spec_read_objects(
                directory_of(*object_paths, properties@, indexes_now, cache@),
                input.skip((taken + step) as int),
                be,
                (count - i - 1) as nat,
            );
            if next is Ok {
                let rest = next->Ok_0.1;
                assert(entries(objects_here, indexes_here) + (seq![entry] + rest) =~= entries(
                    segment_objects@,
                    indexes_now,
                ) + rest);
            }
            taken = taken + step;
        }
        i += 1;
    }
    proof {
        let done = entries(segment_objects@, arena_map(*data_indexes));
        assert(done + Seq::<ObjectEntry>::empty() =~= done);
    }
    Ok(segment_objects)
}

} // verus!
