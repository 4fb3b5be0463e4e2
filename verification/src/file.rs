//! The directory of a file as its users see it: the file, its groups and
//! their channels.

use crate::byte_reader::ByteReader;
use crate::channel_index::{channel_count, total_values};
use crate::channel_read::{channel_error, channel_written, total_read};
use crate::error::{ErrorKind, Result, TdmsReadError};
use crate::object_metadata::spec_id_of;
use crate::object_path::{
    lemma_parse_canonical, ObjectPath, ObjectPathId, path_from_channel, path_from_group, PathView,
    spec_parse, spec_path_from_channel, spec_path_from_group,
};
use crate::primitives::NativeType;
use crate::properties::{property_views, PropertyView, TdmsProperty};
use crate::scan::{lemma_length_is_sum, ReaderModel, spec_read_metadata};
use crate::tdms_reader::{read_metadata, TdmsReader};
use crate::text::str_eq;
use crate::types::TdsType;
use vstd::pervasive::unreached;
use vstd::prelude::*;

verus! {

/// A TDMS file held in memory, with its metadata read.
#[derive(Debug)]
pub struct TdmsFile {
    bytes: Vec<u8>,
    tdms_reader: TdmsReader,
}

/// A group of a file.
#[derive(Debug)]
pub struct Group<'a> {
    file: &'a TdmsFile,
    object_id: ObjectPathId,
}

/// A channel of a group of a file.
#[derive(Debug)]
pub struct Channel<'a> {
    file: &'a TdmsFile,
    object_id: ObjectPathId,
}

/// The groups of a file, one after the other.
pub struct GroupIterator<'a> {
    file: &'a TdmsFile,
    objects: Vec<ObjectPathId>,
    position: usize,
}

/// The channels of a group, one after the other.
pub struct ChannelIterator<'a> {
    file: &'a TdmsFile,
    objects: Vec<ObjectPathId>,
    position: usize,
}

/// The ids of the groups among the first `n` paths, in order.
pub open spec fn group_ids(paths: Seq<PathView>, n: int) -> Seq<nat>
    decreases n,
{
    if n <= 0 {
        Seq::empty()
    } else if paths[n - 1] is Group {
        group_ids(paths, n - 1).push((n - 1) as nat)
    } else {
        group_ids(paths, n - 1)
    }
}

/// The ids of the channels of the group `group` among the first `n` paths,
/// in order.
pub open spec fn channel_ids(paths: Seq<PathView>, group: Seq<char>, n: int) -> Seq<nat>
    decreases n,
{
    if n <= 0 {
        Seq::empty()
    } else if paths[n - 1] matches PathView::Channel(of, _) && of == group {
        channel_ids(paths, group, n - 1).push((n - 1) as nat)
    } else {
        channel_ids(paths, group, n - 1)
    }
}

/// The ids of a list of object path ids.
pub open spec fn ids_of(objects: Seq<ObjectPathId>) -> Seq<nat> {
    objects.map_values(|id: ObjectPathId| id.0 as nat)
}

impl TdmsFile {
    /// The bytes of the file.
    pub closed spec fn spec_bytes(&self) -> Seq<u8> {
        self.bytes@
    }

    /// All that was read of the file's metadata.
    pub closed spec fn model(&self) -> ReaderModel {
        self.tdms_reader.model()
    }

    /// The paths of the objects of the file, by id.
    pub closed spec fn spec_paths(&self) -> Seq<PathView> {
        self.tdms_reader.spec_paths()
    }

    /// The metadata is that of the bytes, and the reader is well formed.
    pub closed spec fn wf(&self) -> bool {
        &&& self.tdms_reader.wf()
        &&& spec_read_metadata(self.bytes@) == Ok::<ReaderModel, ErrorKind>(
            self.tdms_reader.model(),
        )
        &&& self.tdms_reader.spec_paths().len() == self.tdms_reader.spec_texts().len()
    }

    /// Create a new TdmsFile object, parsing TDMS metadata from the bytes of
    /// a file. Fails exactly when reading the segments of the file fails,
    /// with the error of that.
    pub fn new(bytes: Vec<u8>) -> (r: Result<TdmsFile>)
        ensures
            match spec_read_metadata(bytes@) {
                Ok(model) => r is Ok && r->Ok_0.wf() && r->Ok_0.model() == model
                    && r->Ok_0.spec_bytes() == bytes@,
                Err(kind) => r is Err && r->Err_0.spec_kind() == kind,
            },
    {
        let tdms_reader = {
            let mut file_reader = ByteReader::new(bytes.as_slice());
            match read_metadata(&mut file_reader) {
                Ok(tdms_reader) => tdms_reader,
                Err(e) => {
                    return Err(e);
                },
            }
        };
        proof {
            tdms_reader.lemma_every_object_has_a_path();
        }
        Ok(TdmsFile { bytes, tdms_reader })
    }

    /// The properties of the file: those of the root object, in the order in
    /// which the file declares them; none if the file does not declare the
    /// root.
    pub fn properties(&self) -> (r: &[TdmsProperty])
        requires
            self.wf(),
        ensures
            property_views(r@) == self.spec_properties_of(seq!['/']),
    {
        match self.tdms_reader.get_object_id("/") {
            Some(object_id) => {
                proof {
                    reveal_strlit("/");
                    assert("/"@ =~= seq!['/']);
                    self.tdms_reader.lemma_id_of_text(seq!['/'], object_id.0 as nat);
                }
                self.tdms_reader.get_properties(object_id)
            },
            None => {
                proof {
                    reveal_strlit("/");
                    assert("/"@ =~= seq!['/']);
                }
                let none: &[TdmsProperty] = &[];
                assert(property_views(none@) =~= Seq::<PropertyView>::empty());
                none
            },
        }
    }

    /// The properties of the object whose path has the text `text`; none for
    /// a text that the file does not have.
    pub open spec fn spec_properties_of(&self, text: Seq<char>) -> Seq<PropertyView> {
        match self.spec_text_id(text) {
            Some(id) => self.spec_properties_at(id),
            None => Seq::empty(),
        }
    }

    /// The metadata of a well-formed file is what reading its bytes gives.
    pub proof fn lemma_model_is_read(&self)
        requires
            self.wf(),
        ensures
            spec_read_metadata(self.spec_bytes()) == Ok::<ReaderModel, ErrorKind>(self.model()),
    {
    }

    /// Every object of a well-formed file has the path that the text of its
    /// path stands for, and a list of properties.
    pub proof fn lemma_paths_are_parsed(&self, id: int)
        requires
            self.wf(),
            0 <= id < self.model().directory.texts.len(),
        ensures
            self.spec_paths().len() == self.model().directory.texts.len(),
            self.model().directory.properties.len() == self.model().directory.texts.len(),
            spec_parse(self.model().directory.texts[id]) == Some(self.spec_paths()[id]),
            self.spec_text_id(self.model().directory.texts[id]) == Some(id as nat),
    {
        self.tdms_reader.lemma_id_of_text(self.model().directory.texts[id], id as nat);
    }

    /// For every channel of a well-formed file the cumulative number of
    /// values is the number in the cumulative index, which is 0 for a channel
    /// that never had data.
    pub proof fn lemma_length_is_count(&self, channel: nat)
        requires
            self.wf(),
        ensures
            self.spec_length(channel) == channel_count(self.model().channels, channel),
    {
        lemma_length_is_sum(self.spec_bytes(), channel);
    }
}

impl TdmsFile {
    /// The cumulative number of values of the channel with the id
    /// `channel`: the sum over all segments of the number of values in a
    /// chunk times the repetitions of the chunk.
    pub open spec fn spec_length(&self, channel: nat) -> nat {
        total_values(self.model().segments, channel, self.model().segments.len() as int)
    }

    /// The element type of the channel with the id `channel`; `Void` for a
    /// channel that never had data.
    pub open spec fn spec_data_type(&self, channel: nat) -> TdsType {
        if self.model().channels.contains_key(channel) {
            self.model().channels[channel].data_type
        } else {
            TdsType::Void
        }
    }

    /// Whether the channel with the id `channel` ever had data.
    pub open spec fn spec_has_data(&self, channel: nat) -> bool {
        self.model().channels.contains_key(channel)
    }

    /// The error that reading all values of the channel into a buffer of
    /// `capacity` elements of type `T` ends with, if it does.
    pub open spec fn spec_read_error<T: NativeType>(&self, channel: nat, capacity: int) -> Option<
        ErrorKind,
    > {
        channel_error::<T>(
            self.spec_bytes(),
            self.model().segments,
            channel,
            capacity,
            self.model().segments.len() as int,
        )
    }

    /// Number of values that reading the channel writes.
    pub open spec fn spec_values_read(&self, channel: nat) -> nat {
        total_read(self.model().segments, channel, self.model().segments.len() as int)
    }

    /// Whether the buffer holds all values of the channel, from index 0 on.
    pub open spec fn spec_holds_values<T: NativeType>(&self, buffer: Seq<T>, channel: nat)
        -> bool {
        channel_written::<T>(
            buffer,
            self.spec_bytes(),
            self.model().segments,
            channel,
            self.model().segments.len() as int,
        )
    }

    /// Get a group within the TDMS file
    pub fn group<'a>(&'a self, group_name: &'a str) -> (r: Option<Group<'a>>)
        requires
            self.wf(),
        ensures
            match r {
                Some(group) => {
                    &&& group.wf()
                    &&& group.spec_file() == self
                    &&& group.spec_name() == group_name@
                    &&& self.spec_text_id(spec_path_from_group(group_name@)) == Some(
                        group.spec_id(),
                    )
                },
                None => self.spec_text_id(spec_path_from_group(group_name@)) is None,
            },
    {
        let group_path = path_from_group(group_name);
        match self.tdms_reader.get_object_id(group_path.as_str()) {
            Some(object_id) => {
                proof {
                    lemma_parse_canonical(PathView::Group(group_name@));
                    self.tdms_reader.lemma_id_of_text(group_path@, object_id.0 as nat);
                }
                Some(Group::new(self, object_id))
            },
            None => None,
        }
    }

    /// The id of the object whose path has the text `text`, if the file has
    /// it.
    pub open spec fn spec_text_id(&self, text: Seq<char>) -> Option<nat> {
        if self.model().directory.texts.contains(text) {
            Some(spec_id_of(self.model().directory.texts, text))
        } else {
            None
        }
    }

    /// Get an iterator over groups within this TDMS file
    pub fn groups<'a>(&'a self) -> (r: GroupIterator<'a>)
        requires
            self.wf(),
        ensures
            r.wf(),
            r.spec_file() == self,
            r.spec_remaining() == group_ids(self.spec_paths(), self.spec_paths().len() as int),
    {
        GroupIterator::new(self)
    }
}

impl<'a> Group<'a> {
    /// The file of the group.
    pub closed spec fn spec_file(&self) -> &'a TdmsFile {
        self.file
    }

    /// The id of the group.
    pub closed spec fn spec_id(&self) -> nat {
        self.object_id.0 as nat
    }

    /// The file is well formed and the id is that of a group of it.
    pub closed spec fn wf(&self) -> bool {
        &&& self.file.wf()
        &&& self.object_id.0 < self.file.spec_paths().len()
        &&& self.file.spec_paths()[self.object_id.0 as int] is Group
    }

    /// The name of the group.
    pub closed spec fn spec_name(&self) -> Seq<char> {
        self.file.spec_paths()[self.object_id.0 as int]->Group_0
    }

    fn new(file: &'a TdmsFile, object_id: ObjectPathId) -> (r: Group<'a>)
        requires
            file.wf(),
            object_id.0 < file.spec_paths().len(),
            file.spec_paths()[object_id.0 as int] is Group,
        ensures
            r.wf(),
            r.spec_file() == file,
            r.spec_id() == object_id.0,
    {
        Group { file, object_id }
    }

    /// Get the name of this group
    pub fn name(&self) -> (r: &str)
        requires
            self.wf(),
        ensures
            r@ == self.spec_name(),
    {
        match self.file.tdms_reader.get_object_path(self.object_id) {
            Some(ObjectPath::Group(group_name)) => group_name.as_str(),
            _ => unreached(),
        }
    }

    /// The properties of the group, in the order in which the file declares
    /// them.
    pub fn properties(&self) -> (r: &[TdmsProperty])
        requires
            self.wf(),
        ensures
            property_views(r@) == self.spec_file().spec_properties_at(self.spec_id()),
    {
        proof {
            self.file.tdms_reader.lemma_every_object_has_a_path();
        }
        self.file.tdms_reader.get_properties(self.object_id)
    }

    /// Get a channel within this group
    pub fn channel<'b>(&'b self, channel_name: &str) -> (r: Option<Channel<'b>>)
        requires
            self.wf(),
        ensures
            match r {
                Some(channel) => {
                    &&& channel.wf()
                    &&& channel.spec_file() == self.spec_file()
                    &&& channel.spec_name() == channel_name@
                    &&& channel.spec_group_name() == self.spec_name()
                    &&& self.spec_file().spec_text_id(
                        spec_path_from_channel(self.spec_name(), channel_name@),
                    ) == Some(channel.spec_id())
                },
                None => self.spec_file().spec_text_id(
                    spec_path_from_channel(self.spec_name(), channel_name@),
                ) is None,
            },
    {
        let channel_path = path_from_channel(self.name(), channel_name);
        match self.file.tdms_reader.get_object_id(channel_path.as_str()) {
            Some(object_id) => {
                proof {
                    lemma_parse_canonical(PathView::Channel(self.spec_name(), channel_name@));
                    self.file.tdms_reader.lemma_id_of_text(channel_path@, object_id.0 as nat);
                }
                Some(Channel::new(self.file, object_id))
            },
            None => None,
        }
    }

    /// Get an iterator over channels within this group
    pub fn channels<'b>(&'b self) -> (r: ChannelIterator<'b>)
        requires
            self.wf(),
        ensures
            r.wf(),
            r.spec_file() == self.spec_file(),
            r.spec_remaining() == channel_ids(
                self.spec_file().spec_paths(),
                self.spec_name(),
                self.spec_file().spec_paths().len() as int,
            ),
    {
        ChannelIterator::new(self.file, self.name())
    }
}

impl TdmsFile {
    /// The properties of the object with the id `id`, in the order in which
    /// the file declares them.
    pub open spec fn spec_properties_at(&self, id: nat) -> Seq<PropertyView> {
        if id < self.model().directory.properties.len() {
            self.model().directory.properties[id as int]
        } else {
            Seq::empty()
        }
    }
}

impl<'a> Channel<'a> {
    /// The file of the channel.
    pub closed spec fn spec_file(&self) -> &'a TdmsFile {
        self.file
    }

    /// The id of the channel.
    pub closed spec fn spec_id(&self) -> nat {
        self.object_id.0 as nat
    }

    /// The file is well formed and the id is that of a channel of it.
    pub closed spec fn wf(&self) -> bool {
        &&& self.file.wf()
        &&& self.object_id.0 < self.file.spec_paths().len()
        &&& self.file.spec_paths()[self.object_id.0 as int] is Channel
    }

    /// The name of the channel.
    pub closed spec fn spec_name(&self) -> Seq<char> {
        self.file.spec_paths()[self.object_id.0 as int]->Channel_1
    }

    /// The name of the group of the channel.
    pub closed spec fn spec_group_name(&self) -> Seq<char> {
        self.file.spec_paths()[self.object_id.0 as int]->Channel_0
    }

    fn new(file: &'a TdmsFile, object_id: ObjectPathId) -> (r: Channel<'a>)
        requires
            file.wf(),
            object_id.0 < file.spec_paths().len(),
            file.spec_paths()[object_id.0 as int] is Channel,
        ensures
            r.wf(),
            r.spec_file() == file,
            r.spec_id() == object_id.0,
    {
        Channel { file, object_id }
    }

    /// Get the name of this channel
    pub fn name(&self) -> (r: &str)
        requires
            self.wf(),
        ensures
            r@ == self.spec_name(),
    {
        match self.file.tdms_reader.get_object_path(self.object_id) {
            Some(ObjectPath::Channel(_, channel_name)) => channel_name.as_str(),
            _ => unreached(),
        }
    }

    /// The properties of the channel, in the order in which the file
    /// declares them.
    pub fn properties(&self) -> (r: &[TdmsProperty])
        requires
            self.wf(),
        ensures
            property_views(r@) == self.spec_file().spec_properties_at(self.spec_id()),
    {
        proof {
            self.file.tdms_reader.lemma_every_object_has_a_path();
        }
        self.file.tdms_reader.get_properties(self.object_id)
    }

    /// The element type of the channel; `Void` if it never had data.
    pub fn data_type(&self) -> (r: TdsType)
        requires
            self.wf(),
        ensures
            r == self.spec_file().spec_data_type(self.spec_id()),
    {
        match self.file.tdms_reader.get_channel_data_index(self.object_id) {
            Some(channel_data_index) => channel_data_index.data_type,
            None => TdsType::Void,
        }
    }

    /// Get the total number of values in this channel
    pub fn len(&self) -> (r: u64)
        requires
            self.wf(),
        ensures
            r == self.spec_file().spec_length(self.spec_id()),
    {
        match self.file.tdms_reader.get_channel_data_index(self.object_id) {
            Some(channel_data) => channel_data.number_of_values,
            None => 0,
        }
    }

    /// Read all data for this channel into the given buffer. A channel that
    /// never had data leaves the buffer as it is. Fails with a format error
    /// where the buffer is shorter than the channel or its elements are not
    /// of the element kind of the channel, and else with the error of the
    /// first segment that cannot be read, if there is one.
    pub fn read_all_data<T: NativeType>(&self, buffer: &mut [T]) -> (r: Result<()>)
        requires
            self.wf(),
        ensures
            final(buffer)@.len() == old(buffer)@.len(),
            ({
                let file = self.spec_file();
                let id = self.spec_id();
                if !file.spec_has_data(id) {
                    r is Ok && final(buffer)@ == old(buffer)@
                } else if file.spec_length(id) > old(buffer)@.len()
                    || file.spec_data_type(id).spec_native_type() != Some(T::spec_native_type()) {
                    r is Err && r->Err_0.spec_kind() == ErrorKind::Format
                } else {
                    match file.spec_read_error::<T>(id, old(buffer)@.len() as int) {
                        Some(kind) => r is Err && r->Err_0.spec_kind() == kind,
                        None => {
                            &&& r is Ok
                            &&& file.spec_values_read(id) <= old(buffer)@.len()
                            &&& file.spec_holds_values::<T>(final(buffer)@, id)
                            &&& forall|j: int|
                                file.spec_values_read(id) <= j < old(buffer)@.len() ==> final(buffer)@[j] == old(buffer)@[j]
                        },
                    }
                }
            }),
    {
        match self.file.tdms_reader.get_channel_data_index(self.object_id) {
            Some(channel_data_index) => {
                if channel_data_index.number_of_values > buffer.len() as u64 {
                    return Err(
                        TdmsReadError::format_with_number(
                            "Buffer is too short, its length needs to be at least ",
                            channel_data_index.number_of_values,
                        ),
                    );
                }
                let tdms_type = channel_data_index.data_type;
                let expected_native_type = tdms_type.native_type();
                match expected_native_type {
                    Some(expected_native_type) => {
                        if expected_native_type == T::native_type() {
                            // Buffer type matches expected native type, safe to read data
                            let mut reader = ByteReader::new(self.file.bytes.as_slice());
                            self.file.tdms_reader.read_channel_data(
                                &mut reader,
                                self.object_id,
                                buffer,
                            )
                        } else {
                            Err(
                                TdmsReadError::format_with_text(
                                    "Expected a buffer with item type ",
                                    expected_native_type.name(),
                                ),
                            )
                        }
                    },
                    None => Err(
                        TdmsReadError::format_with_text(
                            "Reading data is not supported for type ",
                            tdms_type.name(),
                        ),
                    ),
                }
            },
            None => Ok(()),
        }
    }
}

impl<'a> Channel<'a> {
    /// Read all data for this channel and add it to the end of the given
    /// buffer. A channel that never had data leaves the buffer as it is, and
    /// so does every error. Fails with a format error where the channel has
    /// more values than a buffer can hold or its elements are not of the
    /// element kind of `T`, and else with the error of the first segment that
    /// cannot be read, if there is one.
    pub fn read_data<T: NativeType>(&self, buffer: &mut Vec<T>) -> (r: Result<()>)
        requires
            self.wf(),
        ensures
            ({
                let file = self.spec_file();
                let id = self.spec_id();
                if !file.spec_has_data(id) {
                    r is Ok && final(buffer)@ == old(buffer)@
                } else if file.spec_length(id) > usize::MAX
                    || file.spec_data_type(id).spec_native_type() != Some(T::spec_native_type()) {
                    r is Err && r->Err_0.spec_kind() == ErrorKind::Format && final(buffer)@ == old(buffer)@
                } else {
                    match file.spec_read_error::<T>(id, file.spec_length(id) as int) {
                        Some(kind) => r is Err && r->Err_0.spec_kind() == kind && final(buffer)@
                            == old(buffer)@,
                        None => {
                            &&& r is Ok
                            &&& final(buffer)@.len() == old(buffer)@.len() + file.spec_length(id)
                            &&& final(buffer)@.take(old(buffer)@.len() as int) == old(buffer)@
                            &&& file.spec_holds_values::<T>(
                                final(buffer)@.skip(old(buffer)@.len() as int),
                                id,
                            )
                        },
                    }
                }
            }),
    {
        let length = self.len();
        if length > usize::MAX as u64 {
            proof {
                self.file.lemma_length_is_count(self.spec_id());
            }
            return Err(
                TdmsReadError::format_with_number(
                    "Channel does not fit a buffer, its number of values is ",
                    length,
                ),
            );
        }
        proof {
            self.file.lemma_length_is_count(self.spec_id());
        }
        let mut values: Vec<T> = Vec::new();
        let mut i: u64 = 0;
        while i < length
            invariant
                i <= length,
                length <= usize::MAX,
                values@.len() == i,
            decreases length - i,
        {
            values.push(T::zero());
            i += 1;
        }
        match self.read_all_data(values.as_mut_slice()) {
            Ok(_) => {},
            Err(e) => {
                return Err(e);
            },
        }
        let ghost read = values@;
        buffer.append(&mut values);
        proof {
            assert(buffer@.take(old(buffer)@.len() as int) =~= old(buffer)@);
            assert(buffer@.skip(old(buffer)@.len() as int) =~= read);
        }
        Ok(())
    }
}

impl<'a> GroupIterator<'a> {
    /// The file whose groups these are.
    pub closed spec fn spec_file(&self) -> &'a TdmsFile {
        self.file
    }

    /// The ids of the groups that are yet to come, in order.
    pub closed spec fn spec_remaining(&self) -> Seq<nat> {
        ids_of(self.objects@).skip(self.position as int)
    }

    /// The file is well formed and every id is that of a group of it.
    pub closed spec fn wf(&self) -> bool {
        &&& self.file.wf()
        &&& self.position <= self.objects@.len()
        &&& forall|k: int|
            0 <= k < self.objects@.len() ==> (#[trigger] self.objects@[k]).0
                < self.file.spec_paths().len() && self.file.spec_paths()[self.objects@[k].0 as int] is Group
    }

    fn new(file: &'a TdmsFile) -> (r: GroupIterator<'a>)
        requires
            file.wf(),
        ensures
            r.wf(),
            r.spec_file() == file,
            r.spec_remaining() == group_ids(file.spec_paths(), file.spec_paths().len() as int),
    {
        let objects = file.tdms_reader.objects();
        let ghost paths = file.spec_paths();
        let mut group_objects: Vec<ObjectPathId> = Vec::new();
        let mut i: usize = 0;
        assert(ids_of(group_objects@) =~= group_ids(paths, 0));
        while i < objects.len()
            invariant
                i <= objects@.len(),
                objects@.len() == paths.len(),
                paths == file.spec_paths(),
                forall|k: int|
                    0 <= k < objects@.len() ==> (#[trigger] objects@[k]).0 == ObjectPathId(
                        k as usize,
                    ) && objects@[k].1@ == paths[k],
                ids_of(group_objects@) == group_ids(paths, i as int),
                forall|k: int|
                    0 <= k < group_objects@.len() ==> (#[trigger] group_objects@[k]).0 < paths.len()
                        && paths[group_objects@[k].0 as int] is Group,
            decreases objects@.len() - i,
        {
            let (id, path) = objects[i];
            let ghost before = group_objects@;
            let is_group = match path {
                ObjectPath::Group(_) => true,
                _ => false,
            };
            if is_group {
                group_objects.push(id);
                assert(ids_of(group_objects@) =~= ids_of(before).push(i as nat));
            }
            i += 1;
        }
        let r = GroupIterator { file, objects: group_objects, position: 0 };
        assert(r.spec_remaining() =~= ids_of(group_objects@));
        r
    }

    /// The next group, if there is one.
    pub fn next(&mut self) -> (r: Option<Group<'a>>)
        requires
            old(self).wf(),
        ensures
            final(self).wf(),
            final(self).spec_file() == old(self).spec_file(),
            match r {
                Some(group) => {
                    &&& old(self).spec_remaining().len() > 0
                    &&& group.wf()
                    &&& group.spec_file() == old(self).spec_file()
                    &&& group.spec_id() == old(self).spec_remaining()[0]
                    &&& final(self).spec_remaining() == old(self).spec_remaining().drop_first()
                },
                None => old(self).spec_remaining().len() == 0 && final(self).spec_remaining()
                    == old(self).spec_remaining(),
            },
    {
        if self.position < self.objects.len() {
            let object_id = self.objects[self.position];
            self.position = self.position + 1;
            proof {
                assert(self.spec_remaining() =~= old(self).spec_remaining().drop_first());
            }
            Some(Group::new(self.file, object_id))
        } else {
            None
        }
    }
}

impl<'a> ChannelIterator<'a> {
    /// The file whose channels these are.
    pub closed spec fn spec_file(&self) -> &'a TdmsFile {
        self.file
    }

    /// The ids of the channels that are yet to come, in order.
    pub closed spec fn spec_remaining(&self) -> Seq<nat> {
        ids_of(self.objects@).skip(self.position as int)
    }

    /// The file is well formed and every id is that of a channel of it.
    pub closed spec fn wf(&self) -> bool {
        &&& self.file.wf()
        &&& self.position <= self.objects@.len()
        &&& forall|k: int|
            0 <= k < self.objects@.len() ==> (#[trigger] self.objects@[k]).0
                < self.file.spec_paths().len() && self.file.spec_paths()[self.objects@[k].0 as int] is Channel
    }

    fn new(file: &'a TdmsFile, group_name: &str) -> (r: ChannelIterator<'a>)
        requires
            file.wf(),
        ensures
            r.wf(),
            r.spec_file() == file,
            r.spec_remaining() == channel_ids(
                file.spec_paths(),
                group_name@,
                file.spec_paths().len() as int,
            ),
    {
        let objects = file.tdms_reader.objects();
        let ghost paths = file.spec_paths();
        let mut channel_objects: Vec<ObjectPathId> = Vec::new();
        let mut i: usize = 0;
        assert(ids_of(channel_objects@) =~= channel_ids(paths, group_name@, 0));
        while i < objects.len()
            invariant
                i <= objects@.len(),
                objects@.len() == paths.len(),
                paths == file.spec_paths(),
                forall|k: int|
                    0 <= k < objects@.len() ==> (#[trigger] objects@[k]).0 == ObjectPathId(
                        k as usize,
                    ) && objects@[k].1@ == paths[k],
                ids_of(channel_objects@) == channel_ids(paths, group_name@, i as int),
                forall|k: int|
                    0 <= k < channel_objects@.len() ==> (#[trigger] channel_objects@[k]).0
                        < paths.len() && paths[channel_objects@[k].0 as int] is Channel,
            decreases objects@.len() - i,
        {
            let (id, path) = objects[i];
            let ghost before = channel_objects@;
            let in_group = match path {
                ObjectPath::Channel(g, _) => str_eq(g.as_str(), group_name),
                _ => false,
            };
            if in_group {
                channel_objects.push(id);
                assert(ids_of(channel_objects@) =~= ids_of(before).push(i as nat));
            }
            i += 1;
        }
        let r = ChannelIterator { file, objects: channel_objects, position: 0 };
        assert(r.spec_remaining() =~= ids_of(channel_objects@));
        r
    }

    /// The next channel, if there is one.
    pub fn next(&mut self) -> (r: Option<Channel<'a>>)
        requires
            old(self).wf(),
        ensures
            final(self).wf(),
            final(self).spec_file() == old(self).spec_file(),
            match r {
                Some(channel) => {
                    &&& old(self).spec_remaining().len() > 0
                    &&& channel.wf()
                    &&& channel.spec_file() == old(self).spec_file()
                    &&& channel.spec_id() == old(self).spec_remaining()[0]
                    &&& final(self).spec_remaining() == old(self).spec_remaining().drop_first()
                },
                None => old(self).spec_remaining().len() == 0 && final(self).spec_remaining()
                    == old(self).spec_remaining(),
            },
    {
        if self.position < self.objects.len() {
            let object_id = self.objects[self.position];
            self.position = self.position + 1;
            proof {
                assert(self.spec_remaining() =~= old(self).spec_remaining().drop_first());
            }
            Some(Channel::new(self.file, object_id))
        } else {
            None
        }
    }
}

} // verus!
