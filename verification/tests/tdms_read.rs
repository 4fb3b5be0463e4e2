use rstdms::{
    Float32Bits, Float64Bits, TdmsFile, TdmsProperty, TdmsReadError, TdmsValue, TdsType,
    Timestamp,
};

struct TestFile {
    bytes: Vec<u8>,
}

const TOC_METADATA: u32 = 1 << 1;
const TOC_NEW_OBJ_LIST: u32 = 1 << 2;
const TOC_RAW_DATA: u32 = 1 << 3;
const TOC_INTERLEAVED_DATA: u32 = 1 << 5;
const TOC_BIG_ENDIAN: u32 = 1 << 6;

const NO_DATA: [u8; 4] = [0xFF, 0xFF, 0xFF, 0xFF];

impl TestFile {
    fn new() -> TestFile {
        TestFile { bytes: Vec::new() }
    }

    fn add_segment(&mut self, toc_mask: u32, metadata_bytes: &Vec<u8>, data_bytes: &Vec<u8>) {
        // TDSm tag
        self.bytes.extend(&[0x54, 0x44, 0x53, 0x6D]);

        // ToC mask
        self.bytes.extend(&toc_mask.to_le_bytes());

        // Version number
        self.bytes.extend(&[0x69, 0x12, 0x00, 0x00]);

        // Offsets
        let raw_data_offset = metadata_bytes.len();
        let next_segment_offset = raw_data_offset + data_bytes.len();
        self.bytes
            .extend(&(next_segment_offset as u64).to_le_bytes());
        self.bytes.extend(&(raw_data_offset as u64).to_le_bytes());

        self.bytes.extend(metadata_bytes);
        self.bytes.extend(data_bytes);
    }

    fn to_bytes(self) -> Vec<u8> {
        self.bytes
    }
}

fn object_metadata(
    path: &'static str,
    raw_data_index: &[u8],
    properties: Vec<(&'static str, u32, &[u8])>,
) -> Vec<u8> {
    let mut metadata_bytes = Vec::new();
    write_string(path, &mut metadata_bytes);
    metadata_bytes.extend(raw_data_index);
    metadata_bytes.extend(&((properties.len() as u32).to_le_bytes()));
    for (name, type_id, val) in properties {
        write_string(name, &mut metadata_bytes);
        metadata_bytes.extend(&(type_id.to_le_bytes()));
        metadata_bytes.extend(val);
    }
    metadata_bytes
}

fn raw_data_index(data_type: u32, number_of_values: u64) -> Vec<u8> {
    let mut index_bytes = Vec::new();
    index_bytes.extend(&(20_u32.to_le_bytes())); // Raw data index length
    index_bytes.extend(&(data_type.to_le_bytes())); // Data type
    index_bytes.extend(&(1_u32.to_le_bytes())); // Dimension
    index_bytes.extend(&(number_of_values.to_le_bytes())); // Number of values
    index_bytes
}

fn metadata(objects: Vec<Vec<u8>>) -> Vec<u8> {
    let mut metadata_bytes = Vec::new();
    metadata_bytes.extend(&((objects.len() as u32).to_le_bytes()));
    for object in objects {
        metadata_bytes.extend(object);
    }
    metadata_bytes
}

fn data_bytes_i32(data: Vec<i32>) -> Vec<u8> {
    let mut bytes = Vec::new();
    for val in data {
        bytes.extend(&(val.to_le_bytes()));
    }
    bytes
}

fn write_string(string: &str, bytes: &mut Vec<u8>) {
    bytes.extend(&(string.len() as u32).to_le_bytes());
    bytes.extend(string.bytes());
}

fn read_i32(tdms_file: &TdmsFile, group_name: &str, channel_name: &str) -> Vec<i32> {
    let group = tdms_file.group(group_name).unwrap();
    let channel = group.channel(channel_name).unwrap();
    let mut data: Vec<i32> = vec![0; channel.len() as usize];
    channel.read_all_data(&mut data[..]).unwrap();
    data
}

fn expect_format_error<T>(result: Result<T, TdmsReadError>) {
    match result {
        Err(TdmsReadError::TdmsError(_)) => {}
        Err(_) => panic!("Expected a format error, got another error"),
        Ok(_) => panic!("Expected a format error, got a value"),
    }
}

fn expect_io_error<T>(result: Result<T, TdmsReadError>) {
    match result {
        Err(TdmsReadError::IoError(_)) => {}
        Err(_) => panic!("Expected an IO error, got another error"),
        Ok(_) => panic!("Expected an IO error, got a value"),
    }
}

#[test]
fn read_metadata() {
    let mut test_file = TestFile::new();
    let metadata_bytes = metadata(vec![
        object_metadata(
            "/",
            &NO_DATA,
            vec![("test_property", 3, &10_i32.to_le_bytes())],
        ),
        object_metadata("/'Group'/'Channel1'", &raw_data_index(3, 3), Vec::new()),
    ]);
    let data_bytes = data_bytes_i32(vec![1, 2, 3]);
    let toc_mask = TOC_METADATA | TOC_NEW_OBJ_LIST | TOC_RAW_DATA;
    test_file.add_segment(toc_mask, &metadata_bytes, &data_bytes);

    let tdms_file = TdmsFile::new(test_file.to_bytes());

    assert!(tdms_file.is_ok(), "Got error: {:?}", tdms_file.unwrap_err());

    let tdms_file = tdms_file.unwrap();
    let group = tdms_file.group("Group").unwrap();
    let channel = group.channel("Channel1").unwrap();
    let mut data: Vec<i32> = vec![0; channel.len() as usize];
    channel.read_all_data(&mut data[..]).unwrap();

    assert_eq!(data, vec![1, 2, 3]);
}

#[test]
fn read_metadata_with_repeated_raw_data_index() {
    let mut test_file = TestFile::new();
    let metadata_bytes = metadata(vec![object_metadata(
        "/'Group'/'Channel1'",
        &raw_data_index(3, 3),
        Vec::new(),
    )]);
    let data_bytes = data_bytes_i32(vec![1, 2, 3]);
    let toc_mask = TOC_METADATA | TOC_NEW_OBJ_LIST | TOC_RAW_DATA;
    test_file.add_segment(toc_mask, &metadata_bytes, &data_bytes);
    let metadata_bytes = metadata(vec![object_metadata(
        "/'Group'/'Channel1'",
        &(0_u32.to_le_bytes()), // Raw data index matches previous
        Vec::new(),
    )]);
    test_file.add_segment(toc_mask, &metadata_bytes, &data_bytes);

    let tdms_file = TdmsFile::new(test_file.to_bytes());

    assert!(tdms_file.is_ok(), "Got error: {:?}", tdms_file.unwrap_err());

    let tdms_file = tdms_file.unwrap();
    let group = tdms_file.group("Group").unwrap();
    let channel = group.channel("Channel1").unwrap();
    let mut data: Vec<i32> = vec![0; channel.len() as usize];
    channel.read_all_data(&mut data[..]).unwrap();

    assert_eq!(data, vec![1, 2, 3, 1, 2, 3]);
}

#[test]
fn multiple_channels() {
    let mut test_file = TestFile::new();
    let metadata_bytes = metadata(vec![
        object_metadata("/'Group'/'Channel1'", &raw_data_index(3, 2), Vec::new()),
        object_metadata("/'Group'/'Channel2'", &raw_data_index(3, 3), Vec::new()),
        object_metadata("/'Group'/'Channel3'", &raw_data_index(3, 4), Vec::new()),
    ]);
    let data_bytes = data_bytes_i32(vec![1, 2, 3, 4, 5, 6, 7, 8, 9]);
    let toc_mask = TOC_METADATA | TOC_NEW_OBJ_LIST | TOC_RAW_DATA;
    test_file.add_segment(toc_mask, &metadata_bytes, &data_bytes);

    let tdms_file = TdmsFile::new(test_file.to_bytes());

    assert!(tdms_file.is_ok(), "Got error: {:?}", tdms_file.unwrap_err());

    let tdms_file = tdms_file.unwrap();
    let group = tdms_file.group("Group").unwrap();

    let expected_data = vec![vec![1, 2], vec![3, 4, 5], vec![6, 7, 8, 9]];

    for (i, channel_name) in vec!["Channel1", "Channel2", "Channel3"].iter().enumerate() {
        let channel = group.channel(channel_name).unwrap();
        let mut data: Vec<i32> = vec![0; channel.len() as usize];
        channel.read_all_data(&mut data[..]).unwrap();
        assert_eq!(data, expected_data[i]);
    }
}

#[test]
fn interleaved_data() {
    let mut test_file = TestFile::new();
    let metadata_bytes = metadata(vec![
        object_metadata("/'Group'/'Channel1'", &raw_data_index(3, 4), Vec::new()),
        object_metadata("/'Group'/'Channel2'", &raw_data_index(3, 4), Vec::new()),
        object_metadata("/'Group'/'Channel3'", &raw_data_index(3, 4), Vec::new()),
    ]);
    let data_bytes = data_bytes_i32(vec![1, 2, 3, 4, 5, 6, 7, 8, 9, 10, 11, 12]);

    let toc_mask = TOC_METADATA | TOC_NEW_OBJ_LIST | TOC_RAW_DATA | TOC_INTERLEAVED_DATA;
    test_file.add_segment(toc_mask, &metadata_bytes, &data_bytes);

    let tdms_file = TdmsFile::new(test_file.to_bytes());

    assert!(tdms_file.is_ok(), "Got error: {:?}", tdms_file.unwrap_err());

    let tdms_file = tdms_file.unwrap();
    let group = tdms_file.group("Group").unwrap();

    let expected_data = vec![vec![1, 4, 7, 10], vec![2, 5, 8, 11], vec![3, 6, 9, 12]];

    for (i, channel_name) in vec!["Channel1", "Channel2", "Channel3"].iter().enumerate() {
        let channel = group.channel(channel_name).unwrap();
        let mut data: Vec<i32> = vec![0; channel.len() as usize];
        channel.read_all_data(&mut data[..]).unwrap();
        assert_eq!(data, expected_data[i]);
    }
}

#[test]
fn iterate_over_objects() {
    let mut test_file = TestFile::new();
    let metadata_bytes = metadata(vec![
        object_metadata("/'Group1'", &NO_DATA, Vec::new()),
        object_metadata("/'Group1'/'Channel1_1'", &raw_data_index(3, 1), Vec::new()),
        object_metadata("/'Group1'/'Channel1_2'", &raw_data_index(3, 1), Vec::new()),
        object_metadata("/'Group2'", &NO_DATA, Vec::new()),
        object_metadata("/'Group2'/'Channel2_1'", &raw_data_index(3, 1), Vec::new()),
        object_metadata("/'Group2'/'Channel2_2'", &raw_data_index(3, 1), Vec::new()),
    ]);
    let data_bytes = data_bytes_i32(vec![1, 2, 3, 4]);
    let toc_mask = TOC_METADATA | TOC_NEW_OBJ_LIST;
    test_file.add_segment(toc_mask, &metadata_bytes, &data_bytes);

    let tdms_file = TdmsFile::new(test_file.to_bytes());

    assert!(tdms_file.is_ok(), "Got error: {:?}", tdms_file.unwrap_err());

    let tdms_file = tdms_file.unwrap();
    let expected_groups = vec!["Group1", "Group2"];
    let expected_channels = vec![
        vec!["Channel1_1", "Channel1_2"],
        vec!["Channel2_1", "Channel2_2"],
    ];
    let mut groups = tdms_file.groups();
    let mut group_idx = 0;
    while let Some(group) = groups.next() {
        assert_eq!(group.name(), expected_groups[group_idx]);
        let mut channels = group.channels();
        let mut channel_idx = 0;
        while let Some(channel) = channels.next() {
            assert_eq!(channel.name(), expected_channels[group_idx][channel_idx]);
            channel_idx += 1;
        }
        assert_eq!(channel_idx, 2);
        group_idx += 1;
    }
    assert_eq!(group_idx, 2);
}

#[test]
fn properties_of_the_file_its_groups_and_channels() {
    let mut test_file = TestFile::new();
    let metadata_bytes = metadata(vec![
        object_metadata(
            "/",
            &NO_DATA,
            vec![("test_property", 3, &10_i32.to_le_bytes())],
        ),
        object_metadata(
            "/'Group'",
            &NO_DATA,
            vec![
                ("first", 5, &[7u8]),
                ("second", 0x20, &[2, 0, 0, 0, 0x68, 0x69]),
            ],
        ),
        object_metadata(
            "/'Group'/'Channel1'",
            &raw_data_index(3, 3),
            vec![("unit", 0x20, &[1, 0, 0, 0, 0x56])],
        ),
    ]);
    let data_bytes = data_bytes_i32(vec![1, 2, 3]);
    let toc_mask = TOC_METADATA | TOC_NEW_OBJ_LIST | TOC_RAW_DATA;
    test_file.add_segment(toc_mask, &metadata_bytes, &data_bytes);
    let more = metadata(vec![object_metadata(
        "/'Group'",
        &NO_DATA,
        vec![("third", 2, &[0xFF, 0xFF])],
    )]);
    test_file.add_segment(TOC_METADATA | TOC_RAW_DATA, &more, &data_bytes);

    let tdms_file = TdmsFile::new(test_file.to_bytes()).unwrap();

    assert_eq!(
        tdms_file.properties(),
        &[TdmsProperty {
            name: "test_property".to_string(),
            value: TdmsValue::Int32(10)
        }]
    );
    let group = tdms_file.group("Group").unwrap();
    assert_eq!(
        group.properties(),
        &[
            TdmsProperty {
                name: "first".to_string(),
                value: TdmsValue::Uint8(7)
            },
            TdmsProperty {
                name: "second".to_string(),
                value: TdmsValue::String("hi".to_string())
            },
            TdmsProperty {
                name: "third".to_string(),
                value: TdmsValue::Int16(-1)
            },
        ]
    );
    let channel = group.channel("Channel1").unwrap();
    assert_eq!(
        channel.properties(),
        &[TdmsProperty {
            name: "unit".to_string(),
            value: TdmsValue::String("V".to_string())
        }]
    );
    assert_eq!(channel.name(), "Channel1");
    assert_eq!(channel.data_type(), TdsType::I32);
    assert_eq!(channel.len(), 6);
    assert_eq!(read_i32(&tdms_file, "Group", "Channel1"), vec![1, 2, 3, 1, 2, 3]);
}

#[test]
fn a_group_that_is_never_declared_has_no_properties() {
    let mut test_file = TestFile::new();
    let metadata_bytes = metadata(vec![object_metadata(
        "/'Implicit'/'Channel'",
        &raw_data_index(3, 1),
        Vec::new(),
    )]);
    let toc_mask = TOC_METADATA | TOC_NEW_OBJ_LIST | TOC_RAW_DATA;
    test_file.add_segment(toc_mask, &metadata_bytes, &data_bytes_i32(vec![5]));

    let tdms_file = TdmsFile::new(test_file.to_bytes()).unwrap();

    assert!(tdms_file.properties().is_empty());
    let group = tdms_file.group("Implicit").unwrap();
    assert_eq!(group.name(), "Implicit");
    assert!(group.properties().is_empty());
    assert!(tdms_file.group("Other").is_none());
    assert!(group.channel("Other").is_none());
    assert_eq!(read_i32(&tdms_file, "Implicit", "Channel"), vec![5]);
}

#[test]
fn an_empty_file_has_no_groups() {
    let tdms_file = TdmsFile::new(Vec::new()).unwrap();

    assert!(tdms_file.groups().next().is_none());
    assert!(tdms_file.properties().is_empty());
    assert!(tdms_file.group("Group").is_none());
}

#[test]
fn a_first_segment_without_metadata_has_no_objects() {
    let mut test_file = TestFile::new();
    test_file.add_segment(TOC_RAW_DATA, &Vec::new(), &data_bytes_i32(vec![1, 2]));

    let tdms_file = TdmsFile::new(test_file.to_bytes()).unwrap();

    assert!(tdms_file.groups().next().is_none());
}

#[test]
fn a_segment_repeats_its_chunk() {
    let mut test_file = TestFile::new();
    let metadata_bytes = metadata(vec![
        object_metadata("/'Group'/'Channel1'", &raw_data_index(3, 2), Vec::new()),
        object_metadata("/'Group'/'Channel2'", &raw_data_index(2, 1), Vec::new()),
    ]);
    let mut data_bytes = Vec::new();
    for repetition in 0..3 {
        data_bytes.extend(data_bytes_i32(vec![10 * repetition + 1, 10 * repetition + 2]));
        data_bytes.extend(&((100 + repetition) as i16).to_le_bytes());
    }
    // Two bytes that are no whole chunk are not read
    data_bytes.extend(&[0xEE, 0xEE]);
    let toc_mask = TOC_METADATA | TOC_NEW_OBJ_LIST | TOC_RAW_DATA;
    test_file.add_segment(toc_mask, &metadata_bytes, &data_bytes);

    let tdms_file = TdmsFile::new(test_file.to_bytes()).unwrap();
    let group = tdms_file.group("Group").unwrap();

    let channel = group.channel("Channel1").unwrap();
    assert_eq!(channel.len(), 6);
    assert_eq!(
        read_i32(&tdms_file, "Group", "Channel1"),
        vec![1, 2, 11, 12, 21, 22]
    );
    let channel = group.channel("Channel2").unwrap();
    assert_eq!(channel.len(), 3);
    assert_eq!(channel.data_type(), TdsType::I16);
    let mut data = vec![0i16; 3];
    channel.read_all_data(&mut data[..]).unwrap();
    assert_eq!(data, vec![100, 101, 102]);
}

#[test]
fn interleaved_chunks_of_two_widths_are_repeated() {
    let mut test_file = TestFile::new();
    let metadata_bytes = metadata(vec![
        object_metadata("/'Group'/'Wide'", &raw_data_index(3, 2), Vec::new()),
        object_metadata("/'Group'/'Narrow'", &raw_data_index(6, 2), Vec::new()),
    ]);
    let mut data_bytes = Vec::new();
    for sample in 0..4 {
        data_bytes.extend(&(1000 + sample as i32).to_le_bytes());
        data_bytes.extend(&(7 + sample as u16).to_le_bytes());
    }
    let toc_mask = TOC_METADATA | TOC_NEW_OBJ_LIST | TOC_RAW_DATA | TOC_INTERLEAVED_DATA;
    test_file.add_segment(toc_mask, &metadata_bytes, &data_bytes);

    let tdms_file = TdmsFile::new(test_file.to_bytes()).unwrap();
    let group = tdms_file.group("Group").unwrap();

    assert_eq!(group.channel("Wide").unwrap().len(), 4);
    assert_eq!(
        read_i32(&tdms_file, "Group", "Wide"),
        vec![1000, 1001, 1002, 1003]
    );
    let narrow = group.channel("Narrow").unwrap();
    let mut data = vec![0u16; 4];
    narrow.read_all_data(&mut data[..]).unwrap();
    assert_eq!(data, vec![7, 8, 9, 10]);
}

#[test]
fn every_interleaved_value_is_its_window_of_the_chunk() {
    let mut test_file = TestFile::new();
    let metadata_bytes = metadata(vec![
        object_metadata("/'g'/'a'", &raw_data_index(5, 3), Vec::new()),
        object_metadata("/'g'/'b'", &raw_data_index(7, 3), Vec::new()),
        object_metadata("/'g'/'c'", &raw_data_index(6, 3), Vec::new()),
    ]);
    let data_bytes: Vec<u8> = (0..21).collect();
    let toc_mask = TOC_METADATA | TOC_NEW_OBJ_LIST | TOC_RAW_DATA | TOC_INTERLEAVED_DATA;
    test_file.add_segment(toc_mask, &metadata_bytes, &data_bytes);

    let tdms_file = TdmsFile::new(test_file.to_bytes()).unwrap();
    let group = tdms_file.group("g").unwrap();

    let mut b = vec![0u32; 3];
    group.channel("b").unwrap().read_all_data(&mut b[..]).unwrap();
    let mut c = vec![0u16; 3];
    group.channel("c").unwrap().read_all_data(&mut c[..]).unwrap();
    for sample in 0..3 {
        let window = 7 * sample + 1;
        assert_eq!(
            b[sample],
            u32::from_le_bytes([
                data_bytes[window],
                data_bytes[window + 1],
                data_bytes[window + 2],
                data_bytes[window + 3]
            ])
        );
        let window = 7 * sample + 5;
        assert_eq!(
            c[sample],
            u16::from_le_bytes([data_bytes[window], data_bytes[window + 1]])
        );
    }
}

#[test]
fn a_big_endian_segment_is_read_in_its_byte_order() {
    let mut bytes = vec![0x54, 0x44, 0x53, 0x6D];
    let toc_mask = TOC_METADATA | TOC_NEW_OBJ_LIST | TOC_RAW_DATA | TOC_BIG_ENDIAN;
    bytes.extend(&toc_mask.to_le_bytes());
    bytes.extend(&4713_i32.to_be_bytes());
    let mut metadata_bytes = Vec::new();
    metadata_bytes.extend(&1_u32.to_be_bytes());
    let path = "/'g'/'c'";
    metadata_bytes.extend(&(path.len() as u32).to_be_bytes());
    metadata_bytes.extend(path.bytes());
    metadata_bytes.extend(&20_u32.to_be_bytes());
    metadata_bytes.extend(&2_u32.to_be_bytes());
    metadata_bytes.extend(&1_u32.to_be_bytes());
    metadata_bytes.extend(&2_u64.to_be_bytes());
    metadata_bytes.extend(&1_u32.to_be_bytes());
    metadata_bytes.extend(&1_u32.to_be_bytes());
    metadata_bytes.extend("t".bytes());
    metadata_bytes.extend(&0x44_u32.to_be_bytes());
    metadata_bytes.extend(&5_i64.to_be_bytes());
    metadata_bytes.extend(&6_u64.to_be_bytes());
    let data_bytes = vec![0x01, 0x02, 0xFF, 0xFE];
    bytes.extend(&((metadata_bytes.len() + data_bytes.len()) as u64).to_be_bytes());
    bytes.extend(&(metadata_bytes.len() as u64).to_be_bytes());
    bytes.extend(&metadata_bytes);
    bytes.extend(&data_bytes);

    let tdms_file = TdmsFile::new(bytes).unwrap();
    let group = tdms_file.group("g").unwrap();
    let channel = group.channel("c").unwrap();

    assert_eq!(
        channel.properties(),
        &[TdmsProperty {
            name: "t".to_string(),
            value: TdmsValue::Timestamp(Timestamp::new(5, 6))
        }]
    );
    let mut data = vec![0i16; 2];
    channel.read_all_data(&mut data[..]).unwrap();
    assert_eq!(data, vec![0x0102, -2]);
}

#[test]
fn objects_of_a_later_segment_are_merged_into_the_list() {
    let mut test_file = TestFile::new();
    let metadata_bytes = metadata(vec![
        object_metadata("/'Group'/'Channel1'", &raw_data_index(3, 1), Vec::new()),
        object_metadata("/'Group'/'Channel2'", &raw_data_index(3, 2), Vec::new()),
    ]);
    let toc_mask = TOC_METADATA | TOC_NEW_OBJ_LIST | TOC_RAW_DATA;
    test_file.add_segment(toc_mask, &metadata_bytes, &data_bytes_i32(vec![1, 2, 3]));
    // The first channel gets more values and keeps its place, a third channel comes last
    let metadata_bytes = metadata(vec![
        object_metadata("/'Group'/'Channel3'", &raw_data_index(3, 1), Vec::new()),
        object_metadata("/'Group'/'Channel1'", &raw_data_index(3, 2), Vec::new()),
    ]);
    test_file.add_segment(
        TOC_METADATA | TOC_RAW_DATA,
        &metadata_bytes,
        &data_bytes_i32(vec![4, 5, 6, 7, 8]),
    );
    // Without metadata the list of the segment before is used again
    test_file.add_segment(
        TOC_RAW_DATA,
        &Vec::new(),
        &data_bytes_i32(vec![9, 10, 11, 12, 13]),
    );

    let tdms_file = TdmsFile::new(test_file.to_bytes()).unwrap();

    assert_eq!(
        read_i32(&tdms_file, "Group", "Channel1"),
        vec![1, 4, 5, 9, 10]
    );
    assert_eq!(
        read_i32(&tdms_file, "Group", "Channel2"),
        vec![2, 3, 6, 7, 11, 12]
    );
    assert_eq!(read_i32(&tdms_file, "Group", "Channel3"), vec![8, 13]);
}

#[test]
fn the_length_is_the_sum_over_the_segments() {
    let mut test_file = TestFile::new();
    let toc_mask = TOC_METADATA | TOC_NEW_OBJ_LIST | TOC_RAW_DATA;
    let metadata_bytes = metadata(vec![object_metadata(
        "/'g'/'c'",
        &raw_data_index(5, 3),
        Vec::new(),
    )]);
    test_file.add_segment(toc_mask, &metadata_bytes, &vec![1u8; 12]);
    let metadata_bytes = metadata(vec![object_metadata(
        "/'g'/'c'",
        &raw_data_index(5, 5),
        Vec::new(),
    )]);
    test_file.add_segment(toc_mask, &metadata_bytes, &vec![2u8; 10]);
    test_file.add_segment(TOC_RAW_DATA, &Vec::new(), &vec![3u8; 17]);

    let tdms_file = TdmsFile::new(test_file.to_bytes()).unwrap();
    let group = tdms_file.group("g").unwrap();
    let channel = group.channel("c").unwrap();

    assert_eq!(channel.len(), 3 * 4 + 5 * 2 + 5 * 3);
    let mut data = vec![0u8; 40];
    channel.read_all_data(&mut data[..]).unwrap();
    let mut expected = vec![1u8; 12];
    expected.extend(vec![2u8; 10]);
    expected.extend(vec![3u8; 15]);
    expected.extend(vec![0u8; 3]);
    assert_eq!(data, expected);

    let mut again = vec![0u8; 40];
    channel.read_all_data(&mut again[..]).unwrap();
    assert_eq!(again, data);
}

#[test]
fn a_channel_without_data_is_void_and_empty() {
    let mut test_file = TestFile::new();
    let metadata_bytes = metadata(vec![object_metadata("/'g'/'c'", &NO_DATA, Vec::new())]);
    test_file.add_segment(TOC_METADATA | TOC_NEW_OBJ_LIST, &metadata_bytes, &Vec::new());

    let tdms_file = TdmsFile::new(test_file.to_bytes()).unwrap();
    let group = tdms_file.group("g").unwrap();
    let channel = group.channel("c").unwrap();

    assert_eq!(channel.data_type(), TdsType::Void);
    assert_eq!(channel.len(), 0);
    let mut data = vec![7.5_f64.to_bits(); 2];
    let mut bits: Vec<Float64Bits> = data.drain(..).map(Float64Bits).collect();
    channel.read_all_data(&mut bits[..]).unwrap();
    assert_eq!(bits, vec![Float64Bits(7.5_f64.to_bits()); 2]);
}

#[test]
fn floats_and_timestamps_are_read_from_channels() {
    let mut test_file = TestFile::new();
    let metadata_bytes = metadata(vec![
        object_metadata("/'g'/'single'", &raw_data_index(9, 2), Vec::new()),
        object_metadata("/'g'/'double'", &raw_data_index(0x1A, 1), Vec::new()),
        object_metadata("/'g'/'time'", &raw_data_index(0x44, 1), Vec::new()),
    ]);
    let mut data_bytes = Vec::new();
    data_bytes.extend(&1.5_f32.to_le_bytes());
    data_bytes.extend(&(-2.0_f32).to_le_bytes());
    data_bytes.extend(&0.125_f64.to_le_bytes());
    data_bytes.extend(&9_u64.to_le_bytes());
    data_bytes.extend(&(-3_i64).to_le_bytes());
    let toc_mask = TOC_METADATA | TOC_NEW_OBJ_LIST | TOC_RAW_DATA;
    test_file.add_segment(toc_mask, &metadata_bytes, &data_bytes);

    let tdms_file = TdmsFile::new(test_file.to_bytes()).unwrap();
    let group = tdms_file.group("g").unwrap();

    let mut single = vec![Float32Bits(0); 2];
    group
        .channel("single")
        .unwrap()
        .read_all_data(&mut single[..])
        .unwrap();
    assert_eq!(f32::from_bits(single[0].0), 1.5);
    assert_eq!(f32::from_bits(single[1].0), -2.0);
    let mut double = vec![Float64Bits(0); 1];
    group
        .channel("double")
        .unwrap()
        .read_all_data(&mut double[..])
        .unwrap();
    assert_eq!(f64::from_bits(double[0].0), 0.125);
    let mut time = vec![Timestamp::new(0, 0); 1];
    group
        .channel("time")
        .unwrap()
        .read_all_data(&mut time[..])
        .unwrap();
    assert_eq!(time, vec![Timestamp::new(-3, 9)]);
}

#[test]
fn a_buffer_of_another_kind_or_too_short_is_refused() {
    let mut test_file = TestFile::new();
    let metadata_bytes = metadata(vec![
        object_metadata("/'g'/'c'", &raw_data_index(3, 3), Vec::new()),
        object_metadata("/'g'/'s'", &{
            let mut index = raw_data_index(0x20, 2);
            index.extend(&6_u64.to_le_bytes());
            index
        }, Vec::new()),
    ]);
    let mut data_bytes = data_bytes_i32(vec![1, 2, 3]);
    data_bytes.extend(&[0u8; 6]);
    let toc_mask = TOC_METADATA | TOC_NEW_OBJ_LIST | TOC_RAW_DATA;
    test_file.add_segment(toc_mask, &metadata_bytes, &data_bytes);

    let tdms_file = TdmsFile::new(test_file.to_bytes()).unwrap();
    let group = tdms_file.group("g").unwrap();
    let channel = group.channel("c").unwrap();

    let mut unsigned = vec![0u32; 3];
    expect_format_error(channel.read_all_data(&mut unsigned[..]));
    let mut short = vec![0i32; 2];
    expect_format_error(channel.read_all_data(&mut short[..]));
    assert_eq!(short, vec![0, 0]);
    let mut long = vec![-1i32; 4];
    channel.read_all_data(&mut long[..]).unwrap();
    assert_eq!(long, vec![1, 2, 3, -1]);

    let strings = group.channel("s").unwrap();
    assert_eq!(strings.data_type(), TdsType::String);
    assert_eq!(strings.len(), 2);
    let mut bytes = vec![0u8; 8];
    expect_format_error(strings.read_all_data(&mut bytes[..]));
}

#[test]
fn another_element_type_for_a_channel_is_a_format_error() {
    let mut test_file = TestFile::new();
    let toc_mask = TOC_METADATA | TOC_NEW_OBJ_LIST | TOC_RAW_DATA;
    let metadata_bytes = metadata(vec![object_metadata(
        "/'g'/'c'",
        &raw_data_index(3, 1),
        Vec::new(),
    )]);
    test_file.add_segment(toc_mask, &metadata_bytes, &data_bytes_i32(vec![1]));
    let metadata_bytes = metadata(vec![object_metadata(
        "/'g'/'c'",
        &raw_data_index(7, 1),
        Vec::new(),
    )]);
    test_file.add_segment(toc_mask, &metadata_bytes, &data_bytes_i32(vec![2]));

    expect_format_error(TdmsFile::new(test_file.to_bytes()));
}

#[test]
fn a_truncated_segment_cannot_be_opened() {
    let mut test_file = TestFile::new();
    let metadata_bytes = metadata(vec![object_metadata(
        "/'Group'/'Channel1'",
        &raw_data_index(3, 3),
        vec![("p", 3, &10_i32.to_le_bytes())],
    )]);
    let data_bytes = data_bytes_i32(vec![1, 2, 3]);
    let toc_mask = TOC_METADATA | TOC_NEW_OBJ_LIST | TOC_RAW_DATA;
    test_file.add_segment(toc_mask, &metadata_bytes, &data_bytes);
    let whole = test_file.to_bytes();
    let lead_in_and_metadata = whole.len() - data_bytes.len();

    assert!(TdmsFile::new(whole.clone()).is_ok());
    assert!(TdmsFile::new(Vec::new()).is_ok());
    for length in 1..4 {
        expect_format_error(TdmsFile::new(whole[..length].to_vec()));
    }
    for length in 4..lead_in_and_metadata {
        expect_io_error(TdmsFile::new(whole[..length].to_vec()));
    }
    // A second segment that ends inside its lead-in
    let mut two = whole.clone();
    two.extend(&whole[..20]);
    expect_io_error(TdmsFile::new(two));
    let mut two = whole.clone();
    two.extend(&whole[..2]);
    expect_format_error(TdmsFile::new(two));
    // Two whole segments
    let mut two = whole.clone();
    two.extend(&whole);
    assert!(TdmsFile::new(two).is_ok());
}

#[test]
fn raw_data_that_ends_early_is_an_io_error_when_it_is_read() {
    let mut test_file = TestFile::new();
    let metadata_bytes = metadata(vec![object_metadata(
        "/'g'/'c'",
        &raw_data_index(3, 3),
        Vec::new(),
    )]);
    let toc_mask = TOC_METADATA | TOC_NEW_OBJ_LIST | TOC_RAW_DATA;
    test_file.add_segment(toc_mask, &metadata_bytes, &data_bytes_i32(vec![1, 2, 3]));
    let mut bytes = test_file.to_bytes();
    bytes.truncate(bytes.len() - 1);

    let tdms_file = TdmsFile::new(bytes).unwrap();
    let group = tdms_file.group("g").unwrap();
    let channel = group.channel("c").unwrap();

    assert_eq!(channel.len(), 3);
    let mut data = vec![0i32; 3];
    expect_io_error(channel.read_all_data(&mut data[..]));
}

#[test]
fn a_segment_that_does_not_start_with_the_tag_is_a_format_error() {
    let mut test_file = TestFile::new();
    test_file.add_segment(TOC_METADATA | TOC_NEW_OBJ_LIST, &metadata(Vec::new()), &Vec::new());
    let mut bytes = test_file.to_bytes();
    assert!(TdmsFile::new(bytes.clone()).is_ok());
    bytes[3] = 0x4D;

    match TdmsFile::new(bytes) {
        Err(TdmsReadError::TdmsError(message)) => {
            assert_eq!(message, "Invalid segment header at position 0")
        }
        _ => panic!("Expected a format error"),
    }
}

#[test]
fn metadata_that_breaks_the_format_is_a_format_error() {
    let toc_mask = TOC_METADATA | TOC_NEW_OBJ_LIST | TOC_RAW_DATA;
    let mut dimension_two = Vec::new();
    dimension_two.extend(&20_u32.to_le_bytes());
    dimension_two.extend(&3_u32.to_le_bytes());
    dimension_two.extend(&2_u32.to_le_bytes());
    dimension_two.extend(&1_u64.to_le_bytes());
    let mut unknown_type = Vec::new();
    unknown_type.extend(&20_u32.to_le_bytes());
    unknown_type.extend(&12_u32.to_le_bytes());
    unknown_type.extend(&1_u32.to_le_bytes());
    unknown_type.extend(&1_u64.to_le_bytes());
    let mut too_large = Vec::new();
    too_large.extend(&20_u32.to_le_bytes());
    too_large.extend(&4_u32.to_le_bytes());
    too_large.extend(&1_u32.to_le_bytes());
    too_large.extend(&u64::MAX.to_le_bytes());
    let broken: Vec<Vec<u8>> = vec![
        object_metadata("/'g'/'c'", &dimension_two, Vec::new()),
        object_metadata("/'g'/'c'", &unknown_type, Vec::new()),
        object_metadata("/'g'/'c'", &too_large, Vec::new()),
        object_metadata("/'g'/'c'", &raw_data_index(0x4F, 1), Vec::new()),
        object_metadata("/'g'/'c'", &raw_data_index(0xFFFFFFFF, 1), Vec::new()),
        object_metadata("/'g'/'c'", &0_u32.to_le_bytes(), Vec::new()),
        object_metadata("/'g'/'c'", &0x1269_u32.to_le_bytes(), Vec::new()),
        object_metadata("/'g'/'c'", &0x126A_u32.to_le_bytes(), Vec::new()),
        object_metadata("/'a'/'b'/'c'", &NO_DATA, Vec::new()),
        object_metadata("/'g'", &NO_DATA, vec![("p", 0x21, &[1])]),
        object_metadata("/'g'", &NO_DATA, vec![("p", 99, &[1])]),
    ];
    for object in broken {
        let mut test_file = TestFile::new();
        test_file.add_segment(toc_mask, &metadata(vec![object]), &Vec::new());
        expect_format_error(TdmsFile::new(test_file.to_bytes()));
    }
}

#[test]
fn a_path_that_is_not_utf8_is_a_utf8_error() {
    let mut metadata_bytes = Vec::new();
    metadata_bytes.extend(&1_u32.to_le_bytes());
    metadata_bytes.extend(&2_u32.to_le_bytes());
    metadata_bytes.extend(&[0xC3, 0x28]);
    metadata_bytes.extend(&NO_DATA);
    metadata_bytes.extend(&0_u32.to_le_bytes());
    let mut test_file = TestFile::new();
    test_file.add_segment(TOC_METADATA | TOC_NEW_OBJ_LIST, &metadata_bytes, &Vec::new());

    match TdmsFile::new(test_file.to_bytes()) {
        Err(TdmsReadError::Utf8Error(_)) => {}
        _ => panic!("Expected a UTF-8 error"),
    }
}

#[test]
fn interleaved_channels_of_different_lengths_cannot_be_read() {
    let mut test_file = TestFile::new();
    let metadata_bytes = metadata(vec![
        object_metadata("/'g'/'a'", &raw_data_index(3, 2), Vec::new()),
        object_metadata("/'g'/'b'", &raw_data_index(3, 3), Vec::new()),
    ]);
    let toc_mask = TOC_METADATA | TOC_NEW_OBJ_LIST | TOC_RAW_DATA | TOC_INTERLEAVED_DATA;
    test_file.add_segment(toc_mask, &metadata_bytes, &data_bytes_i32(vec![1, 2, 3, 4, 5]));

    let tdms_file = TdmsFile::new(test_file.to_bytes()).unwrap();
    let group = tdms_file.group("g").unwrap();
    let channel = group.channel("a").unwrap();

    let mut data = vec![0i32; 2];
    expect_format_error(channel.read_all_data(&mut data[..]));
}

#[test]
fn error_messages_name_the_kind() {
    let format = TdmsReadError::format("Invalid data");
    assert_eq!(format.message(), "Invalid data");
    let io = TdmsReadError::short_read();
    assert_eq!(io.message(), "IO error");
    let utf8 = TdmsReadError::from(String::from_utf8(vec![0xFF]).unwrap_err());
    assert_eq!(utf8.message(), "UTF-8 decode error");
    match TdmsReadError::from(std::io::Error::from(std::io::ErrorKind::NotFound)) {
        TdmsReadError::IoError(error) => assert_eq!(error.kind(), std::io::ErrorKind::NotFound),
        _ => panic!("Expected an IO error"),
    }
}

fn segment_with_offsets(
    toc_mask: u32,
    next_segment_offset: u64,
    raw_data_offset: u64,
    rest: &Vec<u8>,
) -> Vec<u8> {
    let mut bytes = vec![0x54, 0x44, 0x53, 0x6D];
    bytes.extend(&toc_mask.to_le_bytes());
    bytes.extend(&[0x69, 0x12, 0x00, 0x00]);
    bytes.extend(&next_segment_offset.to_le_bytes());
    bytes.extend(&raw_data_offset.to_le_bytes());
    bytes.extend(rest);
    bytes
}

#[test]
fn a_next_segment_behind_the_end_of_the_file_ends_the_file() {
    let metadata_bytes = metadata(vec![object_metadata(
        "/'g'/'c'",
        &raw_data_index(3, 1),
        Vec::new(),
    )]);
    let mut rest = metadata_bytes.clone();
    rest.extend(data_bytes_i32(vec![1, 2]));
    let toc_mask = TOC_METADATA | TOC_NEW_OBJ_LIST | TOC_RAW_DATA;
    let bytes = segment_with_offsets(
        toc_mask,
        metadata_bytes.len() as u64 + 40,
        metadata_bytes.len() as u64,
        &rest,
    );

    let tdms_file = TdmsFile::new(bytes).unwrap();
    let group = tdms_file.group("g").unwrap();
    let channel = group.channel("c").unwrap();

    // Ten chunks lie before the next segment, two of them in the file
    assert_eq!(channel.len(), 10);
    let mut data = vec![0i32; 10];
    expect_io_error(channel.read_all_data(&mut data[..]));
    assert_eq!(&data[..2], &[1, 2]);
}

#[test]
fn a_next_segment_before_the_raw_data_leaves_no_chunk() {
    let metadata_bytes = metadata(vec![object_metadata(
        "/'g'/'c'",
        &raw_data_index(3, 1),
        Vec::new(),
    )]);
    let mut first = metadata_bytes.clone();
    first.extend(data_bytes_i32(vec![1]));
    let toc_mask = TOC_METADATA | TOC_NEW_OBJ_LIST | TOC_RAW_DATA;
    let mut bytes = segment_with_offsets(
        toc_mask,
        metadata_bytes.len() as u64 + 4,
        metadata_bytes.len() as u64 + 8,
        &first,
    );
    let mut second = metadata_bytes.clone();
    second.extend(data_bytes_i32(vec![7]));
    bytes.extend(segment_with_offsets(
        toc_mask,
        metadata_bytes.len() as u64 + 4,
        metadata_bytes.len() as u64,
        &second,
    ));

    let tdms_file = TdmsFile::new(bytes).unwrap();

    assert_eq!(read_i32(&tdms_file, "g", "c"), vec![7]);
}

#[test]
fn positions_that_do_not_fit_64_bits_are_a_format_error() {
    let toc_mask = TOC_METADATA | TOC_NEW_OBJ_LIST;
    let first = segment_with_offsets(toc_mask, 4, 4, &metadata(Vec::new()));
    assert!(TdmsFile::new(first.clone()).is_ok());

    let mut bytes = first.clone();
    bytes.extend(segment_with_offsets(toc_mask, u64::MAX - 59, 4, &metadata(Vec::new())));
    expect_format_error(TdmsFile::new(bytes));
    let mut bytes = first.clone();
    bytes.extend(segment_with_offsets(toc_mask, 4, u64::MAX, &metadata(Vec::new())));
    expect_format_error(TdmsFile::new(bytes));
    let mut bytes = first.clone();
    bytes.extend(segment_with_offsets(toc_mask, u64::MAX - 60, 4, &metadata(Vec::new())));
    assert!(TdmsFile::new(bytes).is_ok());
}

#[test]
fn chunks_of_no_bytes_are_not_repeated() {
    let mut test_file = TestFile::new();
    let metadata_bytes = metadata(vec![
        object_metadata("/'g'/'nothing'", &raw_data_index(3, 0), Vec::new()),
        object_metadata("/'g'/'void'", &raw_data_index(0, 5), Vec::new()),
    ]);
    let toc_mask = TOC_METADATA | TOC_NEW_OBJ_LIST | TOC_RAW_DATA;
    test_file.add_segment(toc_mask, &metadata_bytes, &vec![0u8; 16]);

    let tdms_file = TdmsFile::new(test_file.to_bytes()).unwrap();
    let group = tdms_file.group("g").unwrap();

    let nothing = group.channel("nothing").unwrap();
    assert_eq!(nothing.data_type(), TdsType::I32);
    assert_eq!(nothing.len(), 0);
    assert_eq!(read_i32(&tdms_file, "g", "nothing"), Vec::<i32>::new());
    let void = group.channel("void").unwrap();
    assert_eq!(void.data_type(), TdsType::Void);
    assert_eq!(void.len(), 0);
    let mut bytes = vec![0u8; 0];
    expect_format_error(void.read_all_data(&mut bytes[..]));
}

#[test]
fn a_channel_that_a_segment_lists_twice_is_read_once() {
    let mut test_file = TestFile::new();
    let metadata_bytes = metadata(vec![
        object_metadata("/'g'/'c'", &raw_data_index(3, 1), Vec::new()),
        object_metadata("/'g'/'c'", &raw_data_index(3, 2), Vec::new()),
    ]);
    let toc_mask = TOC_METADATA | TOC_NEW_OBJ_LIST | TOC_RAW_DATA;
    test_file.add_segment(toc_mask, &metadata_bytes, &data_bytes_i32(vec![1, 2, 3]));

    let tdms_file = TdmsFile::new(test_file.to_bytes()).unwrap();
    let group = tdms_file.group("g").unwrap();
    let channel = group.channel("c").unwrap();

    assert_eq!(channel.len(), 3);
    let mut data = vec![0i32; 3];
    channel.read_all_data(&mut data[..]).unwrap();
    assert_eq!(data, vec![1, 0, 0]);
}

#[test]
fn daqmx_raw_data_is_refused() {
    for header in vec![0x1269_u32, 0x126A] {
        let mut index = Vec::new();
        index.extend(&header.to_le_bytes());
        index.extend(&[0u8; 40]);
        let mut test_file = TestFile::new();
        let metadata_bytes = metadata(vec![object_metadata("/'g'/'c'", &index, Vec::new())]);
        test_file.add_segment(
            TOC_METADATA | TOC_NEW_OBJ_LIST | TOC_RAW_DATA | (1 << 7),
            &metadata_bytes,
            &Vec::new(),
        );
        expect_format_error(TdmsFile::new(test_file.to_bytes()));
    }
}

#[test]
fn data_is_added_to_the_end_of_a_vector() {
    let mut test_file = TestFile::new();
    let metadata_bytes = metadata(vec![
        object_metadata("/'g'/'c'", &raw_data_index(3, 2), Vec::new()),
        object_metadata("/'g'/'empty'", &NO_DATA, Vec::new()),
    ]);
    let toc_mask = TOC_METADATA | TOC_NEW_OBJ_LIST | TOC_RAW_DATA;
    test_file.add_segment(toc_mask, &metadata_bytes, &data_bytes_i32(vec![1, 2, 3, 4]));

    let tdms_file = TdmsFile::new(test_file.to_bytes()).unwrap();
    let group = tdms_file.group("g").unwrap();
    let channel = group.channel("c").unwrap();

    let mut data = vec![-7i32];
    channel.read_data(&mut data).unwrap();
    assert_eq!(data, vec![-7, 1, 2, 3, 4]);
    channel.read_data(&mut data).unwrap();
    assert_eq!(data, vec![-7, 1, 2, 3, 4, 1, 2, 3, 4]);

    let mut other = vec![5u16];
    expect_format_error(channel.read_data(&mut other));
    assert_eq!(other, vec![5]);
    group.channel("empty").unwrap().read_data(&mut other).unwrap();
    assert_eq!(other, vec![5]);
}
