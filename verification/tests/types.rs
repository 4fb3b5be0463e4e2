use byteorder::{BigEndian, LittleEndian};
use rstdms::byte_reader::{ByteReader, ByteSource};
use rstdms::primitives::{read_string, read_timestamp, read_value, read_values};
use rstdms::types::NativeTypeId;
use rstdms::{Float32Bits, Float64Bits, NativeType, TdmsReadError, TdsType, Timestamp};

#[test]
pub fn can_read_string_le() {
    let bytes = vec![0x05, 0x00, 0x00, 0x00, 0x68, 0x65, 0x6C, 0x6C, 0x6F];
    let mut reader = ByteReader::new(&bytes);
    let value = read_string::<_, LittleEndian>(&mut reader).unwrap();

    assert_eq!(value, "hello");
}

#[test]
pub fn can_read_string_be() {
    let bytes = vec![0x00, 0x00, 0x00, 0x05, 0x68, 0x65, 0x6C, 0x6C, 0x6F];
    let mut reader = ByteReader::new(&bytes);
    let value = read_string::<_, BigEndian>(&mut reader).unwrap();

    assert_eq!(value, "hello");
}

#[test]
fn a_string_is_decoded_as_utf8() {
    let bytes = vec![0x07, 0, 0, 0, 0x47, 0x72, 0xC3, 0xBC, 0xC3, 0x9F, 0x65, 0xAA];
    let mut reader = ByteReader::new(&bytes);

    assert_eq!(
        read_string::<_, LittleEndian>(&mut reader).unwrap(),
        "Gr\u{fc}\u{df}e"
    );
    assert_eq!(reader.position(), 11);
}

#[test]
fn an_empty_string_takes_four_bytes() {
    let bytes = vec![0, 0, 0, 0, 1];
    let mut reader = ByteReader::new(&bytes);

    assert_eq!(read_string::<_, BigEndian>(&mut reader).unwrap(), "");
    assert_eq!(reader.position(), 4);
}

#[test]
fn a_string_that_is_not_utf8_is_a_utf8_error() {
    let bytes = vec![0x02, 0, 0, 0, 0xC3, 0x28];
    let mut reader = ByteReader::new(&bytes);

    match read_string::<_, LittleEndian>(&mut reader) {
        Err(TdmsReadError::Utf8Error(_)) => {}
        _ => panic!("Expected a UTF-8 error"),
    }
}

#[test]
fn a_string_that_ends_early_is_an_io_error() {
    let short_length = vec![0x02, 0, 0];
    let mut reader = ByteReader::new(&short_length);
    match read_string::<_, LittleEndian>(&mut reader) {
        Err(TdmsReadError::IoError(_)) => {}
        _ => panic!("Expected an IO error"),
    }

    let short_text = vec![0x03, 0, 0, 0, 0x61, 0x62];
    let mut reader = ByteReader::new(&short_text);
    match read_string::<_, LittleEndian>(&mut reader) {
        Err(TdmsReadError::IoError(_)) => {}
        _ => panic!("Expected an IO error"),
    }
}

#[test]
fn unsigned_values_in_both_byte_orders() {
    let bytes = vec![0x01, 0x02, 0x03, 0x04, 0x05, 0x06, 0x07, 0x08];

    let mut reader = ByteReader::new(&bytes);
    assert_eq!(read_value::<u8, _, LittleEndian>(&mut reader).unwrap(), 0x01);
    let mut reader = ByteReader::new(&bytes);
    assert_eq!(
        read_value::<u16, _, LittleEndian>(&mut reader).unwrap(),
        0x0201
    );
    let mut reader = ByteReader::new(&bytes);
    assert_eq!(read_value::<u16, _, BigEndian>(&mut reader).unwrap(), 0x0102);
    let mut reader = ByteReader::new(&bytes);
    assert_eq!(
        read_value::<u32, _, LittleEndian>(&mut reader).unwrap(),
        0x04030201
    );
    let mut reader = ByteReader::new(&bytes);
    assert_eq!(
        read_value::<u32, _, BigEndian>(&mut reader).unwrap(),
        0x01020304
    );
    let mut reader = ByteReader::new(&bytes);
    assert_eq!(
        read_value::<u64, _, LittleEndian>(&mut reader).unwrap(),
        0x0807060504030201
    );
    let mut reader = ByteReader::new(&bytes);
    assert_eq!(
        read_value::<u64, _, BigEndian>(&mut reader).unwrap(),
        0x0102030405060708
    );
    assert_eq!(reader.position(), 8);
}

#[test]
fn signed_values_are_twos_complement() {
    let bytes = vec![0xFE, 0xFF, 0xFF, 0xFF, 0xFF, 0xFF, 0xFF, 0x7F];

    let mut reader = ByteReader::new(&bytes);
    assert_eq!(read_value::<i8, _, LittleEndian>(&mut reader).unwrap(), -2);
    let mut reader = ByteReader::new(&bytes);
    assert_eq!(read_value::<i16, _, LittleEndian>(&mut reader).unwrap(), -2);
    let mut reader = ByteReader::new(&bytes);
    assert_eq!(read_value::<i16, _, BigEndian>(&mut reader).unwrap(), -257);
    let mut reader = ByteReader::new(&bytes);
    assert_eq!(read_value::<i32, _, LittleEndian>(&mut reader).unwrap(), -2);
    let mut reader = ByteReader::new(&bytes);
    assert_eq!(
        read_value::<i32, _, BigEndian>(&mut reader).unwrap(),
        -16777217
    );
    let mut reader = ByteReader::new(&bytes);
    assert_eq!(
        read_value::<i64, _, LittleEndian>(&mut reader).unwrap(),
        i64::MAX - 1
    );
    let mut reader = ByteReader::new(&bytes);
    assert_eq!(
        read_value::<i64, _, BigEndian>(&mut reader).unwrap(),
        -0x0100_0000_0000_0000 - 0x81
    );
    let least = vec![0x80, 0x00];
    let mut reader = ByteReader::new(&least);
    assert_eq!(read_value::<i8, _, BigEndian>(&mut reader).unwrap(), i8::MIN);
    let mut reader = ByteReader::new(&least);
    assert_eq!(
        read_value::<i16, _, BigEndian>(&mut reader).unwrap(),
        i16::MIN
    );
}

#[test]
fn floats_are_read_as_their_bits() {
    let single = 1.5_f32.to_le_bytes().to_vec();
    let mut reader = ByteReader::new(&single);
    let bits = read_value::<Float32Bits, _, LittleEndian>(&mut reader).unwrap();
    assert_eq!(f32::from_bits(bits.0), 1.5);

    let double = (-0.25_f64).to_be_bytes().to_vec();
    let mut reader = ByteReader::new(&double);
    let bits = read_value::<Float64Bits, _, BigEndian>(&mut reader).unwrap();
    assert_eq!(f64::from_bits(bits.0), -0.25);
}

#[test]
fn a_timestamp_has_its_fields_in_the_order_of_the_byte_order() {
    let little = vec![
        0x00, 0x08, 0x89, 0xA1, 0x8C, 0xA9, 0x54, 0xAB, 0x7B, 0x63, 0x14, 0xD2, 0x00, 0x00, 0x00,
        0x00,
    ];
    let mut reader = ByteReader::new(&little);
    assert_eq!(
        read_timestamp::<_, LittleEndian>(&mut reader).unwrap(),
        Timestamp::new(3524551547, 1234567890 * 10u64.pow(10))
    );

    let big = vec![
        0x00, 0x00, 0x00, 0x00, 0xD2, 0x14, 0x63, 0x7B, 0xAB, 0x54, 0xA9, 0x8C, 0xA1, 0x89, 0x08,
        0x00,
    ];
    let mut reader = ByteReader::new(&big);
    assert_eq!(
        read_timestamp::<_, BigEndian>(&mut reader).unwrap(),
        Timestamp::new(3524551547, 1234567890 * 10u64.pow(10))
    );

    let negative = vec![
        0x01, 0, 0, 0, 0, 0, 0, 0, 0xFF, 0xFF, 0xFF, 0xFF, 0xFF, 0xFF, 0xFF, 0xFF,
    ];
    let mut reader = ByteReader::new(&negative);
    assert_eq!(
        read_timestamp::<_, LittleEndian>(&mut reader).unwrap(),
        Timestamp::new(-1, 1)
    );
}

#[test]
fn a_value_that_ends_early_is_an_io_error_and_takes_nothing() {
    let bytes = vec![1, 2, 3];
    let mut reader = ByteReader::new(&bytes);
    match read_value::<u32, _, LittleEndian>(&mut reader) {
        Err(TdmsReadError::IoError(_)) => {}
        _ => panic!("Expected an IO error"),
    }
    assert_eq!(reader.position(), 0);
    assert_eq!(read_value::<u16, _, LittleEndian>(&mut reader).unwrap(), 0x0201);
    assert_eq!(reader.position(), 2);
}

#[test]
fn values_are_read_into_the_middle_of_a_buffer() {
    let bytes = vec![1, 0, 2, 0, 3, 0, 4];
    let mut reader = ByteReader::new(&bytes);
    let mut buffer = vec![9u16; 5];

    read_values::<u16, _, LittleEndian>(&mut buffer, 1, &mut reader, 3).unwrap();

    assert_eq!(buffer, vec![9, 1, 2, 3, 9]);
    assert_eq!(reader.position(), 6);

    let mut reader = ByteReader::new(&bytes);
    match read_values::<u16, _, BigEndian>(&mut buffer, 0, &mut reader, 4) {
        Err(TdmsReadError::IoError(_)) => {}
        _ => panic!("Expected an IO error"),
    }
}

#[test]
fn reading_from_a_position_behind_the_end_finds_nothing() {
    let bytes = vec![1, 2, 3, 4];
    let mut reader = ByteReader::new(&bytes);
    reader.seek(10);
    let mut buffer = vec![7u8; 2];

    assert_eq!(reader.available(), 0);
    assert_eq!(reader.read(&mut buffer), 0);
    assert_eq!(buffer, vec![7, 7]);
    assert!(reader.read_exact(&mut buffer).is_err());
    let mut nothing = vec![0u8; 0];
    assert!(reader.read_exact(&mut nothing).is_ok());
    assert_eq!(reader.position(), 10);

    reader.seek(3);
    assert_eq!(reader.read(&mut buffer), 1);
    assert_eq!(buffer, vec![4, 7]);
    assert_eq!(reader.position(), 4);
}

#[test]
fn every_tag_of_the_catalogue_is_known() {
    let catalogue = vec![
        (TdsType::Void, 0u32, Some(0u32)),
        (TdsType::I8, 1, Some(1)),
        (TdsType::I16, 2, Some(2)),
        (TdsType::I32, 3, Some(4)),
        (TdsType::I64, 4, Some(8)),
        (TdsType::U8, 5, Some(1)),
        (TdsType::U16, 6, Some(2)),
        (TdsType::U32, 7, Some(4)),
        (TdsType::U64, 8, Some(8)),
        (TdsType::SingleFloat, 9, Some(4)),
        (TdsType::DoubleFloat, 10, Some(8)),
        (TdsType::ExtendedFloat, 11, Some(16)),
        (TdsType::SingleFloatWithUnit, 0x19, Some(4)),
        (TdsType::DoubleFloatWithUnit, 0x1A, Some(8)),
        (TdsType::ExtendedFloatWithUnit, 0x1B, Some(16)),
        (TdsType::String, 0x20, None),
        (TdsType::Boolean, 0x21, Some(1)),
        (TdsType::TimeStamp, 0x44, Some(16)),
        (TdsType::FixedPoint, 0x4F, None),
        (TdsType::ComplexSingleFloat, 0x08000C, Some(8)),
        (TdsType::ComplexDoubleFloat, 0x10000D, Some(16)),
        (TdsType::DaqmxRawData, 0xFFFFFFFF, None),
    ];
    for (tds_type, tag, size) in catalogue {
        assert_eq!(TdsType::from_u32(tag).unwrap(), tds_type);
        assert_eq!(tds_type.tag(), tag);
        assert_eq!(tds_type.size(), size);
    }
}

#[test]
fn an_unknown_tag_is_a_format_error() {
    for tag in vec![12u32, 0x18, 0x1C, 0x22, 0x43, 0x50, 0x08000D, 0xFFFFFFFE] {
        match TdsType::from_u32(tag) {
            Err(TdmsReadError::TdmsError(message)) => {
                assert_eq!(message, format!("Invalid type id: {}", tag))
            }
            _ => panic!("Expected a format error for tag {}", tag),
        }
    }
}

#[test]
fn readable_types_have_a_native_type_of_their_size() {
    let readable = vec![
        (TdsType::I8, NativeTypeId::I8),
        (TdsType::I16, NativeTypeId::I16),
        (TdsType::I32, NativeTypeId::I32),
        (TdsType::I64, NativeTypeId::I64),
        (TdsType::U8, NativeTypeId::U8),
        (TdsType::U16, NativeTypeId::U16),
        (TdsType::U32, NativeTypeId::U32),
        (TdsType::U64, NativeTypeId::U64),
        (TdsType::SingleFloat, NativeTypeId::F32),
        (TdsType::DoubleFloat, NativeTypeId::F64),
        (TdsType::SingleFloatWithUnit, NativeTypeId::F32),
        (TdsType::DoubleFloatWithUnit, NativeTypeId::F64),
        (TdsType::TimeStamp, NativeTypeId::Timestamp),
    ];
    for (tds_type, native_type) in readable {
        assert_eq!(tds_type.native_type(), Some(native_type));
        assert_eq!(tds_type.size(), Some(native_type.width() as u32));
    }
    let refused = vec![
        TdsType::Void,
        TdsType::ExtendedFloat,
        TdsType::ExtendedFloatWithUnit,
        TdsType::String,
        TdsType::Boolean,
        TdsType::FixedPoint,
        TdsType::ComplexSingleFloat,
        TdsType::ComplexDoubleFloat,
        TdsType::DaqmxRawData,
    ];
    for tds_type in refused {
        assert_eq!(tds_type.native_type(), None);
    }
    assert_eq!(<i32 as NativeType>::native_type(), NativeTypeId::I32);
    assert_eq!(<Timestamp as NativeType>::native_type(), NativeTypeId::Timestamp);
    assert_eq!(<Float64Bits as NativeType>::native_type(), NativeTypeId::F64);
}
