use byteorder::{BigEndian, LittleEndian};
use chrono::{NaiveDate, TimeDelta};
use rstdms::byte_reader::ByteReader;
use rstdms::properties::read_property_value;
use rstdms::{
    Float32Bits, Float64Bits, TdmsProperty, TdmsReadError, TdmsValue, TdsType, Timestamp,
};

#[test]
pub fn properties_can_read_int32_property() {
    let bytes = vec![
        0x0D, 0x00, 0x00, 0x00, //
        0x70, 0x72, 0x6F, 0x70, 0x65, 0x72, 0x74, 0x79, 0x20, 0x6E, 0x61, 0x6D, 0x65, //
        0x03, 0x00, 0x00, 0x00, //
        0x0A, 0x00, 0x00, 0x00,
    ];
    let mut reader = ByteReader::new(&bytes);
    let property = TdmsProperty::read::<_, LittleEndian>(&mut reader).unwrap();

    assert_eq!(property.name, "property name");
    assert_eq!(property.value, TdmsValue::Int32(10i32));
}

#[test]
pub fn properties_can_read_string_property() {
    let bytes = vec![
        0x0D, 0x00, 0x00, 0x00, //
        0x70, 0x72, 0x6F, 0x70, 0x65, 0x72, 0x74, 0x79, 0x20, 0x6E, 0x61, 0x6D, 0x65, //
        0x20, 0x00, 0x00, 0x00, //
        0x0E, 0x00, 0x00, 0x00, //
        0x70, 0x72, 0x6F, 0x70, 0x65, 0x72, 0x74, 0x79, 0x20, 0x76, 0x61, 0x6C, 0x75, 0x65,
    ];
    let mut reader = ByteReader::new(&bytes);
    let property = TdmsProperty::read::<_, LittleEndian>(&mut reader).unwrap();

    assert_eq!(property.name, "property name");
    assert_eq!(
        property.value,
        TdmsValue::String(String::from("property value"))
    );
}

#[test]
pub fn properties_can_read_timestamp_property() {
    let bytes = vec![
        0x0D, 0x00, 0x00, 0x00, //
        0x70, 0x72, 0x6F, 0x70, 0x65, 0x72, 0x74, 0x79, 0x20, 0x6E, 0x61, 0x6D, 0x65, //
        0x44, 0x00, 0x00, 0x00, //
        0x00, 0x08, 0x89, 0xA1, 0x8C, 0xA9, 0x54, 0xAB, //
        0x7B, 0x63, 0x14, 0xD2, 0x00, 0x00, 0x00, 0x00,
    ];
    let mut reader = ByteReader::new(&bytes);
    let property = TdmsProperty::read::<_, LittleEndian>(&mut reader).unwrap();

    assert_eq!(property.name, "property name");
    assert_eq!(
        property.value,
        TdmsValue::Timestamp(Timestamp::new(3524551547, 1234567890 * 10u64.pow(10)))
    );

    if let TdmsValue::Timestamp(ts) = property.value {
        let expected_time = NaiveDate::from_ymd_opt(2015, 9, 8)
            .unwrap()
            .and_hms_opt(10, 5, 47)
            .unwrap()
            .checked_add_signed(TimeDelta::nanoseconds(669260594))
            .unwrap();
        assert_eq!(ts.to_datetime(), Some(expected_time));
    }
}

#[test]
pub fn properties_unexpected_end_of_data() {
    let bytes = vec![
        0x0D, 0x00, 0x00, 0x00, //
        0x70, 0x72, 0x6F, 0x70, 0x65, 0x72,
    ];
    let mut reader = ByteReader::new(&bytes);
    let error = TdmsProperty::read::<_, LittleEndian>(&mut reader).unwrap_err();

    match error {
        TdmsReadError::IoError(_) => {}
        _ => panic!("Unexpected error variant"),
    }
}

#[test]
pub fn properties_invalid_utf8() {
    let bytes = vec![
        0x0D, 0x00, 0x00, 0x00, //
        0xFF, 0xFF, 0xFF, 0xFF, 0xFF, 0xFF, 0xFF, 0xFF, 0xFF, 0xFF, 0xFF, 0xFF, 0xFF,
    ];
    let mut reader = ByteReader::new(&bytes);
    let error = TdmsProperty::read::<_, LittleEndian>(&mut reader).unwrap_err();

    match error {
        TdmsReadError::Utf8Error(_) => {}
        _ => panic!("Unexpected error variant"),
    }
}

#[test]
fn every_kind_of_property_value_can_be_read() {
    let bytes = vec![0x81, 0x02, 0x03, 0x04, 0x05, 0x06, 0x07, 0x08];
    let cases = vec![
        (TdsType::I8, TdmsValue::Int8(-127), 1),
        (TdsType::I16, TdmsValue::Int16(0x0281), 2),
        (TdsType::I32, TdmsValue::Int32(0x04030281), 4),
        (TdsType::I64, TdmsValue::Int64(0x0807060504030281), 8),
        (TdsType::U8, TdmsValue::Uint8(0x81), 1),
        (TdsType::U16, TdmsValue::Uint16(0x0281), 2),
        (TdsType::U32, TdmsValue::Uint32(0x04030281), 4),
        (TdsType::U64, TdmsValue::Uint64(0x0807060504030281), 8),
        (
            TdsType::SingleFloat,
            TdmsValue::Float32(Float32Bits(0x04030281)),
            4,
        ),
        (
            TdsType::DoubleFloat,
            TdmsValue::Float64(Float64Bits(0x0807060504030281)),
            8,
        ),
    ];
    for (type_id, expected, width) in cases {
        let mut reader = ByteReader::new(&bytes);
        let value = read_property_value::<_, LittleEndian>(type_id, &mut reader).unwrap();
        assert_eq!(value, expected);
        assert_eq!(reader.position(), width);
    }
    let mut reader = ByteReader::new(&bytes);
    assert_eq!(
        read_property_value::<_, BigEndian>(TdsType::I16, &mut reader).unwrap(),
        TdmsValue::Int16(-0x7EFE)
    );
}

#[test]
fn a_float_property_keeps_the_bits_of_the_number() {
    let mut bytes = vec![0x01, 0x00, 0x00, 0x00, 0x78, 0x0A, 0x00, 0x00, 0x00];
    bytes.extend(&2.5_f64.to_le_bytes());
    let mut reader = ByteReader::new(&bytes);
    let property = TdmsProperty::read::<_, LittleEndian>(&mut reader).unwrap();

    assert_eq!(property.name, "x");
    match property.value {
        TdmsValue::Float64(bits) => assert_eq!(f64::from_bits(bits.0), 2.5),
        _ => panic!("Expected a double float"),
    }
}

#[test]
fn types_that_no_property_can_have_are_format_errors() {
    let bytes = vec![0u8; 32];
    let refused = vec![
        TdsType::Void,
        TdsType::ExtendedFloat,
        TdsType::SingleFloatWithUnit,
        TdsType::DoubleFloatWithUnit,
        TdsType::ExtendedFloatWithUnit,
        TdsType::Boolean,
        TdsType::FixedPoint,
        TdsType::ComplexSingleFloat,
        TdsType::ComplexDoubleFloat,
        TdsType::DaqmxRawData,
    ];
    for type_id in refused {
        let mut reader = ByteReader::new(&bytes);
        match read_property_value::<_, LittleEndian>(type_id, &mut reader) {
            Err(TdmsReadError::TdmsError(_)) => {}
            _ => panic!("Expected a format error"),
        }
    }
}

#[test]
fn a_property_with_an_unknown_type_tag_is_a_format_error() {
    let bytes = vec![0x01, 0x00, 0x00, 0x00, 0x78, 0x0C, 0x00, 0x00, 0x00, 0, 0, 0, 0];
    let mut reader = ByteReader::new(&bytes);
    match TdmsProperty::read::<_, LittleEndian>(&mut reader) {
        Err(TdmsReadError::TdmsError(_)) => {}
        _ => panic!("Expected a format error"),
    }
}

#[test]
fn a_timestamp_before_the_epoch_and_its_nanoseconds() {
    let epoch = NaiveDate::from_ymd_opt(1904, 1, 1)
        .unwrap()
        .and_hms_opt(0, 0, 0)
        .unwrap();
    assert_eq!(Timestamp::new(0, 0).to_datetime(), Some(epoch));
    assert_eq!(
        Timestamp::new(-1, 0).to_datetime(),
        Some(
            NaiveDate::from_ymd_opt(1903, 12, 31)
                .unwrap()
                .and_hms_opt(23, 59, 59)
                .unwrap()
        )
    );
    assert_eq!(Timestamp::new(0, 18446744073).nanoseconds(), 1);
    assert_eq!(Timestamp::new(0, 18446744072).nanoseconds(), 0);
    assert_eq!(Timestamp::new(0, u64::MAX).nanoseconds(), 1_000_000_000);
    assert_eq!(
        Timestamp::new(0, 1 << 63).to_datetime(),
        epoch.checked_add_signed(TimeDelta::nanoseconds(500_000_000))
    );
    assert_eq!(Timestamp::new(i64::MAX, 0).to_datetime(), None);
    assert_eq!(Timestamp::new(i64::MIN, 0).to_datetime(), None);
}
