//! Properties of objects: a name and a value of one of twelve kinds.

use crate::byte_reader::{ByteSource, parsed_view};
use crate::error::{ErrorKind, Result, TdmsReadError};
use crate::primitives::{
    ByteOrderExt, Float32Bits, Float64Bits, read_string, read_timestamp, read_value,
    spec_read_string, spec_read_value,
};
use crate::timestamp::Timestamp;
use crate::types::TdsType;
use vstd::prelude::*;

verus! {

/// The value of a property. The two float kinds hold the IEEE 754 bit pattern
/// of the number.
#[derive(Debug, PartialEq)]
pub enum TdmsValue {
    Int8(i8),
    Int16(i16),
    Int32(i32),
    Int64(i64),
    Uint8(u8),
    Uint16(u16),
    Uint32(u32),
    Uint64(u64),
    Float32(Float32Bits),
    Float64(Float64Bits),
    String(String),
    Timestamp(Timestamp),
}

/// The mathematical value of a `TdmsValue`.
pub enum ValueView {
    Int8(i8),
    Int16(i16),
    Int32(i32),
    Int64(i64),
    Uint8(u8),
    Uint16(u16),
    Uint32(u32),
    Uint64(u64),
    Float32(Float32Bits),
    Float64(Float64Bits),
    String(Seq<char>),
    Timestamp(Timestamp),
}

impl View for TdmsValue {
    type V = ValueView;

    open spec fn view(&self) -> ValueView {
        match self {
            TdmsValue::Int8(v) => ValueView::Int8(*v),
            TdmsValue::Int16(v) => ValueView::Int16(*v),
            TdmsValue::Int32(v) => ValueView::Int32(*v),
            TdmsValue::Int64(v) => ValueView::Int64(*v),
            TdmsValue::Uint8(v) => ValueView::Uint8(*v),
            TdmsValue::Uint16(v) => ValueView::Uint16(*v),
            TdmsValue::Uint32(v) => ValueView::Uint32(*v),
            TdmsValue::Uint64(v) => ValueView::Uint64(*v),
            TdmsValue::Float32(v) => ValueView::Float32(*v),
            TdmsValue::Float64(v) => ValueView::Float64(*v),
            TdmsValue::String(v) => ValueView::String(v@),
            TdmsValue::Timestamp(v) => ValueView::Timestamp(*v),
        }
    }
}

#[derive(Debug, PartialEq)]
pub struct TdmsProperty {
    pub name: String,
    pub value: TdmsValue,
}

/// The mathematical value of a property.
pub struct PropertyView {
    pub name: Seq<char>,
    pub value: ValueView,
}

impl View for TdmsProperty {
    type V = PropertyView;

    open spec fn view(&self) -> PropertyView {
        PropertyView { name: self.name@, value: self.value@ }
    }
}

/// The views of a list of properties.
pub open spec fn property_views(properties: Seq<TdmsProperty>) -> Seq<PropertyView> {
    properties.map_values(|property: TdmsProperty| property@)
}

/// What reading a value of the type `type_id` from the front of `input`
/// gives. Twelve types can be the type of a property; every other type is a
/// format error.
#[verifier::opaque]
pub open spec fn spec_read_property_value(type_id: TdsType, input: Seq<u8>, big_endian: bool)
    -> std::result::Result<(ValueView, nat), ErrorKind> {
    match type_id {
        TdsType::I8 => match spec_read_value::<i8>(input, big_endian) {
            Ok((v, n)) => Ok((ValueView::Int8(v), n)),
            Err(kind) => Err(kind),
        },
        TdsType::I16 => match spec_read_value::<i16>(input, big_endian) {
            Ok((v, n)) => Ok((ValueView::Int16(v), n)),
            Err(kind) => Err(kind),
        },
        TdsType::I32 => match spec_read_value::<i32>(input, big_endian) {
            Ok((v, n)) => Ok((ValueView::Int32(v), n)),
            Err(kind) => Err(kind),
        },
        TdsType::I64 => match spec_read_value::<i64>(input, big_endian) {
            Ok((v, n)) => Ok((ValueView::Int64(v), n)),
            Err(kind) => Err(kind),
        },
        TdsType::U8 => match spec_read_value::<u8>(input, big_endian) {
            Ok((v, n)) => Ok((ValueView::Uint8(v), n)),
            Err(kind) => Err(kind),
        },
        TdsType::U16 => match spec_read_value::<u16>(input, big_endian) {
            Ok((v, n)) => Ok((ValueView::Uint16(v), n)),
            Err(kind) => Err(kind),
        },
        TdsType::U32 => match spec_read_value::<u32>(input, big_endian) {
            Ok((v, n)) => Ok((ValueView::Uint32(v), n)),
            Err(kind) => Err(kind),
        },
        TdsType::U64 => match spec_read_value::<u64>(input, big_endian) {
            Ok((v, n)) => Ok((ValueView::Uint64(v), n)),
            Err(kind) => Err(kind),
        },
        TdsType::SingleFloat => match spec_read_value::<Float32Bits>(input, big_endian) {
            Ok((v, n)) => Ok((ValueView::Float32(v), n)),
            Err(kind) => Err(kind),
        },
        TdsType::DoubleFloat => match spec_read_value::<Float64Bits>(input, big_endian) {
            Ok((v, n)) => Ok((ValueView::Float64(v), n)),
            Err(kind) => Err(kind),
        },
        TdsType::String => match spec_read_string(input, big_endian) {
            Ok((v, n)) => Ok((ValueView::String(v), n)),
            Err(kind) => Err(kind),
        },
        TdsType::TimeStamp => match spec_read_value::<Timestamp>(input, big_endian) {
            Ok((v, n)) => Ok((ValueView::Timestamp(v), n)),
            Err(kind) => Err(kind),
        },
        _ => Err(ErrorKind::Format),
    }
}

/// What reading a property from the front of `input` gives: its name as a
/// string, the tag of its type as a `u32`, and its value.
#[verifier::opaque]
pub open spec fn spec_read_property(input: Seq<u8>, big_endian: bool) -> std::result::Result<
    (PropertyView, nat),
    ErrorKind,
> {
    match spec_read_string(input, big_endian) {
        Err(kind) => Err(kind),
        Ok((name, name_len)) => match spec_read_value::<u32>(
            input.skip(name_len as int),
            big_endian,
        ) {
            Err(kind) => Err(kind),
            Ok((tag, tag_len)) => match TdsType::spec_from_tag(tag) {
                None => Err(ErrorKind::Format),
                Some(type_id) => match spec_read_property_value(
                    type_id,
                    input.skip(name_len as int).skip(tag_len as int),
                    big_endian,
                ) {
                    Err(kind) => Err(kind),
                    Ok((value, value_len)) => Ok(
                        (PropertyView { name, value }, name_len + tag_len + value_len),
                    ),
                },
            },
        },
    }
}

/// Reads the value of a property of the type `type_id`.
pub fn read_property_value<S: ByteSource, O: ByteOrderExt>(type_id: TdsType, source: &mut S) -> (r:
    Result<TdmsValue>)
    requires
        old(source).wf(),
    ensures
        final(source).wf(),
        parsed_view(
            r,
            spec_read_property_value(type_id, old(source).remaining(), O::spec_big_endian()),
            old(source).remaining(),
            final(source).remaining(),
        ),
{
    reveal(spec_read_property_value);
    match type_id {
        TdsType::I8 => match read_value::<i8, S, O>(source) {
            Ok(v) => Ok(TdmsValue::Int8(v)),
            Err(e) => Err(e),
        },
        TdsType::I16 => match read_value::<i16, S, O>(source) {
            Ok(v) => Ok(TdmsValue::Int16(v)),
            Err(e) => Err(e),
        },
        TdsType::I32 => match read_value::<i32, S, O>(source) {
            Ok(v) => Ok(TdmsValue::Int32(v)),
            Err(e) => Err(e),
        },
        TdsType::I64 => match read_value::<i64, S, O>(source) {
            Ok(v) => Ok(TdmsValue::Int64(v)),
            Err(e) => Err(e),
        },
        TdsType::U8 => match read_value::<u8, S, O>(source) {
            Ok(v) => Ok(TdmsValue::Uint8(v)),
            Err(e) => Err(e),
        },
        TdsType::U16 => match read_value::<u16, S, O>(source) {
            Ok(v) => Ok(TdmsValue::Uint16(v)),
            Err(e) => Err(e),
        },
        TdsType::U32 => match read_value::<u32, S, O>(source) {
            Ok(v) => Ok(TdmsValue::Uint32(v)),
            Err(e) => Err(e),
        },
        TdsType::U64 => match read_value::<u64, S, O>(source) {
            Ok(v) => Ok(TdmsValue::Uint64(v)),
            Err(e) => Err(e),
        },
        TdsType::SingleFloat => match read_value::<Float32Bits, S, O>(source) {
            Ok(v) => Ok(TdmsValue::Float32(v)),
            Err(e) => Err(e),
        },
        TdsType::DoubleFloat => match read_value::<Float64Bits, S, O>(source) {
            Ok(v) => Ok(TdmsValue::Float64(v)),
            Err(e) => Err(e),
        },
        TdsType::String => match read_string::<S, O>(source) {
            Ok(v) => Ok(TdmsValue::String(v)),
            Err(e) => Err(e),
        },
        TdsType::TimeStamp => match read_timestamp::<S, O>(source) {
            Ok(v) => Ok(TdmsValue::Timestamp(v)),
            Err(e) => Err(e),
        },
        _ => Err(TdmsReadError::format_with_text("Unsupported property type ", type_id.name())),
    }
}

impl TdmsProperty {
    /// Reads a property: its name, the tag of its type and its value.
    pub fn read<S: ByteSource, O: ByteOrderExt>(source: &mut S) -> (r: Result<TdmsProperty>)
        requires
            old(source).wf(),
        ensures
            final(source).wf(),
            parsed_view(
                r,
                spec_read_property(old(source).remaining(), O::spec_big_endian()),
                old(source).remaining(),
                final(source).remaining(),
            ),
    {
        reveal(spec_read_property);
        let ghost input = source.remaining();
        let name = match read_string::<S, O>(source) {
            Ok(name) => name,
            Err(e) => {
                return Err(e);
            },
        };
        let type_id_raw = match read_value::<u32, S, O>(source) {
            Ok(raw) => raw,
            Err(e) => {
                return Err(e);
            },
        };
        let type_id = match TdsType::from_u32(type_id_raw) {
            Ok(type_id) => type_id,
            Err(e) => {
                return Err(e);
            },
        };
        let ghost middle = source.remaining();
        let value = match read_property_value::<S, O>(type_id, source) {
            Ok(value) => value,
            Err(e) => {
                return Err(e);
            },
        };
        proof {
            let n = spec_read_property(input, O::spec_big_endian())->Ok_0.1;
            assert(source.remaining() =~= input.skip(n as int));
        }
        Ok(TdmsProperty { name, value })
    }
}

} // verus!
