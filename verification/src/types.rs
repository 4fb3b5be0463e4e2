//! The catalogue of TDMS element types: wire tags, element sizes and the
//! element kinds that channel data can be read as.

use crate::error::{Result, TdmsReadError};
use crate::timestamp::Timestamp;
use vstd::prelude::*;

verus! {

/// A TDMS element type.
#[derive(Clone, Copy, Debug, PartialEq, Eq, Structural)]
pub enum TdsType {
    Void,
    I8,
    I16,
    I32,
    I64,
    U8,
    U16,
    U32,
    U64,
    SingleFloat,
    DoubleFloat,
    ExtendedFloat,
    SingleFloatWithUnit,
    DoubleFloatWithUnit,
    ExtendedFloatWithUnit,
    String,
    Boolean,
    TimeStamp,
    FixedPoint,
    ComplexSingleFloat,
    ComplexDoubleFloat,
    DaqmxRawData,
}

/// Represents a native rust type that TDMS channel data can be read as.
/// The two float kinds are read as their IEEE 754 bit patterns.
#[derive(Clone, Copy, Debug, PartialEq, Eq, Structural)]
pub enum NativeTypeId {
    I8,
    I16,
    I32,
    I64,
    U8,
    U16,
    U32,
    U64,
    F32,
    F64,
    Timestamp,
}

impl TdsType {
    /// The tag that stands for this type on the wire.
    pub open spec fn spec_tag(self) -> u32 {
        match self {
            TdsType::Void => 0,
            TdsType::I8 => 1,
            TdsType::I16 => 2,
            TdsType::I32 => 3,
            TdsType::I64 => 4,
            TdsType::U8 => 5,
            TdsType::U16 => 6,
            TdsType::U32 => 7,
            TdsType::U64 => 8,
            TdsType::SingleFloat => 9,
            TdsType::DoubleFloat => 10,
            TdsType::ExtendedFloat => 11,
            TdsType::SingleFloatWithUnit => 0x19,
            TdsType::DoubleFloatWithUnit => 0x1A,
            TdsType::ExtendedFloatWithUnit => 0x1B,
            TdsType::String => 0x20,
            TdsType::Boolean => 0x21,
            TdsType::TimeStamp => 0x44,
            TdsType::FixedPoint => 0x4F,
            TdsType::ComplexSingleFloat => 0x8000C,
            TdsType::ComplexDoubleFloat => 0x10000D,
            TdsType::DaqmxRawData => 0xFFFFFFFF,
        }
    }

    /// The type that a wire tag stands for, if any.
    pub open spec fn spec_from_tag(tag: u32) -> Option<TdsType> {
        if tag == 0 {
            Some(TdsType::Void)
        }         else if tag == 1 {
            Some(TdsType::I8)
        }         else if tag == 2 {
            Some(TdsType::I16)
        }         else if tag == 3 {
            Some(TdsType::I32)
        }         else if tag == 4 {
            Some(TdsType::I64)
        }         else if tag == 5 {
            Some(TdsType::U8)
        }         else if tag == 6 {
            Some(TdsType::U16)
        }         else if tag == 7 {
            Some(TdsType::U32)
        }         else if tag == 8 {
            Some(TdsType::U64)
        }         else if tag == 9 {
            Some(TdsType::SingleFloat)
        }         else if tag == 10 {
            Some(TdsType::DoubleFloat)
        }         else if tag == 11 {
            Some(TdsType::ExtendedFloat)
        }         else if tag == 0x19 {
            Some(TdsType::SingleFloatWithUnit)
        }         else if tag == 0x1A {
            Some(TdsType::DoubleFloatWithUnit)
        }         else if tag == 0x1B {
            Some(TdsType::ExtendedFloatWithUnit)
        }         else if tag == 0x20 {
            Some(TdsType::String)
        }         else if tag == 0x21 {
            Some(TdsType::Boolean)
        }         else if tag == 0x44 {
            Some(TdsType::TimeStamp)
        }         else if tag == 0x4F {
            Some(TdsType::FixedPoint)
        }         else if tag == 0x8000C {
            Some(TdsType::ComplexSingleFloat)
        }         else if tag == 0x10000D {
            Some(TdsType::ComplexDoubleFloat)
        }         else if tag == 0xFFFFFFFF {
            Some(TdsType::DaqmxRawData)
        } else {
            None
        }
    }

    /// Size in bytes of one element, for the types of fixed size.
    pub open spec fn spec_size(self) -> Option<u32> {
        match self {
            TdsType::Void => Some(0),
            TdsType::I8 => Some(1),
            TdsType::I16 => Some(2),
            TdsType::I32 => Some(4),
            TdsType::I64 => Some(8),
            TdsType::U8 => Some(1),
            TdsType::U16 => Some(2),
            TdsType::U32 => Some(4),
            TdsType::U64 => Some(8),
            TdsType::SingleFloat => Some(4),
            TdsType::DoubleFloat => Some(8),
            TdsType::ExtendedFloat => Some(16),
            TdsType::SingleFloatWithUnit => Some(4),
            TdsType::DoubleFloatWithUnit => Some(8),
            TdsType::ExtendedFloatWithUnit => Some(16),
            TdsType::String => None,
            TdsType::Boolean => Some(1),
            TdsType::TimeStamp => Some(16),
            TdsType::FixedPoint => None,
            TdsType::ComplexSingleFloat => Some(8),
            TdsType::ComplexDoubleFloat => Some(16),
            TdsType::DaqmxRawData => None,
        }
    }

    /// The element kind that data of this type is read as, for the types that
    /// can be read at all.
    pub open spec fn spec_native_type(self) -> Option<NativeTypeId> {
        match self {
            TdsType::Void => None,
            TdsType::I8 => Some(NativeTypeId::I8),
            TdsType::I16 => Some(NativeTypeId::I16),
            TdsType::I32 => Some(NativeTypeId::I32),
            TdsType::I64 => Some(NativeTypeId::I64),
            TdsType::U8 => Some(NativeTypeId::U8),
            TdsType::U16 => Some(NativeTypeId::U16),
            TdsType::U32 => Some(NativeTypeId::U32),
            TdsType::U64 => Some(NativeTypeId::U64),
            TdsType::SingleFloat => Some(NativeTypeId::F32),
            TdsType::DoubleFloat => Some(NativeTypeId::F64),
            TdsType::ExtendedFloat => None,
            TdsType::SingleFloatWithUnit => Some(NativeTypeId::F32),
            TdsType::DoubleFloatWithUnit => Some(NativeTypeId::F64),
            TdsType::ExtendedFloatWithUnit => None,
            TdsType::String => None,
            TdsType::Boolean => None,
            TdsType::TimeStamp => Some(NativeTypeId::Timestamp),
            TdsType::FixedPoint => None,
            TdsType::ComplexSingleFloat => None,
            TdsType::ComplexDoubleFloat => None,
            TdsType::DaqmxRawData => None,
        }
    }

    /// The type with the given wire tag; a format error for a tag that stands
    /// for no type.
    pub fn from_u32(type_id_raw: u32) -> (r: Result<TdsType>)
        ensures
            match r {
                Ok(t) => Self::spec_from_tag(type_id_raw) == Some(t),
                Err(e) => Self::spec_from_tag(type_id_raw) is None && e.begins_with(
                    "Invalid type id: "@,
                ),
            },
    {
        match type_id_raw {
            0 => Ok(TdsType::Void),
            1 => Ok(TdsType::I8),
            2 => Ok(TdsType::I16),
            3 => Ok(TdsType::I32),
            4 => Ok(TdsType::I64),
            5 => Ok(TdsType::U8),
            6 => Ok(TdsType::U16),
            7 => Ok(TdsType::U32),
            8 => Ok(TdsType::U64),
            9 => Ok(TdsType::SingleFloat),
            10 => Ok(TdsType::DoubleFloat),
            11 => Ok(TdsType::ExtendedFloat),
            0x19 => Ok(TdsType::SingleFloatWithUnit),
            0x1A => Ok(TdsType::DoubleFloatWithUnit),
            0x1B => Ok(TdsType::ExtendedFloatWithUnit),
            0x20 => Ok(TdsType::String),
            0x21 => Ok(TdsType::Boolean),
            0x44 => Ok(TdsType::TimeStamp),
            0x4F => Ok(TdsType::FixedPoint),
            0x8000C => Ok(TdsType::ComplexSingleFloat),
            0x10000D => Ok(TdsType::ComplexDoubleFloat),
            0xFFFFFFFF => Ok(TdsType::DaqmxRawData),
            _ => Err(TdmsReadError::format_with_number("Invalid type id: ", type_id_raw as u64)),
        }
    }

    /// The tag that stands for this type on the wire.
    pub fn tag(&self) -> (r: u32)
        ensures
            r == self.spec_tag(),
    {
        match *self {
            TdsType::Void => 0,
            TdsType::I8 => 1,
            TdsType::I16 => 2,
            TdsType::I32 => 3,
            TdsType::I64 => 4,
            TdsType::U8 => 5,
            TdsType::U16 => 6,
            TdsType::U32 => 7,
            TdsType::U64 => 8,
            TdsType::SingleFloat => 9,
            TdsType::DoubleFloat => 10,
            TdsType::ExtendedFloat => 11,
            TdsType::SingleFloatWithUnit => 0x19,
            TdsType::DoubleFloatWithUnit => 0x1A,
            TdsType::ExtendedFloatWithUnit => 0x1B,
            TdsType::String => 0x20,
            TdsType::Boolean => 0x21,
            TdsType::TimeStamp => 0x44,
            TdsType::FixedPoint => 0x4F,
            TdsType::ComplexSingleFloat => 0x8000C,
            TdsType::ComplexDoubleFloat => 0x10000D,
            TdsType::DaqmxRawData => 0xFFFFFFFF,
        }
    }

    pub fn size(&self) -> (r: Option<u32>)
        ensures
            r == self.spec_size(),
    {
        match *self {
            TdsType::Void => Some(0),
            TdsType::I8 => Some(1),
            TdsType::I16 => Some(2),
            TdsType::I32 => Some(4),
            TdsType::I64 => Some(8),
            TdsType::U8 => Some(1),
            TdsType::U16 => Some(2),
            TdsType::U32 => Some(4),
            TdsType::U64 => Some(8),
            TdsType::SingleFloat => Some(4),
            TdsType::DoubleFloat => Some(8),
            TdsType::ExtendedFloat => Some(16),
            TdsType::SingleFloatWithUnit => Some(4),
            TdsType::DoubleFloatWithUnit => Some(8),
            TdsType::ExtendedFloatWithUnit => Some(16),
            TdsType::String => None,
            TdsType::Boolean => Some(1),
            TdsType::TimeStamp => Some(16),
            TdsType::FixedPoint => None,
            TdsType::ComplexSingleFloat => Some(8),
            TdsType::ComplexDoubleFloat => Some(16),
            TdsType::DaqmxRawData => None,
        }
    }

    pub fn native_type(&self) -> (r: Option<NativeTypeId>)
        ensures
            r == self.spec_native_type(),
    {
        match *self {
            TdsType::Void => None,
            TdsType::I8 => Some(NativeTypeId::I8),
            TdsType::I16 => Some(NativeTypeId::I16),
            TdsType::I32 => Some(NativeTypeId::I32),
            TdsType::I64 => Some(NativeTypeId::I64),
            TdsType::U8 => Some(NativeTypeId::U8),
            TdsType::U16 => Some(NativeTypeId::U16),
            TdsType::U32 => Some(NativeTypeId::U32),
            TdsType::U64 => Some(NativeTypeId::U64),
            TdsType::SingleFloat => Some(NativeTypeId::F32),
            TdsType::DoubleFloat => Some(NativeTypeId::F64),
            TdsType::ExtendedFloat => None,
            TdsType::SingleFloatWithUnit => Some(NativeTypeId::F32),
            TdsType::DoubleFloatWithUnit => Some(NativeTypeId::F64),
            TdsType::ExtendedFloatWithUnit => None,
            TdsType::String => None,
            TdsType::Boolean => None,
            TdsType::TimeStamp => Some(NativeTypeId::Timestamp),
            TdsType::FixedPoint => None,
            TdsType::ComplexSingleFloat => None,
            TdsType::ComplexDoubleFloat => None,
            TdsType::DaqmxRawData => None,
        }
    }

    /// The name of the type, as used in messages.
    pub open spec fn spec_name(self) -> Seq<char> {
        match self {
            TdsType::Void => "Void"@,
            TdsType::I8 => "I8"@,
            TdsType::I16 => "I16"@,
            TdsType::I32 => "I32"@,
            TdsType::I64 => "I64"@,
            TdsType::U8 => "U8"@,
            TdsType::U16 => "U16"@,
            TdsType::U32 => "U32"@,
            TdsType::U64 => "U64"@,
            TdsType::SingleFloat => "SingleFloat"@,
            TdsType::DoubleFloat => "DoubleFloat"@,
            TdsType::ExtendedFloat => "ExtendedFloat"@,
            TdsType::SingleFloatWithUnit => "SingleFloatWithUnit"@,
            TdsType::DoubleFloatWithUnit => "DoubleFloatWithUnit"@,
            TdsType::ExtendedFloatWithUnit => "ExtendedFloatWithUnit"@,
            TdsType::String => "String"@,
            TdsType::Boolean => "Boolean"@,
            TdsType::TimeStamp => "TimeStamp"@,
            TdsType::FixedPoint => "FixedPoint"@,
            TdsType::ComplexSingleFloat => "ComplexSingleFloat"@,
            TdsType::ComplexDoubleFloat => "ComplexDoubleFloat"@,
            TdsType::DaqmxRawData => "DaqmxRawData"@,
        }
    }

    /// The name of the type, as used in messages.
    pub fn name(&self) -> (r: &'static str)
        ensures
            r@ == self.spec_name(),
    {
        match *self {
            TdsType::Void => "Void",
            TdsType::I8 => "I8",
            TdsType::I16 => "I16",
            TdsType::I32 => "I32",
            TdsType::I64 => "I64",
            TdsType::U8 => "U8",
            TdsType::U16 => "U16",
            TdsType::U32 => "U32",
            TdsType::U64 => "U64",
            TdsType::SingleFloat => "SingleFloat",
            TdsType::DoubleFloat => "DoubleFloat",
            TdsType::ExtendedFloat => "ExtendedFloat",
            TdsType::SingleFloatWithUnit => "SingleFloatWithUnit",
            TdsType::DoubleFloatWithUnit => "DoubleFloatWithUnit",
            TdsType::ExtendedFloatWithUnit => "ExtendedFloatWithUnit",
            TdsType::String => "String",
            TdsType::Boolean => "Boolean",
            TdsType::TimeStamp => "TimeStamp",
            TdsType::FixedPoint => "FixedPoint",
            TdsType::ComplexSingleFloat => "ComplexSingleFloat",
            TdsType::ComplexDoubleFloat => "ComplexDoubleFloat",
            TdsType::DaqmxRawData => "DaqmxRawData",
        }
    }

    /// Every type that can be read into a typed buffer has a fixed size.
    pub proof fn lemma_native_types_are_sized(self)
        requires
            self.spec_native_type() is Some,
        ensures
            self.spec_size() is Some,
            self.spec_size()->0 == self.spec_native_type()->0.spec_width(),
    {
    }
}

impl NativeTypeId {
    /// Size in bytes of one element of this kind.
    pub open spec fn spec_width(self) -> nat {
        match self {
            NativeTypeId::I8 => 1,
            NativeTypeId::I16 => 2,
            NativeTypeId::I32 => 4,
            NativeTypeId::I64 => 8,
            NativeTypeId::U8 => 1,
            NativeTypeId::U16 => 2,
            NativeTypeId::U32 => 4,
            NativeTypeId::U64 => 8,
            NativeTypeId::F32 => 4,
            NativeTypeId::F64 => 8,
            NativeTypeId::Timestamp => 16,
        }
    }

    /// Size in bytes of one element of this kind.
    pub fn width(&self) -> (r: usize)
        ensures
            r == self.spec_width(),
            1 <= r <= 16,
    {
        match *self {
            NativeTypeId::I8 => 1,
            NativeTypeId::I16 => 2,
            NativeTypeId::I32 => 4,
            NativeTypeId::I64 => 8,
            NativeTypeId::U8 => 1,
            NativeTypeId::U16 => 2,
            NativeTypeId::U32 => 4,
            NativeTypeId::U64 => 8,
            NativeTypeId::F32 => 4,
            NativeTypeId::F64 => 8,
            NativeTypeId::Timestamp => 16,
        }
    }

    /// The name of the kind, as used in messages.
    pub open spec fn spec_name(self) -> Seq<char> {
        match self {
            NativeTypeId::I8 => "I8"@,
            NativeTypeId::I16 => "I16"@,
            NativeTypeId::I32 => "I32"@,
            NativeTypeId::I64 => "I64"@,
            NativeTypeId::U8 => "U8"@,
            NativeTypeId::U16 => "U16"@,
            NativeTypeId::U32 => "U32"@,
            NativeTypeId::U64 => "U64"@,
            NativeTypeId::F32 => "F32"@,
            NativeTypeId::F64 => "F64"@,
            NativeTypeId::Timestamp => "Timestamp"@,
        }
    }

    /// The name of the kind, as used in messages.
    pub fn name(&self) -> (r: &'static str)
        ensures
            r@ == self.spec_name(),
    {
        match *self {
            NativeTypeId::I8 => "I8",
            NativeTypeId::I16 => "I16",
            NativeTypeId::I32 => "I32",
            NativeTypeId::I64 => "I64",
            NativeTypeId::U8 => "U8",
            NativeTypeId::U16 => "U16",
            NativeTypeId::U32 => "U32",
            NativeTypeId::U64 => "U64",
            NativeTypeId::F32 => "F32",
            NativeTypeId::F64 => "F64",
            NativeTypeId::Timestamp => "Timestamp",
        }
    }
}

} // verus!
