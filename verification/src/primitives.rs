//! The primitive decoder: fixed-width integers, float bit patterns,
//! timestamps and length-prefixed strings, read from a byte source in either
//! byte order.

use byteorder::{BigEndian, LittleEndian};
use crate::byte_order::{
    be_read_u16, be_read_u32, be_read_u64, le_read_u16, le_read_u32, le_read_u64, uint_value,
};
use crate::byte_reader::{ByteSource, parsed, parsed_view};
use crate::error::{ErrorKind, Result, TdmsReadError};
use crate::sealed::SealedNativeType;
use crate::timestamp::Timestamp;
use crate::types::NativeTypeId;
use vstd::prelude::*;
use vstd::slice::slice_subrange;
use vstd::utf8::{decode_utf8, valid_utf8};

verus! {

/// The signed 8-bit number with the two's complement bits of `v`.
pub open spec fn signed8(v: nat) -> i8 {
    if v < 0x80 {
        v as i8
    } else {
        (v - 0x100) as i8
    }
}

/// The signed 16-bit number with the two's complement bits of `v`.
pub open spec fn signed16(v: nat) -> i16 {
    if v < 0x8000 {
        v as i16
    } else {
        (v - 0x1_0000) as i16
    }
}

/// The signed 32-bit number with the two's complement bits of `v`.
pub open spec fn signed32(v: nat) -> i32 {
    if v < 0x8000_0000 {
        v as i32
    } else {
        (v - 0x1_0000_0000) as i32
    }
}

/// The signed 64-bit number with the two's complement bits of `v`.
pub open spec fn signed64(v: nat) -> i64 {
    if v < 0x8000_0000_0000_0000 {
        v as i64
    } else {
        (v - 0x1_0000_0000_0000_0000) as i64
    }
}

/// The timestamp that 16 bytes hold. In little-endian order the fractions
/// come first and the seconds second; in big-endian order the seconds come
/// first.
pub open spec fn spec_timestamp(b: Seq<u8>, big_endian: bool) -> Timestamp {
    if big_endian {
        Timestamp {
            seconds: signed64(uint_value(b.subrange(0, 8), true)),
            second_fractions: uint_value(b.subrange(8, 16), true) as u64,
        }
    } else {
        Timestamp {
            second_fractions: uint_value(b.subrange(0, 8), false) as u64,
            seconds: signed64(uint_value(b.subrange(8, 16), false)),
        }
    }
}

fn to_i8(v: u8) -> (r: i8)
    ensures
        r == signed8(v as nat),
{
    assert(#[verifier::truncate] (v as i8) == (if v < 0x80u8 {
        v as int
    } else {
        v as int - 0x100
    })) by (bit_vector);
    #[verifier::truncate]
    (v as i8)
}

fn to_i16(v: u16) -> (r: i16)
    ensures
        r == signed16(v as nat),
{
    assert(#[verifier::truncate] (v as i16) == (if v < 0x8000u16 {
        v as int
    } else {
        v as int - 0x1_0000
    })) by (bit_vector);
    #[verifier::truncate]
    (v as i16)
}

fn to_i32(v: u32) -> (r: i32)
    ensures
        r == signed32(v as nat),
{
    assert(#[verifier::truncate] (v as i32) == (if v < 0x8000_0000u32 {
        v as int
    } else {
        v as int - 0x1_0000_0000
    })) by (bit_vector);
    #[verifier::truncate]
    (v as i32)
}

fn to_i64(v: u64) -> (r: i64)
    ensures
        r == signed64(v as nat),
{
    assert(#[verifier::truncate] (v as i64) == (if v < 0x8000_0000_0000_0000u64 {
        v as int
    } else {
        v as int - 0x1_0000_0000_0000_0000
    })) by (bit_vector);
    #[verifier::truncate]
    (v as i64)
}

/// A byte order, as a parameter of the decoders.
pub trait ByteOrderExt {
    /// Whether the most significant byte comes first.
    spec fn spec_big_endian() -> bool;

    /// Whether the most significant byte comes first.
    fn big_endian() -> (r: bool)
        ensures
            r == Self::spec_big_endian(),
    ;

    /// The number in the first two bytes of `buf`.
    fn read_u16(buf: &[u8]) -> (r: u16)
        requires
            buf@.len() >= 2,
        ensures
            r as nat == uint_value(buf@.take(2), Self::spec_big_endian()),
    ;

    /// The number in the first four bytes of `buf`.
    fn read_u32(buf: &[u8]) -> (r: u32)
        requires
            buf@.len() >= 4,
        ensures
            r as nat == uint_value(buf@.take(4), Self::spec_big_endian()),
    ;

    /// The number in the first eight bytes of `buf`.
    fn read_u64(buf: &[u8]) -> (r: u64)
        requires
            buf@.len() >= 8,
        ensures
            r as nat == uint_value(buf@.take(8), Self::spec_big_endian()),
    ;

    /// The timestamp in the first sixteen bytes of `buf`.
    fn read_timestamp(buf: &[u8]) -> (r: Timestamp)
        requires
            buf@.len() >= 16,
        ensures
            r == spec_timestamp(buf@.take(16), Self::spec_big_endian()),
    ;
}

impl ByteOrderExt for LittleEndian {
    open spec fn spec_big_endian() -> bool {
        false
    }

    fn big_endian() -> (r: bool) {
        false
    }

    fn read_u16(buf: &[u8]) -> (r: u16) {
        le_read_u16(buf)
    }

    fn read_u32(buf: &[u8]) -> (r: u32) {
        le_read_u32(buf)
    }

    fn read_u64(buf: &[u8]) -> (r: u64) {
        le_read_u64(buf)
    }

    fn read_timestamp(buf: &[u8]) -> (r: Timestamp) {
        let second_fractions = le_read_u64(slice_subrange(buf, 0, 8));
        let seconds = to_i64(le_read_u64(slice_subrange(buf, 8, 16)));
        proof {
            assert(buf@.subrange(0, 8).take(8) =~= buf@.take(16).subrange(0, 8));
            assert(buf@.subrange(8, 16).take(8) =~= buf@.take(16).subrange(8, 16));
        }
        Timestamp::new(seconds, second_fractions)
    }
}

impl ByteOrderExt for BigEndian {
    open spec fn spec_big_endian() -> bool {
        true
    }

    fn big_endian() -> (r: bool) {
        true
    }

    fn read_u16(buf: &[u8]) -> (r: u16) {
        be_read_u16(buf)
    }

    fn read_u32(buf: &[u8]) -> (r: u32) {
        be_read_u32(buf)
    }

    fn read_u64(buf: &[u8]) -> (r: u64) {
        be_read_u64(buf)
    }

    fn read_timestamp(buf: &[u8]) -> (r: Timestamp) {
        let seconds = to_i64(be_read_u64(slice_subrange(buf, 0, 8)));
        let second_fractions = be_read_u64(slice_subrange(buf, 8, 16));
        proof {
            assert(buf@.subrange(0, 8).take(8) =~= buf@.take(16).subrange(0, 8));
            assert(buf@.subrange(8, 16).take(8) =~= buf@.take(16).subrange(8, 16));
        }
        Timestamp::new(seconds, second_fractions)
    }
}

/// A single-precision float, held as its IEEE 754 bit pattern.
#[derive(Clone, Copy, Debug, PartialEq, Eq, Structural)]
pub struct Float32Bits(pub u32);

/// A double-precision float, held as its IEEE 754 bit pattern.
#[derive(Clone, Copy, Debug, PartialEq, Eq, Structural)]
pub struct Float64Bits(pub u64);

/// A native rust type that TDMS channel data can be read as.
/// This is a sealed trait that cannot be implemented outside this crate.
pub trait NativeType: SealedNativeType + Sized + Copy {
    /// The element kind of this type.
    spec fn spec_native_type() -> NativeTypeId;

    /// The value that the bytes of one element hold in the given byte order.
    spec fn spec_decode(bytes: Seq<u8>, big_endian: bool) -> Self;

    /// The value that a buffer is filled with before it is read into.
    spec fn spec_zero() -> Self;

    /// The element kind of this type.
    fn native_type() -> (r: NativeTypeId)
        ensures
            r == Self::spec_native_type(),
    ;

    /// The value that a buffer is filled with before it is read into.
    fn zero() -> (r: Self)
        ensures
            r == Self::spec_zero(),
    ;

    /// Decodes the bytes of one element.
    fn decode<O: ByteOrderExt>(bytes: &[u8]) -> (r: Self)
        requires
            bytes@.len() == Self::spec_native_type().spec_width(),
        ensures
            r == Self::spec_decode(bytes@, O::spec_big_endian()),
    ;
}

impl NativeType for u8 {
    open spec fn spec_native_type() -> NativeTypeId {
        NativeTypeId::U8
    }

    open spec fn spec_decode(bytes: Seq<u8>, big_endian: bool) -> u8 {
        bytes[0]
    }

    open spec fn spec_zero() -> u8 {
        0
    }

    fn native_type() -> (r: NativeTypeId) {
        NativeTypeId::U8
    }

    fn zero() -> (r: u8) {
        0
    }

    fn decode<O: ByteOrderExt>(bytes: &[u8]) -> (r: u8) {
        bytes[0]
    }
}

impl NativeType for i8 {
    open spec fn spec_native_type() -> NativeTypeId {
        NativeTypeId::I8
    }

    open spec fn spec_decode(bytes: Seq<u8>, big_endian: bool) -> i8 {
        signed8(bytes[0] as nat)
    }

    open spec fn spec_zero() -> i8 {
        0
    }

    fn native_type() -> (r: NativeTypeId) {
        NativeTypeId::I8
    }

    fn zero() -> (r: i8) {
        0
    }

    fn decode<O: ByteOrderExt>(bytes: &[u8]) -> (r: i8) {
        to_i8(bytes[0])
    }
}

impl NativeType for u16 {
    open spec fn spec_native_type() -> NativeTypeId {
        NativeTypeId::U16
    }

    open spec fn spec_decode(bytes: Seq<u8>, big_endian: bool) -> u16 {
        uint_value(bytes, big_endian) as u16
    }

    open spec fn spec_zero() -> u16 {
        0
    }

    fn native_type() -> (r: NativeTypeId) {
        NativeTypeId::U16
    }

    fn zero() -> (r: u16) {
        0
    }

    fn decode<O: ByteOrderExt>(bytes: &[u8]) -> (r: u16) {
        assert(bytes@.take(2) =~= bytes@);
        O::read_u16(bytes)
    }
}

impl NativeType for i16 {
    open spec fn spec_native_type() -> NativeTypeId {
        NativeTypeId::I16
    }

    open spec fn spec_decode(bytes: Seq<u8>, big_endian: bool) -> i16 {
        signed16(uint_value(bytes, big_endian))
    }

    open spec fn spec_zero() -> i16 {
        0
    }

    fn native_type() -> (r: NativeTypeId) {
        NativeTypeId::I16
    }

    fn zero() -> (r: i16) {
        0
    }

    fn decode<O: ByteOrderExt>(bytes: &[u8]) -> (r: i16) {
        assert(bytes@.take(2) =~= bytes@);
        to_i16(O::read_u16(bytes))
    }
}

impl NativeType for u32 {
    open spec fn spec_native_type() -> NativeTypeId {
        NativeTypeId::U32
    }

    open spec fn spec_decode(bytes: Seq<u8>, big_endian: bool) -> u32 {
        uint_value(bytes, big_endian) as u32
    }

    open spec fn spec_zero() -> u32 {
        0
    }

    fn native_type() -> (r: NativeTypeId) {
        NativeTypeId::U32
    }

    fn zero() -> (r: u32) {
        0
    }

    fn decode<O: ByteOrderExt>(bytes: &[u8]) -> (r: u32) {
        assert(bytes@.take(4) =~= bytes@);
        O::read_u32(bytes)
    }
}

impl NativeType for i32 {
    open spec fn spec_native_type() -> NativeTypeId {
        NativeTypeId::I32
    }

    open spec fn spec_decode(bytes: Seq<u8>, big_endian: bool) -> i32 {
        signed32(uint_value(bytes, big_endian))
    }

    open spec fn spec_zero() -> i32 {
        0
    }

    fn native_type() -> (r: NativeTypeId) {
        NativeTypeId::I32
    }

    fn zero() -> (r: i32) {
        0
    }

    fn decode<O: ByteOrderExt>(bytes: &[u8]) -> (r: i32) {
        assert(bytes@.take(4) =~= bytes@);
        to_i32(O::read_u32(bytes))
    }
}

impl NativeType for u64 {
    open spec fn spec_native_type() -> NativeTypeId {
        NativeTypeId::U64
    }

    open spec fn spec_decode(bytes: Seq<u8>, big_endian: bool) -> u64 {
        uint_value(bytes, big_endian) as u64
    }

    open spec fn spec_zero() -> u64 {
        0
    }

    fn native_type() -> (r: NativeTypeId) {
        NativeTypeId::U64
    }

    fn zero() -> (r: u64) {
        0
    }

    fn decode<O: ByteOrderExt>(bytes: &[u8]) -> (r: u64) {
        assert(bytes@.take(8) =~= bytes@);
        O::read_u64(bytes)
    }
}

impl NativeType for i64 {
    open spec fn spec_native_type() -> NativeTypeId {
        NativeTypeId::I64
    }

    open spec fn spec_decode(bytes: Seq<u8>, big_endian: bool) -> i64 {
        signed64(uint_value(bytes, big_endian))
    }

    open spec fn spec_zero() -> i64 {
        0
    }

    fn native_type() -> (r: NativeTypeId) {
        NativeTypeId::I64
    }

    fn zero() -> (r: i64) {
        0
    }

    fn decode<O: ByteOrderExt>(bytes: &[u8]) -> (r: i64) {
        assert(bytes@.take(8) =~= bytes@);
        to_i64(O::read_u64(bytes))
    }
}

impl NativeType for Float32Bits {
    open spec fn spec_native_type() -> NativeTypeId {
        NativeTypeId::F32
    }

    open spec fn spec_decode(bytes: Seq<u8>, big_endian: bool) -> Float32Bits {
        Float32Bits(uint_value(bytes, big_endian) as u32)
    }

    open spec fn spec_zero() -> Float32Bits {
        Float32Bits(0)
    }

    fn native_type() -> (r: NativeTypeId) {
        NativeTypeId::F32
    }

    fn zero() -> (r: Float32Bits) {
        Float32Bits(0)
    }

    fn decode<O: ByteOrderExt>(bytes: &[u8]) -> (r: Float32Bits) {
        assert(bytes@.take(4) =~= bytes@);
        Float32Bits(O::read_u32(bytes))
    }
}

impl NativeType for Float64Bits {
    open spec fn spec_native_type() -> NativeTypeId {
        NativeTypeId::F64
    }

    open spec fn spec_decode(bytes: Seq<u8>, big_endian: bool) -> Float64Bits {
        Float64Bits(uint_value(bytes, big_endian) as u64)
    }

    open spec fn spec_zero() -> Float64Bits {
        Float64Bits(0)
    }

    fn native_type() -> (r: NativeTypeId) {
        NativeTypeId::F64
    }

    fn zero() -> (r: Float64Bits) {
        Float64Bits(0)
    }

    fn decode<O: ByteOrderExt>(bytes: &[u8]) -> (r: Float64Bits) {
        assert(bytes@.take(8) =~= bytes@);
        Float64Bits(O::read_u64(bytes))
    }
}

impl NativeType for Timestamp {
    open spec fn spec_native_type() -> NativeTypeId {
        NativeTypeId::Timestamp
    }

    open spec fn spec_decode(bytes: Seq<u8>, big_endian: bool) -> Timestamp {
        spec_timestamp(bytes, big_endian)
    }

    open spec fn spec_zero() -> Timestamp {
        Timestamp { seconds: 0, second_fractions: 0 }
    }

    fn native_type() -> (r: NativeTypeId) {
        NativeTypeId::Timestamp
    }

    fn zero() -> (r: Timestamp) {
        Timestamp { seconds: 0, second_fractions: 0 }
    }

    fn decode<O: ByteOrderExt>(bytes: &[u8]) -> (r: Timestamp) {
        assert(bytes@.take(16) =~= bytes@);
        O::read_timestamp(bytes)
    }
}

/// `String::from_utf8`: the string that the bytes encode, and an error
/// exactly when they are not valid UTF-8.
#[verifier::external_body]
fn string_from_utf8(bytes: Vec<u8>) -> (r: std::result::Result<
    String,
    std::string::FromUtf8Error,
>)
    ensures
        match r {
            Ok(s) => valid_utf8(bytes@) && s@ == decode_utf8(bytes@),
            Err(_) => !valid_utf8(bytes@),
        },
{
    String::from_utf8(bytes)
}

/// What reading one element of type `T` from the front of `input` gives: the
/// decoded value and the element's width, or an IO error if `input` is
/// shorter than one element.
pub open spec fn spec_read_value<T: NativeType>(input: Seq<u8>, big_endian: bool)
    -> std::result::Result<(T, nat), ErrorKind> {
    let width = T::spec_native_type().spec_width();
    if input.len() < width {
        Err(ErrorKind::Io)
    } else {
        Ok((T::spec_decode(input.take(width as int), big_endian), width))
    }
}

/// What reading a length-prefixed string from the front of `input` gives: an
/// unsigned 32-bit count of bytes, then that many bytes of UTF-8.
#[verifier::opaque]
pub open spec fn spec_read_string(input: Seq<u8>, big_endian: bool) -> std::result::Result<
    (Seq<char>, nat),
    ErrorKind,
> {
    match spec_read_value::<u32>(input, big_endian) {
        Err(kind) => Err(kind),
        Ok((length, _)) => {
            if input.len() < 4 + length {
                Err(ErrorKind::Io)
            } else if !valid_utf8(input.subrange(4, 4 + length)) {
                Err(ErrorKind::Utf8)
            } else {
                Ok((decode_utf8(input.subrange(4, 4 + length)), (4 + length) as nat))
            }
        },
    }
}

/// Reads one element of type `T` in the byte order `O`.
pub fn read_value<T: NativeType, S: ByteSource, O: ByteOrderExt>(source: &mut S) -> (r: Result<T>)
    requires
        old(source).wf(),
    ensures
        final(source).wf(),
        parsed(
            r,
            spec_read_value::<T>(old(source).remaining(), O::spec_big_endian()),
            old(source).remaining(),
            final(source).remaining(),
        ),
{
    let width = T::native_type().width();
    let mut buf = vec![0u8; width];
    match source.read_exact(buf.as_mut_slice()) {
        Ok(_) => Ok(T::decode::<O>(buf.as_slice())),
        Err(e) => Err(e),
    }
}

/// Reads a 16-byte timestamp in the byte order `O`.
pub fn read_timestamp<S: ByteSource, O: ByteOrderExt>(source: &mut S) -> (r: Result<Timestamp>)
    requires
        old(source).wf(),
    ensures
        final(source).wf(),
        parsed(
            r,
            spec_read_value::<Timestamp>(old(source).remaining(), O::spec_big_endian()),
            old(source).remaining(),
            final(source).remaining(),
        ),
{
    read_value::<Timestamp, S, O>(source)
}

/// Reads a string: its length in bytes as a `u32` in the byte order `O`, then
/// its bytes, which have to be UTF-8.
pub fn read_string<S: ByteSource, O: ByteOrderExt>(source: &mut S) -> (r: Result<String>)
    requires
        old(source).wf(),
    ensures
        final(source).wf(),
        parsed_view(
            r,
            spec_read_string(old(source).remaining(), O::spec_big_endian()),
            old(source).remaining(),
            final(source).remaining(),
        ),
{
    reveal(spec_read_string);
    let ghost input = source.remaining();
    let string_length = match read_value::<u32, S, O>(source) {
        Ok(n) => n,
        Err(e) => {
            return Err(e);
        },
    };
    let mut string_bytes = vec![0u8; string_length as usize];
    match source.read_exact(string_bytes.as_mut_slice()) {
        Ok(_) => {},
        Err(e) => {
            return Err(e);
        },
    }
    proof {
        assert(string_bytes@ =~= input.subrange(4, 4 + string_length));
        assert(source.remaining() =~= input.skip(4 + string_length));
    }
    match string_from_utf8(string_bytes) {
        Ok(s) => Ok(s),
        Err(e) => Err(TdmsReadError::Utf8Error(e)),
    }
}

/// The bytes of the `index`-th element of width `width` in `input`.
pub open spec fn element_bytes(input: Seq<u8>, index: int, width: int) -> Seq<u8> {
    input.subrange(index * width, index * width + width)
}

/// Reads `num_values` elements of type `T` in the byte order `O` into
/// `target_buffer`, from index `start` on. Fails with an IO error exactly
/// when the source holds fewer bytes than the elements take; the buffer may
/// then have been written in part.
pub fn read_values<T: NativeType, S: ByteSource, O: ByteOrderExt>(
    target_buffer: &mut [T],
    start: usize,
    source: &mut S,
    num_values: usize,
) -> (r: Result<()>)
    requires
        old(source).wf(),
        start + num_values <= old(target_buffer)@.len(),
    ensures
        final(source).wf(),
        final(target_buffer)@.len() == old(target_buffer)@.len(),
        forall|j: int|
            0 <= j < start || start + num_values <= j < old(target_buffer)@.len()
                ==> final(target_buffer)@[j] == old(target_buffer)@[j],
        match r {
            Ok(_) => {
                &&& num_values * T::spec_native_type().spec_width() <= old(source).remaining().len()
                &&& final(source).remaining() == old(source).remaining().skip(
                    num_values * T::spec_native_type().spec_width(),
                )
                &&& forall|i: int|
                    0 <= i < num_values ==> #[trigger] final(target_buffer)@[start + i]
                        == T::spec_decode(
                        element_bytes(
                            old(source).remaining(),
                            i,
                            T::spec_native_type().spec_width() as int,
                        ),
                        O::spec_big_endian(),
                    )
            },
            Err(e) => {
                &&& num_values * T::spec_native_type().spec_width() > old(source).remaining().len()
                &&& e.spec_kind() == ErrorKind::Io
            },
        },
{
    let ghost input = source.remaining();
    let ghost be = O::spec_big_endian();
    let width = T::native_type().width();
    let ghost w = width as int;
    let mut buf = vec![0u8; width];
    let length = target_buffer.len();
    let mut i: usize = 0;
    while i < num_values
        invariant
            i <= num_values,
            start + num_values <= length,
            length == target_buffer@.len(),
            input == old(source).remaining(),
            source.wf(),
            target_buffer@.len() == old(target_buffer)@.len(),
            w == width,
            w == T::spec_native_type().spec_width(),
            1 <= w <= 16,
            be == O::spec_big_endian(),
            buf@.len() == w,
            i * w <= input.len(),
            source.remaining() == input.skip(i * w),
            forall|j: int|
                0 <= j < start || start + num_values <= j < old(target_buffer)@.len()
                    ==> target_buffer@[j] == old(target_buffer)@[j],
            forall|k: int|
                0 <= k < i ==> #[trigger] target_buffer@[start + k] == T::spec_decode(
                    element_bytes(input, k, w),
                    be,
                ),
        decreases num_values - i,
    {
        proof {
            assert((i + 1) * w == i * w + w) by (nonlinear_arith);
            assert(num_values * w >= (i + 1) * w) by (nonlinear_arith)
                requires
                    i < num_values,
                    w >= 1,
            ;
        }
        match source.read_exact(buf.as_mut_slice()) {
            Ok(_) => {},
            Err(e) => {
                assert(input.skip(i * w).len() == input.len() - i * w);
                return Err(e);
            },
        }
        let value = T::decode::<O>(buf.as_slice());
        proof {
            assert(buf@ =~= element_bytes(input, i as int, w));
            assert(source.remaining() =~= input.skip((i + 1) * w));
        }
        target_buffer[start + i] = value;
        i += 1;
    }
    Ok(())
}

/// A number below `rows * columns` is a row below `rows` and a column below
/// `columns`.
pub proof fn lemma_quotient(index: int, columns: int, rows: int)
    requires
        0 <= index < rows * columns,
        0 <= columns,
        0 <= rows,
    ensures
        columns > 0,
        0 <= index / columns < rows,
        0 <= index % columns < columns,
        index == (index / columns) * columns + index % columns,
{
    assert(columns > 0) by (nonlinear_arith)
        requires
            0 <= index < rows * columns,
            0 <= columns,
    ;
    assert(0 <= index / columns < rows && 0 <= index % columns < columns && index == (index
        / columns) * columns + index % columns) by (nonlinear_arith)
        requires
            0 <= index < rows * columns,
            columns > 0,
    ;
}

} // verus!
