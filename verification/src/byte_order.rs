//! Fixed-width unsigned integers as they lie in a byte sequence, in either
//! byte order, and the decoders that read them.

use byteorder::{BigEndian, ByteOrder, LittleEndian};
use vstd::prelude::*;

verus! {

/// `byteorder::LittleEndian`, the marker type of the little-endian byte
/// order; it has no values.
#[verifier::external_type_specification]
#[verifier::external_body]
pub struct ExLittleEndian(LittleEndian);

/// `byteorder::BigEndian`, the marker type of the big-endian byte order; it
/// has no values.
#[verifier::external_type_specification]
#[verifier::external_body]
pub struct ExBigEndian(BigEndian);

/// The number whose little-endian digits in base 256 are `b`: the first byte
/// is the least significant.
pub open spec fn le_value(b: Seq<u8>) -> nat
    decreases b.len(),
{
    if b.len() == 0 {
        0
    } else {
        b[0] as nat + 256 * le_value(b.drop_first())
    }
}

/// The number whose big-endian digits in base 256 are `b`: the last byte is
/// the least significant.
pub open spec fn be_value(b: Seq<u8>) -> nat
    decreases b.len(),
{
    if b.len() == 0 {
        0
    } else {
        be_value(b.drop_last()) * 256 + b.last() as nat
    }
}

/// The number that `b` holds in the given byte order.
pub open spec fn uint_value(b: Seq<u8>, big_endian: bool) -> nat {
    if big_endian {
        be_value(b)
    } else {
        le_value(b)
    }
}

/// `byteorder::LittleEndian::read_u16`: the first two bytes of `buf` as a
/// little-endian number. The outside function panics on a shorter slice.
#[verifier::external_body]
pub(crate) fn le_read_u16(buf: &[u8]) -> (r: u16)
    requires
        buf@.len() >= 2,
    ensures
        r as nat == le_value(buf@.take(2)),
{
    <LittleEndian as ByteOrder>::read_u16(buf)
}

/// `byteorder::LittleEndian::read_u32`: the first four bytes of `buf` as a
/// little-endian number. The outside function panics on a shorter slice.
#[verifier::external_body]
pub(crate) fn le_read_u32(buf: &[u8]) -> (r: u32)
    requires
        buf@.len() >= 4,
    ensures
        r as nat == le_value(buf@.take(4)),
{
    <LittleEndian as ByteOrder>::read_u32(buf)
}

/// `byteorder::LittleEndian::read_u64`: the first eight bytes of `buf` as a
/// little-endian number. The outside function panics on a shorter slice.
#[verifier::external_body]
pub(crate) fn le_read_u64(buf: &[u8]) -> (r: u64)
    requires
        buf@.len() >= 8,
    ensures
        r as nat == le_value(buf@.take(8)),
{
    <LittleEndian as ByteOrder>::read_u64(buf)
}

/// `byteorder::BigEndian::read_u16`: the first two bytes of `buf` as a
/// big-endian number. The outside function panics on a shorter slice.
#[verifier::external_body]
pub(crate) fn be_read_u16(buf: &[u8]) -> (r: u16)
    requires
        buf@.len() >= 2,
    ensures
        r as nat == be_value(buf@.take(2)),
{
    <BigEndian as ByteOrder>::read_u16(buf)
}

/// `byteorder::BigEndian::read_u32`: the first four bytes of `buf` as a
/// big-endian number. The outside function panics on a shorter slice.
#[verifier::external_body]
pub(crate) fn be_read_u32(buf: &[u8]) -> (r: u32)
    requires
        buf@.len() >= 4,
    ensures
        r as nat == be_value(buf@.take(4)),
{
    <BigEndian as ByteOrder>::read_u32(buf)
}

/// `byteorder::BigEndian::read_u64`: the first eight bytes of `buf` as a
/// big-endian number. The outside function panics on a shorter slice.
#[verifier::external_body]
pub(crate) fn be_read_u64(buf: &[u8]) -> (r: u64)
    requires
        buf@.len() >= 8,
    ensures
        r as nat == be_value(buf@.take(8)),
{
    <BigEndian as ByteOrder>::read_u64(buf)
}

} // verus!
