//! The seal of the element kinds: only this library says which types channel
//! data can be read as.

use crate::primitives::{Float32Bits, Float64Bits};
use crate::timestamp::Timestamp;
use vstd::prelude::*;

verus! {

pub trait SealedNativeType {

}

impl SealedNativeType for i8 {

}

impl SealedNativeType for i16 {

}

impl SealedNativeType for i32 {

}

impl SealedNativeType for i64 {

}

impl SealedNativeType for u8 {

}

impl SealedNativeType for u16 {

}

impl SealedNativeType for u32 {

}

impl SealedNativeType for u64 {

}

impl SealedNativeType for Float32Bits {

}

impl SealedNativeType for Float64Bits {

}

impl SealedNativeType for Timestamp {

}

} // verus!
