//! Table-of-contents bit mask found in every segment lead-in.

use vstd::prelude::*;

verus! {

/// A named bit of the table-of-contents mask.
#[derive(Clone, Copy, Debug, PartialEq, Eq, Structural)]
pub enum TocFlag {
    MetaData,
    NewObjList,
    RawData,
    InterleavedData,
    BigEndian,
    DaqMxRawData,
}

impl TocFlag {
    /// The mask value of the flag: a single bit of the 32-bit mask.
    pub open spec fn spec_bit(self) -> u32 {
        match self {
            TocFlag::MetaData => 0x02,
            TocFlag::NewObjList => 0x04,
            TocFlag::RawData => 0x08,
            TocFlag::InterleavedData => 0x20,
            TocFlag::BigEndian => 0x40,
            TocFlag::DaqMxRawData => 0x80,
        }
    }

    /// The mask value of the flag.
    pub fn bit(self) -> (r: u32)
        ensures
            r == self.spec_bit(),
    {
        match self {
            TocFlag::MetaData => 0x02,
            TocFlag::NewObjList => 0x04,
            TocFlag::RawData => 0x08,
            TocFlag::InterleavedData => 0x20,
            TocFlag::BigEndian => 0x40,
            TocFlag::DaqMxRawData => 0x80,
        }
    }
}

/// The table-of-contents mask of one segment. Bits are only ever tested;
/// unknown bits are carried along and ignored.
#[derive(Clone, Copy, Debug)]
pub struct TocMask {
    flags: u32,
}

impl View for TocMask {
    type V = u32;

    closed spec fn view(&self) -> u32 {
        self.flags
    }
}

impl TocMask {
    /// Whether the mask `flags` has every bit of `flag` set.
    pub open spec fn spec_has_flag(flags: u32, flag: TocFlag) -> bool {
        flags & flag.spec_bit() == flag.spec_bit()
    }

    pub fn from_flags(flags: u32) -> (r: TocMask)
        ensures
            r@ == flags,
    {
        TocMask { flags }
    }

    /// The raw 32-bit mask.
    pub fn flags(&self) -> (r: u32)
        ensures
            r == self@,
    {
        self.flags
    }

    pub fn has_flag(&self, flag: TocFlag) -> (r: bool)
        ensures
            r == Self::spec_has_flag(self@, flag),
    {
        let flag_val: u32 = flag.bit();
        (self.flags & flag_val) == flag_val
    }
}

} // verus!
