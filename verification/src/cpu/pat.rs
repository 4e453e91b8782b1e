//! The page attribute table: the mapping from memory types to PAT indices
//! and the 64-bit value programmed into the PAT register.

use crate::cpu::MemoryType;
use vstd::prelude::*;

verus! {

/// An index into the eight-entry page attribute table.
#[derive(Debug, Clone, Copy, PartialEq, Eq, Structural)]
pub struct Index(pub u32);

impl Index {
    /// The raw table position.
    pub fn index(&self) -> (r: usize)
        ensures
            r == self.0 as usize,
    {
        self.0 as usize
    }

    /// The page-write-through bit an entry with this index sets: bit 0 of
    /// the index.
    pub fn pwt(&self) -> (r: bool)
        ensures
            r == (self.0 % 2 == 1),
    {
        (self.0 % 2) == 1
    }

    /// The page-cache-disable bit an entry with this index sets: bit 1 of
    /// the index, so stored entries 2 and 3 set it and 0 and 1 leave it
    /// clear.
    pub fn pcd(&self) -> (r: bool)
        ensures
            r == ((self.0 / 2) % 2 == 1),
    {
        ((self.0 / 2) % 2) == 1
    }

    /// The PAT bit an entry with this index sets: bit 2 of the index.
    pub fn pat(&self) -> (r: bool)
        ensures
            r == (self.0 / 4 == 1),
    {
        self.0 / 4 == 1
    }
}

/// A page attribute table entry for one memory type.
#[derive(Debug, Clone, Copy, PartialEq, Eq, Structural)]
pub struct Entry(pub MemoryType);

/// The table index the kernel assigns to each memory type. The first four
/// entries keep their architectural defaults so pre-existing mappings keep
/// their semantics.
pub open spec fn index_of(mt: MemoryType) -> u32 {
    match mt {
        MemoryType::WB => 0,
        MemoryType::WT => 1,
        MemoryType::UC => 2,
        MemoryType::StrongUC => 3,
        MemoryType::WC => 4,
        MemoryType::WP => 5,
    }
}

/// The architectural encoding of each memory type.
pub open spec fn value_of(mt: MemoryType) -> u8 {
    match mt {
        MemoryType::StrongUC => 0,
        MemoryType::UC => 7,
        MemoryType::WC => 1,
        MemoryType::WT => 4,
        MemoryType::WP => 5,
        MemoryType::WB => 6,
    }
}

impl Entry {
    /// The table index this entry lives at.
    pub fn index(&self) -> (r: Index)
        ensures
            r.0 == index_of(self.0),
    {
        match self.0 {
            MemoryType::WB => Index(0),
            MemoryType::WT => Index(1),
            MemoryType::UC => Index(2),
            MemoryType::StrongUC => Index(3),
            MemoryType::WC => Index(4),
            MemoryType::WP => Index(5),
        }
    }

    /// The architectural encoding this entry stores.
    pub fn value(&self) -> (r: u8)
        ensures
            r == value_of(self.0),
    {
        match self.0 {
            MemoryType::WB => 6,
            MemoryType::WT => 4,
            MemoryType::UC => 7,
            MemoryType::StrongUC => 0,
            MemoryType::WC => 1,
            MemoryType::WP => 5,
        }
    }
}

impl From<MemoryType> for Entry {
    fn from(mt: MemoryType) -> (r: Entry) {
        Entry(mt)
    }
}

impl vstd::std_specs::convert::FromSpecImpl<MemoryType> for Entry {
    open spec fn obeys_from_spec() -> bool {
        true
    }

    open spec fn from_spec(mt: MemoryType) -> Entry {
        Entry(mt)
    }
}

/// The 64-bit page attribute table the kernel programs, given the value the
/// register currently holds: each of the first six byte-wide entries is set
/// to its assigned memory type's encoding and the last two entries are
/// preserved.
pub fn new_value(current: u64) -> (r: u64)
    ensures
        r & 0xff == 6,
        (r >> 8) & 0xff == 4,
        (r >> 16) & 0xff == 7,
        (r >> 24) & 0xff == 0,
        (r >> 32) & 0xff == 1,
        (r >> 40) & 0xff == 5,
        (r >> 48) & 0xff == (current >> 48) & 0xff,
        (r >> 56) & 0xff == (current >> 56) & 0xff,
{
    let r = (current & 0xffff000000000000) | 0x0000050100070406;
    proof {
        assert((((current & 0xffff000000000000) | 0x0000050100070406) & 0xff == 6
            && (((current & 0xffff000000000000) | 0x0000050100070406) >> 8) & 0xff == 4 && (((
        current & 0xffff000000000000) | 0x0000050100070406) >> 16) & 0xff == 7 && (((current
            & 0xffff000000000000) | 0x0000050100070406) >> 24) & 0xff == 0 && (((current
            & 0xffff000000000000) | 0x0000050100070406) >> 32) & 0xff == 1 && (((current
            & 0xffff000000000000) | 0x0000050100070406) >> 40) & 0xff == 5 && (((current
            & 0xffff000000000000) | 0x0000050100070406) >> 48) & 0xff == (current >> 48) & 0xff
            && (((current & 0xffff000000000000) | 0x0000050100070406) >> 56) & 0xff == (current
            >> 56) & 0xff)) by (bit_vector);
    }
    r
}

} // verus!
