//! Database and write flags.
use vstd::prelude::*;

verus! {

/// The discipline a database is created with, as a bit set.
#[derive(Debug, Clone, Copy, PartialEq, Eq, Structural)]
pub struct DatabaseFlags {
    pub bits: u32,
}

pub const DUP_SORT_BIT: u32 = 0x04;

pub const INTEGER_KEY_BIT: u32 = 0x08;

pub const DUP_FIXED_BIT: u32 = 0x10;

impl DatabaseFlags {
    /// A key maps to an ordered set of values.
    pub open spec fn spec_dup_sort(self) -> bool {
        self.bits & DUP_SORT_BIT == DUP_SORT_BIT
    }

    /// No flag set: one value per key.
    pub fn empty() -> (r: DatabaseFlags)
        ensures
            r.bits == 0,
            !r.spec_dup_sort(),
    {
        assert(0u32 & 0x04u32 == 0) by (bit_vector);
        DatabaseFlags { bits: 0 }
    }

    pub fn dup_sort() -> (r: DatabaseFlags)
        ensures
            r.bits == DUP_SORT_BIT,
            r.spec_dup_sort(),
    {
        assert(0x04u32 & 0x04u32 == 0x04u32) by (bit_vector);
        DatabaseFlags { bits: DUP_SORT_BIT }
    }

    pub fn integer_key() -> (r: DatabaseFlags)
        ensures
            r.bits == INTEGER_KEY_BIT,
            !r.spec_dup_sort(),
    {
        assert(0x08u32 & 0x04u32 == 0) by (bit_vector);
        DatabaseFlags { bits: INTEGER_KEY_BIT }
    }

    /// Both sets of flags together.
    pub fn union(self, other: DatabaseFlags) -> (r: DatabaseFlags)
        ensures
            r.bits == self.bits | other.bits,
    {
        DatabaseFlags { bits: self.bits | other.bits }
    }

    /// Whether the database keeps several values per key.
    pub fn is_dup_sort(self) -> (r: bool)
        ensures
            r == self.spec_dup_sort(),
    {
        self.bits & DUP_SORT_BIT == DUP_SORT_BIT
    }

    /// Whether the database's keys are fixed-width integers.
    pub fn is_integer_key(self) -> (r: bool)
        ensures
            r == (self.bits & INTEGER_KEY_BIT == INTEGER_KEY_BIT),
    {
        self.bits & INTEGER_KEY_BIT == INTEGER_KEY_BIT
    }
}

/// Flags of a single `put`, as a bit set.
#[derive(Debug, Clone, Copy, PartialEq, Eq, Structural)]
pub struct WriteFlags {
    pub bits: u32,
}

pub const NO_OVERWRITE_BIT: u32 = 0x10;

pub const NO_DUP_DATA_BIT: u32 = 0x20;

impl WriteFlags {
    pub open spec fn spec_no_overwrite(self) -> bool {
        self.bits & NO_OVERWRITE_BIT == NO_OVERWRITE_BIT
    }

    pub open spec fn spec_no_dup_data(self) -> bool {
        self.bits & NO_DUP_DATA_BIT == NO_DUP_DATA_BIT
    }

    pub fn empty() -> (r: WriteFlags)
        ensures
            r.bits == 0,
            !r.spec_no_overwrite(),
            !r.spec_no_dup_data(),
    {
        assert(0u32 & 0x10u32 == 0 && 0u32 & 0x20u32 == 0) by (bit_vector);
        WriteFlags { bits: 0 }
    }

    /// Refuse to replace a key that is present.
    pub fn no_overwrite() -> (r: WriteFlags)
        ensures
            r.bits == NO_OVERWRITE_BIT,
            r.spec_no_overwrite(),
            !r.spec_no_dup_data(),
    {
        assert(0x10u32 & 0x10u32 == 0x10u32 && 0x10u32 & 0x20u32 == 0) by (bit_vector);
        WriteFlags { bits: NO_OVERWRITE_BIT }
    }

    /// Refuse to add a key/value pair that is present.
    pub fn no_dup_data() -> (r: WriteFlags)
        ensures
            r.bits == NO_DUP_DATA_BIT,
            !r.spec_no_overwrite(),
            r.spec_no_dup_data(),
    {
        assert(0x20u32 & 0x10u32 == 0 && 0x20u32 & 0x20u32 == 0x20u32) by (bit_vector);
        WriteFlags { bits: NO_DUP_DATA_BIT }
    }

    pub fn is_no_overwrite(self) -> (r: bool)
        ensures
            r == self.spec_no_overwrite(),
    {
        self.bits & NO_OVERWRITE_BIT == NO_OVERWRITE_BIT
    }

    pub fn is_no_dup_data(self) -> (r: bool)
        ensures
            r == self.spec_no_dup_data(),
    {
        self.bits & NO_DUP_DATA_BIT == NO_DUP_DATA_BIT
    }
}

} // verus!
