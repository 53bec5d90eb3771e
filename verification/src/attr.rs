//! The attribute bitmask of an entry record.

use vstd::prelude::*;

verus! {

/// The entry is a file and carries a payload.
pub const FILE: u8 = 0x01;

/// The entry refers to a folder record.
pub const FOLDER: u8 = 0x02;

/// The payload is stored compressed.
pub const COMPRESSED: u8 = 0x04;

/// The payload is loaded into main memory.
pub const LOADTOMRAM: u8 = 0x10;

/// The payload is loaded into auxiliary memory.
pub const LOADTOARAM: u8 = 0x20;

/// The payload is read from the medium on demand.
pub const LOADFROMDVD: u8 = 0x40;

/// The payload uses the second compression format.
pub const USESZS: u8 = 0x80;

/// A compressed file in the second compression format.
pub const FILEANDCOMPRESSION: u8 = 0x85;

/// A file with every load target set.
pub const FILEANDPRELOAD: u8 = 0x71;

/// Eight attribute bits of an entry. The named constants of this module are
/// the single bits and two unions of them.
#[derive(Clone, Copy, Debug, PartialEq, Eq, Structural)]
pub struct FileAttr {
    pub bits: u8,
}

impl FileAttr {
    /// Every bit of `other` is set in `self`.
    pub open spec fn has(self, other: FileAttr) -> bool {
        self.bits & other.bits == other.bits
    }

    /// The FILE bit is set.
    pub open spec fn file(self) -> bool {
        self.bits & FILE == FILE
    }

    /// The FOLDER bit is set.
    pub open spec fn folder(self) -> bool {
        self.bits & FOLDER == FOLDER
    }

    /// The mask with exactly the given bits.
    pub fn from_bits(bits: u8) -> (r: FileAttr)
        ensures
            r.bits == bits,
    {
        FileAttr { bits }
    }

    /// The mask with no bit set.
    pub fn empty() -> (r: FileAttr)
        ensures
            r.bits == 0,
    {
        FileAttr { bits: 0 }
    }

    /// The raw bits.
    pub fn bits(&self) -> (r: u8)
        ensures
            r == self.bits,
    {
        self.bits
    }

    /// Whether every bit of `other` is set in `self`.
    pub fn contains(&self, other: FileAttr) -> (r: bool)
        ensures
            r == self.has(other),
    {
        self.bits & other.bits == other.bits
    }

    /// The bits of both masks.
    pub fn union(&self, other: FileAttr) -> (r: FileAttr)
        ensures
            r.bits == self.bits | other.bits,
            r.has(*self),
            r.has(other),
    {
        let a: u8 = self.bits;
        let b: u8 = other.bits;
        assert((a | b) & a == a && (a | b) & b == b) by (bit_vector);
        FileAttr { bits: a | b }
    }

    /// Whether the FILE bit is set.
    pub fn is_file(&self) -> (r: bool)
        ensures
            r == self.file(),
    {
        self.bits & FILE == FILE
    }

    /// Whether the FOLDER bit is set.
    pub fn is_folder(&self) -> (r: bool)
        ensures
            r == self.folder(),
    {
        self.bits & FOLDER == FOLDER
    }
}

impl Default for FileAttr {
    fn default() -> (r: FileAttr)
        ensures
            r.bits == 0,
    {
        FileAttr { bits: 0 }
    }
}

} // verus!
