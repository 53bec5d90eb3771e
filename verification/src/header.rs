//! The two fixed headers at the start of an archive.

use crate::endian::{fits, read_u32, u32_at, Endian};
use vstd::prelude::*;

verus! {

/// Bytes that a [`Header`] takes in an archive.
pub const HEADER_SIZE: u64 = 28;

/// Bytes that a [`DataHeader`] takes in an archive.
pub const DATA_HEADER_SIZE: u64 = 24;

/// Sizes and offsets of the whole file. It follows the four magic bytes.
#[derive(Debug, Clone, Copy, PartialEq, Eq, Structural)]
pub struct Header {
    pub filesize: u32,
    pub headersize: u32,
    pub filedataoff: u32,
    pub filedatasize: u32,
    pub mramsize: u32,
    pub aramsize: u32,
    pub dvdsize: u32,
}

/// Counts and offsets of the two record tables and of the string table.
/// The offsets count from the end of the first header.
#[derive(Debug, Clone, Copy, PartialEq, Eq, Structural)]
pub struct DataHeader {
    pub dirnodecount: u32,
    pub dirnodeoff: u32,
    pub filenodecount: u32,
    pub filenodeoff: u32,
    pub stringtablesize: u32,
    pub stringtableoff: u32,
}

impl Header {
    /// The header with every field zero.
    pub open spec fn zero() -> Header {
        Header {
            filesize: 0,
            headersize: 0,
            filedataoff: 0,
            filedatasize: 0,
            mramsize: 0,
            aramsize: 0,
            dvdsize: 0,
        }
    }

    /// The header that the 28 bytes at `pos` spell.
    pub open spec fn at(data: Seq<u8>, pos: int, endian: Endian) -> Header {
        Header {
            filesize: u32_at(data, pos, endian),
            headersize: u32_at(data, pos + 4, endian),
            filedataoff: u32_at(data, pos + 8, endian),
            filedatasize: u32_at(data, pos + 12, endian),
            mramsize: u32_at(data, pos + 16, endian),
            aramsize: u32_at(data, pos + 20, endian),
            dvdsize: u32_at(data, pos + 24, endian),
        }
    }

    /// The header at `pos`, where all of it lies in `data`.
    pub open spec fn parse(data: Seq<u8>, pos: int, endian: Endian) -> Option<Header> {
        if fits(data, pos, HEADER_SIZE as int) {
            Some(Header::at(data, pos, endian))
        } else {
            None
        }
    }

    /// Reads the header at `pos`, field by field.
    pub fn read(data: &[u8], pos: u64, endian: Endian) -> (r: Option<Header>)
        ensures
            r == Header::parse(data@, pos as int, endian),
    {
        if data.len() as u64 <= pos {
            return None;
        }
        let filesize: u32 = match read_u32(data, pos, endian) {
            Ok(v) => v,
            Err(_) => { return None; },
        };
        let headersize: u32 = match read_u32(data, pos + 4, endian) {
            Ok(v) => v,
            Err(_) => { return None; },
        };
        let filedataoff: u32 = match read_u32(data, pos + 8, endian) {
            Ok(v) => v,
            Err(_) => { return None; },
        };
        let filedatasize: u32 = match read_u32(data, pos + 12, endian) {
            Ok(v) => v,
            Err(_) => { return None; },
        };
        let mramsize: u32 = match read_u32(data, pos + 16, endian) {
            Ok(v) => v,
            Err(_) => { return None; },
        };
        let aramsize: u32 = match read_u32(data, pos + 20, endian) {
            Ok(v) => v,
            Err(_) => { return None; },
        };
        let dvdsize: u32 = match read_u32(data, pos + 24, endian) {
            Ok(v) => v,
            Err(_) => { return None; },
        };
        Some(Header { filesize, headersize, filedataoff, filedatasize, mramsize, aramsize, dvdsize })
    }
}

impl Default for Header {
    fn default() -> (r: Header)
        ensures
            r == Header::zero(),
    {
        Header {
            filesize: 0,
            headersize: 0,
            filedataoff: 0,
            filedatasize: 0,
            mramsize: 0,
            aramsize: 0,
            dvdsize: 0,
        }
    }
}

impl DataHeader {
    /// The header with every field zero.
    pub open spec fn zero() -> DataHeader {
        DataHeader {
            dirnodecount: 0,
            dirnodeoff: 0,
            filenodecount: 0,
            filenodeoff: 0,
            stringtablesize: 0,
            stringtableoff: 0,
        }
    }

    /// The header that the 24 bytes at `pos` spell.
    pub open spec fn at(data: Seq<u8>, pos: int, endian: Endian) -> DataHeader {
        DataHeader {
            dirnodecount: u32_at(data, pos, endian),
            dirnodeoff: u32_at(data, pos + 4, endian),
            filenodecount: u32_at(data, pos + 8, endian),
            filenodeoff: u32_at(data, pos + 12, endian),
            stringtablesize: u32_at(data, pos + 16, endian),
            stringtableoff: u32_at(data, pos + 20, endian),
        }
    }

    /// The header at `pos`, where all of it lies in `data`.
    pub open spec fn parse(data: Seq<u8>, pos: int, endian: Endian) -> Option<DataHeader> {
        if fits(data, pos, DATA_HEADER_SIZE as int) {
            Some(DataHeader::at(data, pos, endian))
        } else {
            None
        }
    }

    /// Reads the header at `pos`, field by field.
    pub fn read(data: &[u8], pos: u64, endian: Endian) -> (r: Option<DataHeader>)
        ensures
            r == DataHeader::parse(data@, pos as int, endian),
    {
        if data.len() as u64 <= pos {
            return None;
        }
        let dirnodecount: u32 = match read_u32(data, pos, endian) {
            Ok(v) => v,
            Err(_) => { return None; },
        };
        let dirnodeoff: u32 = match read_u32(data, pos + 4, endian) {
            Ok(v) => v,
            Err(_) => { return None; },
        };
        let filenodecount: u32 = match read_u32(data, pos + 8, endian) {
            Ok(v) => v,
            Err(_) => { return None; },
        };
        let filenodeoff: u32 = match read_u32(data, pos + 12, endian) {
            Ok(v) => v,
            Err(_) => { return None; },
        };
        let stringtablesize: u32 = match read_u32(data, pos + 16, endian) {
            Ok(v) => v,
            Err(_) => { return None; },
        };
        let stringtableoff: u32 = match read_u32(data, pos + 20, endian) {
            Ok(v) => v,
            Err(_) => { return None; },
        };
        Some(
            DataHeader {
                dirnodecount,
                dirnodeoff,
                filenodecount,
                filenodeoff,
                stringtablesize,
                stringtableoff,
            },
        )
    }
}

impl Default for DataHeader {
    fn default() -> (r: DataHeader)
        ensures
            r == DataHeader::zero(),
    {
        DataHeader {
            dirnodecount: 0,
            dirnodeoff: 0,
            filenodecount: 0,
            filenodeoff: 0,
            stringtablesize: 0,
            stringtableoff: 0,
        }
    }
}

} // verus!
