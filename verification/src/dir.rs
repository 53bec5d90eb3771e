//! The stored form of an entry record.

use crate::endian::{fits, read_u16, read_u32, u16_at, u32_at, Endian};
use vstd::prelude::*;

verus! {

/// Bytes of an entry record that carry fields.
pub const NODE_SIZE: u64 = 16;

/// Bytes of padding that follow each entry record.
pub const NODE_PADDING: u64 = 4;

/// Bytes from the start of one entry record to the start of the next.
pub const NODE_STRIDE: u64 = 20;

/// In `data` of a folder entry: the entry refers to no folder.
pub const NO_FOLDER: u32 = 0xFFFF_FFFF;

/// An entry as the entry table stores it. `attrandnameoff` packs the
/// attribute bits (high byte) with the offset of the name in the string
/// table (low 24 bits). `data` is a folder index for a folder entry and an
/// offset into the payload region for a file.
#[derive(Debug, Clone, Copy, PartialEq, Eq, Structural)]
pub struct Node {
    pub nodeidx: u16,
    pub hash: u16,
    pub attrandnameoff: u32,
    pub data: u32,
    pub datasize: u32,
}

impl Node {
    /// The record with every field zero.
    pub open spec fn zero() -> Node {
        Node { nodeidx: 0, hash: 0, attrandnameoff: 0, data: 0, datasize: 0 }
    }

    /// The record that the 16 bytes at `pos` spell.
    pub open spec fn at(data: Seq<u8>, pos: int, endian: Endian) -> Node {
        Node {
            nodeidx: u16_at(data, pos, endian),
            hash: u16_at(data, pos + 2, endian),
            attrandnameoff: u32_at(data, pos + 4, endian),
            data: u32_at(data, pos + 8, endian),
            datasize: u32_at(data, pos + 12, endian),
        }
    }

    /// The record at `pos`, where all of it lies in `data`.
    pub open spec fn parse(data: Seq<u8>, pos: int, endian: Endian) -> Option<Node> {
        if fits(data, pos, NODE_SIZE as int) {
            Some(Node::at(data, pos, endian))
        } else {
            None
        }
    }

    /// The low 24 bits of the packed field: where the name lies.
    pub open spec fn name_offset(self) -> u32 {
        self.attrandnameoff & 0x00FF_FFFF
    }

    /// The high byte of the packed field: the attribute bits.
    pub open spec fn attr_bits(self) -> u8 {
        (self.attrandnameoff >> 24) as u8
    }

    /// Reads the record at `pos`, field by field.
    pub fn read(data: &[u8], pos: u64, endian: Endian) -> (r: Option<Node>)
        ensures
            r == Node::parse(data@, pos as int, endian),
    {
        if data.len() as u64 <= pos {
            return None;
        }
        let nodeidx: u16 = match read_u16(data, pos, endian) {
            Ok(v) => v,
            Err(_) => { return None; },
        };
        let hash: u16 = match read_u16(data, pos + 2, endian) {
            Ok(v) => v,
            Err(_) => { return None; },
        };
        let attrandnameoff: u32 = match read_u32(data, pos + 4, endian) {
            Ok(v) => v,
            Err(_) => { return None; },
        };
        let data_field: u32 = match read_u32(data, pos + 8, endian) {
            Ok(v) => v,
            Err(_) => { return None; },
        };
        let datasize: u32 = match read_u32(data, pos + 12, endian) {
            Ok(v) => v,
            Err(_) => { return None; },
        };
        Some(Node { nodeidx, hash, attrandnameoff, data: data_field, datasize })
    }
}

impl Default for Node {
    fn default() -> (r: Node)
        ensures
            r == Node::zero(),
    {
        Node { nodeidx: 0, hash: 0, attrandnameoff: 0, data: 0, datasize: 0 }
    }
}

} // verus!
