//! The stored form of a folder record.

use crate::endian::{fits, read_u16, read_u32, read_u8, u16_at, u32_at, Endian};
use vstd::prelude::*;

verus! {

/// Bytes that a folder record takes in an archive.
pub const NODE_SIZE: u64 = 16;

/// A folder as the folder table stores it: a four-byte tag, where its name
/// lies in the string table, a hash of the name, and the range of entries
/// that are its children.
#[derive(Debug, Clone, Copy, PartialEq, Eq)]
pub struct Node {
    pub shortname: [u8; 4],
    pub nameoff: u32,
    pub hash: u16,
    pub filecount: u16,
    pub firstfileoff: u32,
}

impl Node {
    /// The record with every field zero.
    pub open spec fn zero() -> Node {
        Node { shortname: [0u8, 0u8, 0u8, 0u8], nameoff: 0, hash: 0, filecount: 0, firstfileoff: 0 }
    }

    /// The record that the 16 bytes at `pos` spell.
    pub open spec fn at(data: Seq<u8>, pos: int, endian: Endian) -> Node {
        Node {
            shortname: [data[pos], data[pos + 1], data[pos + 2], data[pos + 3]],
            nameoff: u32_at(data, pos + 4, endian),
            hash: u16_at(data, pos + 8, endian),
            filecount: u16_at(data, pos + 10, endian),
            firstfileoff: u32_at(data, pos + 12, endian),
        }
    }

    /// The record at `pos`, where all of it lies in `data`.
    pub open spec fn parse(data: Seq<u8>, pos: int, endian: Endian) -> Option<Node> {
        if fits(data, pos, NODE_SIZE as int) {
            Some(Node::at(data, pos, endian))
        } else {
            None
        }
    }

    /// Reads the record at `pos`, field by field.
    pub fn read(data: &[u8], pos: u64, endian: Endian) -> (r: Option<Node>)
        ensures
            r == Node::parse(data@, pos as int, endian),
    {
        if data.len() as u64 <= pos {
            return None;
        }
        let t0: u8 = match read_u8(data, pos) {
            Ok(v) => v,
            Err(_) => { return None; },
        };
        let t1: u8 = match read_u8(data, pos + 1) {
            Ok(v) => v,
            Err(_) => { return None; },
        };
        let t2: u8 = match read_u8(data, pos + 2) {
            Ok(v) => v,
            Err(_) => { return None; },
        };
        let t3: u8 = match read_u8(data, pos + 3) {
            Ok(v) => v,
            Err(_) => { return None; },
        };
        let nameoff: u32 = match read_u32(data, pos + 4, endian) {
            Ok(v) => v,
            Err(_) => { return None; },
        };
        let hash: u16 = match read_u16(data, pos + 8, endian) {
            Ok(v) => v,
            Err(_) => { return None; },
        };
        let filecount: u16 = match read_u16(data, pos + 10, endian) {
            Ok(v) => v,
            Err(_) => { return None; },
        };
        let firstfileoff: u32 = match read_u32(data, pos + 12, endian) {
            Ok(v) => v,
            Err(_) => { return None; },
        };
        Some(Node { shortname: [t0, t1, t2, t3], nameoff, hash, filecount, firstfileoff })
    }
}

impl Default for Node {
    fn default() -> (r: Node)
        ensures
            r == Node::zero(),
    {
        Node { shortname: [0u8, 0u8, 0u8, 0u8], nameoff: 0, hash: 0, filecount: 0, firstfileoff: 0 }
    }
}

} // verus!
