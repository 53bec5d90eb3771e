//! The decoder: from the bytes of an archive to its tables.
//!
//! Decoding is lenient about the tables and strict about payloads and
//! references. A header or record that does not lie within the data is
//! taken as all zero, and the read position stays where it was. A file
//! payload that reaches past the data, or a reference that points outside
//! the tables, is an error.

use crate::archive::{ArchiveView, RARC};
use crate::attr::FileAttr;
use crate::dir;
use crate::endian::{fits, native_endian, read_u16, read_u8, u16_at, Endian};
use crate::error::RarcError;
use crate::folder;
use crate::header::{DataHeader, Header, DATA_HEADER_SIZE, HEADER_SIZE};
use crate::names::{name_at, read_name};
use crate::node::{DirNode, DirNodeView, FileNode, FileNodeView};
use vstd::prelude::*;
use vstd::slice::{slice_subrange, slice_to_vec};

verus! {

/// Where the first header starts: behind the four magic bytes.
pub const HEADER_START: u64 = 4;

/// Whether the data starts with the four given bytes.
pub open spec fn starts_with(data: Seq<u8>, a: u8, b: u8, c: u8, d: u8) -> bool {
    data.len() >= 4 && data[0] == a && data[1] == b && data[2] == c && data[3] == d
}

/// The byte order that the magic selects: `RARC` is big-endian, `CRAR` is
/// little-endian, anything else leaves it to `fallback`.
pub open spec fn detect_endian(data: Seq<u8>, fallback: Endian) -> Endian {
    if starts_with(data, 0x52, 0x41, 0x52, 0x43) {
        Endian::Big
    } else if starts_with(data, 0x43, 0x52, 0x41, 0x52) {
        Endian::Little
    } else {
        fallback
    }
}

/// Whether the magic is one of the two that select a byte order.
pub open spec fn magic_known(data: Seq<u8>) -> bool {
    starts_with(data, 0x52, 0x41, 0x52, 0x43) || starts_with(data, 0x43, 0x52, 0x41, 0x52)
}

/// The first header.
pub open spec fn decoded_header(data: Seq<u8>, endian: Endian) -> Header {
    match Header::parse(data, HEADER_START as int, endian) {
        Some(h) => h,
        None => Header::zero(),
    }
}

/// Where the second header starts.
pub open spec fn data_header_start(data: Seq<u8>, endian: Endian) -> int {
    if Header::parse(data, HEADER_START as int, endian) is Some {
        HEADER_START + HEADER_SIZE
    } else {
        HEADER_START as int
    }
}

/// The second header.
pub open spec fn decoded_data_header(data: Seq<u8>, endian: Endian) -> DataHeader {
    match DataHeader::parse(data, data_header_start(data, endian), endian) {
        Some(h) => h,
        None => DataHeader::zero(),
    }
}

/// Where the running entry index is stored.
pub open spec fn next_index_start(data: Seq<u8>, endian: Endian) -> int {
    if DataHeader::parse(data, data_header_start(data, endian), endian) is Some {
        data_header_start(data, endian) + DATA_HEADER_SIZE
    } else {
        data_header_start(data, endian)
    }
}

/// The running entry index.
pub open spec fn decoded_next_index(data: Seq<u8>, endian: Endian) -> u16 {
    if fits(data, next_index_start(data, endian), 2) {
        u16_at(data, next_index_start(data, endian), endian)
    } else {
        0
    }
}

/// Where the flag that switches entry numbering on is stored.
pub open spec fn sync_start(data: Seq<u8>, endian: Endian) -> int {
    if fits(data, next_index_start(data, endian), 2) {
        next_index_start(data, endian) + 2
    } else {
        next_index_start(data, endian)
    }
}

/// Whether the archive numbers its entries: the flag byte is not zero.
pub open spec fn decoded_sync(data: Seq<u8>, endian: Endian) -> bool {
    fits(data, sync_start(data, endian), 1) && data[sync_start(data, endian)] != 0
}

/// Where the folder table starts.
pub open spec fn folders_start(data: Seq<u8>, endian: Endian) -> int {
    decoded_data_header(data, endian).dirnodeoff + decoded_header(data, endian).headersize
}

/// Where the entry table starts.
pub open spec fn entries_start(data: Seq<u8>, endian: Endian) -> int {
    decoded_data_header(data, endian).filenodeoff + decoded_header(data, endian).headersize
}

/// Where the string table starts.
pub open spec fn names_start(data: Seq<u8>, endian: Endian) -> int {
    decoded_data_header(data, endian).stringtableoff + decoded_header(data, endian).headersize
}

/// Where the payload region starts.
pub open spec fn payloads_start(data: Seq<u8>, endian: Endian) -> int {
    decoded_header(data, endian).filedataoff + decoded_header(data, endian).headersize
}

/// The stored record of folder `i`.
pub open spec fn decoded_folder_node(data: Seq<u8>, endian: Endian, i: int) -> folder::Node {
    match folder::Node::parse(data, folders_start(data, endian) + folder::NODE_SIZE * i, endian) {
        Some(n) => n,
        None => folder::Node::zero(),
    }
}

/// Folder `i` as decoded, before linking. The first folder is the root.
pub open spec fn decoded_folder(data: Seq<u8>, endian: Endian, i: int) -> FileNodeView {
    let node = decoded_folder_node(data, endian, i);
    FileNodeView {
        node,
        isroot: i == 0,
        name: name_at(data, names_start(data, endian) + node.nameoff),
        dir: None,
    }
}

/// The stored record of entry `i`. Each record is followed by padding.
pub open spec fn decoded_entry_node(data: Seq<u8>, endian: Endian, i: int) -> dir::Node {
    match dir::Node::parse(
        data,
        entries_start(data, endian) + dir::NODE_STRIDE * i,
        endian,
    ) {
        Some(n) => n,
        None => dir::Node::zero(),
    }
}

/// Where the payload of entry `i` starts.
pub open spec fn payload_start(data: Seq<u8>, endian: Endian, i: int) -> int {
    payloads_start(data, endian) + decoded_entry_node(data, endian, i).data
}

/// Whether entry `i` is a file with a payload that does not lie within the
/// data.
pub open spec fn payload_cut(data: Seq<u8>, endian: Endian, i: int) -> bool {
    let node = decoded_entry_node(data, endian, i);
    &&& (FileAttr { bits: node.attr_bits() }).file()
    &&& node.datasize > 0
    &&& payload_start(data, endian, i) + node.datasize > data.len()
}

/// Entry `i` as decoded, before linking. A file carries its payload.
pub open spec fn decoded_entry(data: Seq<u8>, endian: Endian, i: int) -> DirNodeView {
    let node = decoded_entry_node(data, endian, i);
    let attr = FileAttr { bits: node.attr_bits() };
    DirNodeView {
        node,
        attr,
        name: name_at(data, names_start(data, endian) + node.name_offset()),
        nameoff: node.name_offset(),
        data: if attr.file() && node.datasize > 0 {
            data.subrange(
                payload_start(data, endian, i),
                payload_start(data, endian, i) + node.datasize,
            )
        } else {
            Seq::empty()
        },
        folder: None,
        parent: None,
    }
}

/// Whether some file among the entries has a payload that does not lie
/// within the data.
pub open spec fn truncated(data: Seq<u8>, endian: Endian) -> bool {
    exists|i: int|
        0 <= i < decoded_data_header(data, endian).filenodecount && #[trigger] payload_cut(
            data,
            endian,
            i,
        )
}

/// The archive as decoded, before linking.
pub open spec fn decoded_tables(data: Seq<u8>, endian: Endian) -> ArchiveView {
    ArchiveView {
        folders: Seq::new(
            decoded_data_header(data, endian).dirnodecount as nat,
            |i: int| decoded_folder(data, endian, i),
        ),
        dirs: Seq::new(
            decoded_data_header(data, endian).filenodecount as nat,
            |i: int| decoded_entry(data, endian, i),
        ),
        header: decoded_header(data, endian),
        dataheader: decoded_data_header(data, endian),
        nextidx: decoded_next_index(data, endian),
        sync: decoded_sync(data, endian),
        data,
        endian,
    }
}

/// Whether `r` is what decoding `data` gives, with `fallback` as the byte
/// order for an unknown magic: the linked tables, or the first of the two
/// errors that applies.
pub open spec fn decodes_to(data: Seq<u8>, fallback: Endian, r: Result<RARC, RarcError>) -> bool {
    let endian = detect_endian(data, fallback);
    let tables = decoded_tables(data, endian);
    match r {
        Ok(a) => !truncated(data, endian) && tables.refs_in_bounds() && a@ == tables.linked(),
        Err(RarcError::TruncatedStream) => truncated(data, endian),
        Err(RarcError::DanglingReference) => !truncated(data, endian) && !tables.refs_in_bounds(),
        Err(_) => false,
    }
}

/// Picks the byte order from the magic.
pub fn detect(data: &[u8], fallback: Endian) -> (r: Endian)
    ensures
        r == detect_endian(data@, fallback),
{
    if data.len() < 4 {
        return fallback;
    }
    if data[0] == 0x52 && data[1] == 0x41 && data[2] == 0x52 && data[3] == 0x43 {
        Endian::Big
    } else if data[0] == 0x43 && data[1] == 0x52 && data[2] == 0x41 && data[3] == 0x52 {
        Endian::Little
    } else {
        fallback
    }
}

/// Reads the folder table.
fn read_folders(data: &[u8], endian: Endian, header: &Header, dataheader: &DataHeader) -> (r: Vec<
    FileNode,
>)
    requires
        *header == decoded_header(data@, endian),
        *dataheader == decoded_data_header(data@, endian),
    ensures
        r@.len() == dataheader.dirnodecount,
        forall|i: int| 0 <= i < r@.len() ==> (#[trigger] r@[i])@ == decoded_folder(data@, endian, i),
{
    let count: usize = dataheader.dirnodecount as usize;
    let start: u64 = dataheader.dirnodeoff as u64 + header.headersize as u64;
    let names: u64 = dataheader.stringtableoff as u64 + header.headersize as u64;
    let mut folders: Vec<FileNode> = Vec::new();
    let mut pos: u64 = start;
    let mut i: usize = 0;
    while i < count
        invariant
            i <= count,
            count == dataheader.dirnodecount,
            start == folders_start(data@, endian),
            names == names_start(data@, endian),
            folders@.len() == i,
            pos <= start + folder::NODE_SIZE * i,
            pos == start + folder::NODE_SIZE * i || !fits(data@, pos as int, folder::NODE_SIZE as int),
            forall|k: int|
                0 <= k < i ==> (#[trigger] folders@[k])@ == decoded_folder(data@, endian, k),
        decreases count - i,
    {
        let node: folder::Node = match folder::Node::read(data, pos, endian) {
            Some(n) => {
                pos = pos + folder::NODE_SIZE;
                n
            },
            None => folder::Node::default(),
        };
        assert(node == decoded_folder_node(data@, endian, i as int));
        let name: String = read_name(data, names + node.nameoff as u64);
        folders.push(FileNode { node, isroot: i == 0, name, dir: None });
        i = i + 1;
    }
    folders
}

/// Reads the entry table, with the payload of each file.
fn read_entries(data: &[u8], endian: Endian, header: &Header, dataheader: &DataHeader) -> (r:
    Result<Vec<DirNode>, RarcError>)
    requires
        *header == decoded_header(data@, endian),
        *dataheader == decoded_data_header(data@, endian),
    ensures
        r is Ok <==> !truncated(data@, endian),
        r matches Ok(v) ==> v@.len() == dataheader.filenodecount,
        r matches Ok(v) ==> forall|i: int|
            0 <= i < v@.len() ==> (#[trigger] v@[i])@ == decoded_entry(data@, endian, i),
        r matches Err(e) ==> e == RarcError::TruncatedStream,
{
    let count: usize = dataheader.filenodecount as usize;
    let start: u64 = dataheader.filenodeoff as u64 + header.headersize as u64;
    let names: u64 = dataheader.stringtableoff as u64 + header.headersize as u64;
    let payloads: u64 = header.filedataoff as u64 + header.headersize as u64;
    let mut entries: Vec<DirNode> = Vec::new();
    let mut pos: u64 = start;
    let mut i: usize = 0;
    while i < count
        invariant
            i <= count,
            count == dataheader.filenodecount,
            *dataheader == decoded_data_header(data@, endian),
            start == entries_start(data@, endian),
            start <= 2 * u32::MAX,
            names == names_start(data@, endian),
            payloads == payloads_start(data@, endian),
            entries@.len() == i,
            pos <= start + dir::NODE_STRIDE * i,
            pos == start + dir::NODE_STRIDE * i || !fits(
                data@,
                pos as int,
                dir::NODE_SIZE as int,
            ),
            forall|k: int| 0 <= k < i ==> !(#[trigger] payload_cut(data@, endian, k)),
            forall|k: int|
                0 <= k < i ==> (#[trigger] entries@[k])@ == decoded_entry(data@, endian, k),
        decreases count - i,
    {
        let node: dir::Node = match dir::Node::read(data, pos, endian) {
            Some(n) => {
                pos = pos + dir::NODE_SIZE;
                n
            },
            None => dir::Node::default(),
        };
        pos = pos + dir::NODE_PADDING;
        assert(node == decoded_entry_node(data@, endian, i as int));
        let nameoff: u32 = node.attrandnameoff & 0x00FF_FFFF;
        let packed: u32 = node.attrandnameoff;
        assert(packed >> 24 <= 0xff) by (bit_vector);
        let attr: FileAttr = FileAttr::from_bits((packed >> 24) as u8);
        let name: String = read_name(data, names + nameoff as u64);
        let mut payload: Vec<u8> = Vec::new();
        if attr.is_file() && node.datasize > 0 {
            let from: u64 = payloads + node.data as u64;
            let to: u64 = from + node.datasize as u64;
            if to > data.len() as u64 {
                assert(payload_cut(data@, endian, i as int));
                return Err(RarcError::TruncatedStream);
            }
            payload = slice_to_vec(slice_subrange(data, from as usize, to as usize));
        }
        entries.push(DirNode { node, attr, name, nameoff, data: payload, folder: None, parent: None });
        i = i + 1;
    }
    Ok(entries)
}

impl RARC {
    /// Decodes an archive. The magic selects the byte order; for an unknown
    /// magic it is the byte order of the machine.
    pub fn read(data: Vec<u8>) -> (r: Result<RARC, RarcError>)
        ensures
            decodes_to(data@, Endian::Big, r) || decodes_to(data@, Endian::Little, r),
            magic_known(data@) ==> decodes_to(data@, Endian::Big, r),
    {
        let fallback: Endian = native_endian();
        let r = RARC::read_with(data, fallback);
        proof {
            match fallback {
                Endian::Big => {},
                Endian::Little => {},
            }
        }
        r
    }

    /// Decodes an archive, with `fallback` as the byte order for an unknown
    /// magic.
    pub fn read_with(data: Vec<u8>, fallback: Endian) -> (r: Result<RARC, RarcError>)
        ensures
            decodes_to(data@, fallback, r),
    {
        let bytes: &[u8] = data.as_slice();
        let endian: Endian = detect(bytes, fallback);
        let mut pos: u64 = HEADER_START;
        let header: Header = match Header::read(bytes, pos, endian) {
            Some(h) => {
                pos = pos + HEADER_SIZE;
                h
            },
            None => Header::default(),
        };
        let dataheader: DataHeader = match DataHeader::read(bytes, pos, endian) {
            Some(h) => {
                pos = pos + DATA_HEADER_SIZE;
                h
            },
            None => DataHeader::default(),
        };
        let nextidx: u16 = match read_u16(bytes, pos, endian) {
            Ok(v) => {
                pos = pos + 2;
                v
            },
            Err(_) => 0,
        };
        let sync: bool = match read_u8(bytes, pos) {
            Ok(v) => v != 0,
            Err(_) => false,
        };
        let folders: Vec<FileNode> = read_folders(bytes, endian, &header, &dataheader);
        let dirs: Vec<DirNode> = match read_entries(bytes, endian, &header, &dataheader) {
            Ok(v) => v,
            Err(e) => { return Err(e); },
        };
        let mut archive = RARC { folders, dirs, header, dataheader, nextidx, sync, data, endian };
        assert(archive@.folders =~= decoded_tables(data@, endian).folders);
        assert(archive@.dirs =~= decoded_tables(data@, endian).dirs);
        assert(archive@ == decoded_tables(data@, endian));
        match archive.sortparents() {
            Ok(()) => Ok(archive),
            Err(e) => Err(e),
        }
    }
}

} // verus!
