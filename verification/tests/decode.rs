use rarc::archive::RARC;
use rarc::attr::{FILE, FOLDER};
use rarc::decode::detect;
use rarc::dir::NO_FOLDER;
use rarc::endian::Endian;
use rarc::error::RarcError;

struct Folder {
    tag: [u8; 4],
    nameoff: u32,
    hash: u16,
    count: u16,
    first: u32,
}

struct Entry {
    idx: u16,
    hash: u16,
    attr: u8,
    nameoff: u32,
    data: u32,
    size: u32,
}

fn put_u16(out: &mut Vec<u8>, v: u16, big: bool) {
    if big {
        out.extend_from_slice(&v.to_be_bytes());
    } else {
        out.extend_from_slice(&v.to_le_bytes());
    }
}

fn put_u32(out: &mut Vec<u8>, v: u32, big: bool) {
    if big {
        out.extend_from_slice(&v.to_be_bytes());
    } else {
        out.extend_from_slice(&v.to_le_bytes());
    }
}

fn build(
    big: bool,
    folders: &[Folder],
    entries: &[Entry],
    strings: &[u8],
    payload: &[u8],
    nextidx: u16,
    sync: u8,
) -> Vec<u8> {
    let folders_at = 0x40u32;
    let entries_at = folders_at + 16 * folders.len() as u32;
    let strings_at = entries_at + 20 * entries.len() as u32;
    let payload_at = strings_at + strings.len() as u32;
    let total = payload_at + payload.len() as u32;
    let mut out = Vec::new();
    out.extend_from_slice(if big { b"RARC" } else { b"CRAR" });
    put_u32(&mut out, total, big);
    put_u32(&mut out, 0x20, big);
    put_u32(&mut out, payload_at - 0x20, big);
    put_u32(&mut out, payload.len() as u32, big);
    put_u32(&mut out, 1, big);
    put_u32(&mut out, 2, big);
    put_u32(&mut out, 3, big);
    put_u32(&mut out, folders.len() as u32, big);
    put_u32(&mut out, folders_at - 0x20, big);
    put_u32(&mut out, entries.len() as u32, big);
    put_u32(&mut out, entries_at - 0x20, big);
    put_u32(&mut out, strings.len() as u32, big);
    put_u32(&mut out, strings_at - 0x20, big);
    put_u16(&mut out, nextidx, big);
    out.push(sync);
    out.extend_from_slice(&[0u8; 5]);
    assert_eq!(out.len(), 0x40);
    for f in folders {
        out.extend_from_slice(&f.tag);
        put_u32(&mut out, f.nameoff, big);
        put_u16(&mut out, f.hash, big);
        put_u16(&mut out, f.count, big);
        put_u32(&mut out, f.first, big);
    }
    for e in entries {
        put_u16(&mut out, e.idx, big);
        put_u16(&mut out, e.hash, big);
        put_u32(&mut out, ((e.attr as u32) << 24) | e.nameoff, big);
        put_u32(&mut out, e.data, big);
        put_u32(&mut out, e.size, big);
        out.extend_from_slice(&[0u8; 4]);
    }
    out.extend_from_slice(strings);
    out.extend_from_slice(payload);
    out
}

const STRINGS: &[u8] = b".\0..\0root\0sub\0b.txt\0";

fn sample_folders() -> Vec<Folder> {
    vec![
        Folder { tag: *b"ROOT", nameoff: 5, hash: 0x1111, count: 3, first: 0 },
        Folder { tag: *b"SUB ", nameoff: 10, hash: 0x2222, count: 3, first: 3 },
    ]
}

fn sample_entries() -> Vec<Entry> {
    vec![
        Entry { idx: 0xFFFF, hash: 0x2222, attr: FOLDER, nameoff: 10, data: 1, size: 0x10 },
        Entry { idx: 0xFFFF, hash: 0x002E, attr: FOLDER, nameoff: 0, data: 0, size: 0x10 },
        Entry { idx: 0xFFFF, hash: 0x00B8, attr: FOLDER, nameoff: 2, data: NO_FOLDER, size: 0x10 },
        Entry { idx: 7, hash: 0x3333, attr: FILE, nameoff: 14, data: 1, size: 4 },
        Entry { idx: 0xFFFF, hash: 0x002E, attr: FOLDER, nameoff: 0, data: 1, size: 0x10 },
        Entry { idx: 0xFFFF, hash: 0x00B8, attr: FOLDER, nameoff: 2, data: 0, size: 0x10 },
    ]
}

fn sample(big: bool) -> Vec<u8> {
    build(big, &sample_folders(), &sample_entries(), STRINGS, b"xDATAy", 8, 1)
}

#[test]
fn magic_selects_the_byte_order() {
    assert_eq!(detect(b"RARC....", Endian::Little), Endian::Big);
    assert_eq!(detect(b"CRAR....", Endian::Big), Endian::Little);
    assert_eq!(detect(b"XXXX....", Endian::Big), Endian::Big);
    assert_eq!(detect(b"XXXX....", Endian::Little), Endian::Little);
    assert_eq!(detect(b"RAR", Endian::Little), Endian::Little);
    assert_eq!(detect(b"", Endian::Big), Endian::Big);
}

#[test]
fn decodes_headers_of_a_big_endian_archive() {
    let bytes = sample(true);
    let total = bytes.len() as u32;
    let a = RARC::read(bytes.clone()).unwrap();
    assert_eq!(a.endian, Endian::Big);
    assert_eq!(a.header.filesize, total);
    assert_eq!(a.header.headersize, 0x20);
    assert_eq!(a.header.filedataoff, 0x40 + 32 + 120 + 20 - 0x20);
    assert_eq!(a.header.filedatasize, 6);
    assert_eq!(a.header.mramsize, 1);
    assert_eq!(a.header.aramsize, 2);
    assert_eq!(a.header.dvdsize, 3);
    assert_eq!(a.dataheader.dirnodecount, 2);
    assert_eq!(a.dataheader.dirnodeoff, 0x20);
    assert_eq!(a.dataheader.filenodecount, 6);
    assert_eq!(a.dataheader.filenodeoff, 0x40);
    assert_eq!(a.dataheader.stringtablesize, 20);
    assert_eq!(a.dataheader.stringtableoff, 0x40 + 120);
    assert_eq!(a.nextidx, 8);
    assert!(a.sync);
    assert_eq!(a.data, bytes);
}

#[test]
fn decodes_the_tables() {
    let a = RARC::read(sample(true)).unwrap();
    assert_eq!(a.folders.len(), 2);
    assert_eq!(a.dirs.len(), 6);
    assert!(a.folders[0].isroot);
    assert!(!a.folders[1].isroot);
    assert_eq!(a.folders[0].name, "root");
    assert_eq!(a.folders[1].name, "sub");
    assert_eq!(a.folders[0].node.shortname, *b"ROOT");
    assert_eq!(a.folders[1].node.shortname, *b"SUB ");
    assert_eq!(a.folders[1].node.hash, 0x2222);
    assert_eq!(a.folders[1].node.filecount, 3);
    assert_eq!(a.folders[1].node.firstfileoff, 3);
    let names: Vec<&str> = a.dirs.iter().map(|d| d.name.as_str()).collect();
    assert_eq!(names, vec!["sub", ".", "..", "b.txt", ".", ".."]);
    assert_eq!(a.dirs[3].node.nodeidx, 7);
    assert_eq!(a.dirs[3].node.hash, 0x3333);
    assert_eq!(a.dirs[3].nameoff, 14);
    assert_eq!(a.dirs[3].node.attrandnameoff, 0x0100_000E);
    assert!(a.dirs[3].attr.is_file());
    assert!(!a.dirs[3].attr.is_folder());
    assert_eq!(a.dirs[3].data, b"DATA".to_vec());
    assert!(a.dirs[0].attr.is_folder());
    assert!(a.dirs[0].data.is_empty());
    assert_eq!(a.dirs[2].node.data, NO_FOLDER);
}

#[test]
fn decoding_links_the_tables() {
    let a = RARC::read(sample(true)).unwrap();
    assert_eq!(a.dirs[0].folder, Some(1));
    assert_eq!(a.dirs[1].folder, Some(0));
    assert_eq!(a.dirs[2].folder, None);
    assert_eq!(a.dirs[3].folder, None);
    assert_eq!(a.dirs[4].folder, Some(1));
    assert_eq!(a.dirs[5].folder, Some(0));
    for j in 0..3 {
        assert_eq!(a.dirs[j].parent, Some(0));
    }
    for j in 3..6 {
        assert_eq!(a.dirs[j].parent, Some(1));
    }
    assert_eq!(a.folders[1].dir, Some(0));
    assert_eq!(a.folders[0].dir, None);
}

#[test]
fn little_endian_magic_reads_little_endian_fields() {
    let le = sample(false);
    let a = RARC::read(le.clone()).unwrap();
    assert_eq!(a.endian, Endian::Little);
    assert_eq!(a.header.headersize, 0x20);
    assert_eq!(a.dataheader.dirnodecount, 2);
    assert_eq!(a.dataheader.filenodecount, 6);
    assert_eq!(a.nextidx, 8);
    assert_eq!(a.folders[1].name, "sub");
    assert_eq!(a.folders[1].node.hash, 0x2222);
    assert_eq!(a.dirs[3].node.nodeidx, 7);
    assert_eq!(a.dirs[3].data, b"DATA".to_vec());
    let be = RARC::read(sample(true)).unwrap();
    assert_eq!(a.header, be.header);
    assert_eq!(a.dataheader, be.dataheader);
    assert_eq!(a.folders, be.folders);
}

#[test]
fn the_same_bytes_under_the_other_magic_read_differently() {
    let mut bytes = sample(false);
    bytes.truncate(0x24);
    let le = RARC::read(bytes.clone()).unwrap();
    assert_eq!(le.endian, Endian::Little);
    assert_eq!(le.header.filesize, 242);
    assert_eq!(le.header.headersize, 0x20);
    assert_eq!(le.header.mramsize, 1);
    bytes[0..4].copy_from_slice(b"RARC");
    let be = RARC::read(bytes).unwrap();
    assert_eq!(be.endian, Endian::Big);
    assert_eq!(be.header.filesize, 0xF200_0000);
    assert_eq!(be.header.headersize, 0x2000_0000);
    assert_eq!(be.header.mramsize, 0x0100_0000);
    assert_eq!(be.dataheader.dirnodecount, 0);
    assert_eq!(be.folders.len(), 0);
}

#[test]
fn unknown_magic_falls_back() {
    let mut bytes = sample(true);
    bytes[0..4].copy_from_slice(b"ABCD");
    let a = RARC::read_with(bytes.clone(), Endian::Big).unwrap();
    assert_eq!(a.endian, Endian::Big);
    assert_eq!(a.folders.len(), 2);
    let mut le = sample(false);
    le[0..4].copy_from_slice(b"ABCD");
    let b = RARC::read_with(le, Endian::Little).unwrap();
    assert_eq!(b.endian, Endian::Little);
    assert_eq!(b.dirs.len(), 6);
    let native = if u16::from_ne_bytes([1, 0]) == 1 { Endian::Little } else { Endian::Big };
    let c = RARC::read(b"ABCD".to_vec()).unwrap();
    assert_eq!(c.endian, native);
}

#[test]
fn a_cut_payload_is_an_error() {
    let mut bytes = sample(true);
    bytes.truncate(bytes.len() - 2);
    assert_eq!(RARC::read(bytes).unwrap_err(), RarcError::TruncatedStream);
    let mut entries = sample_entries();
    entries[3].size = 5;
    let exact = build(true, &sample_folders(), &entries, STRINGS, b"xDATAy", 0, 0);
    assert_eq!(RARC::read(exact).unwrap().dirs[3].data, b"DATAy".to_vec());
    entries[3].size = 6;
    let over = build(true, &sample_folders(), &entries, STRINGS, b"xDATAy", 0, 0);
    assert_eq!(RARC::read(over).unwrap_err(), RarcError::TruncatedStream);
}

#[test]
fn an_empty_payload_is_never_cut() {
    let mut entries = sample_entries();
    entries[3].size = 0;
    entries[3].data = 0x00FF_FFFF;
    let bytes = build(true, &sample_folders(), &entries, STRINGS, b"", 0, 0);
    let a = RARC::read(bytes).unwrap();
    assert!(a.dirs[3].data.is_empty());
}

#[test]
fn a_reference_out_of_bounds_is_an_error() {
    let mut entries = sample_entries();
    entries[0].data = 2;
    let bytes = build(true, &sample_folders(), &entries, STRINGS, b"xDATAy", 0, 0);
    assert_eq!(RARC::read(bytes).unwrap_err(), RarcError::DanglingReference);
    let mut folders = sample_folders();
    folders[1].count = 4;
    let bytes = build(true, &folders, &sample_entries(), STRINGS, b"xDATAy", 0, 0);
    assert_eq!(RARC::read(bytes).unwrap_err(), RarcError::DanglingReference);
}

#[test]
fn a_cut_payload_is_reported_before_a_bad_reference() {
    let mut entries = sample_entries();
    entries[0].data = 2;
    entries[3].size = 100;
    let bytes = build(true, &sample_folders(), &entries, STRINGS, b"xDATAy", 0, 0);
    assert_eq!(RARC::read(bytes).unwrap_err(), RarcError::TruncatedStream);
}

#[test]
fn short_data_gives_zero_records() {
    let a = RARC::read(b"RARC".to_vec()).unwrap();
    assert_eq!(a.header.filesize, 0);
    assert_eq!(a.header.headersize, 0);
    assert_eq!(a.dataheader.dirnodecount, 0);
    assert_eq!(a.nextidx, 0);
    assert!(!a.sync);
    assert!(a.folders.is_empty());
    assert!(a.dirs.is_empty());
    let empty = RARC::read(Vec::new()).unwrap();
    assert!(empty.folders.is_empty());
}

#[test]
fn a_header_that_does_not_fit_leaves_the_position() {
    let mut bytes = b"RARC".to_vec();
    bytes.extend_from_slice(&[0, 0, 0, 1, 0, 0, 0, 0, 0, 0, 0, 0, 0, 0, 0, 0, 0, 0, 0, 0, 0, 0, 0, 0]);
    bytes.extend_from_slice(&[0x12, 0x34, 0x01]);
    let a = RARC::read(bytes).unwrap();
    assert_eq!(a.header.filesize, 0);
    assert_eq!(a.dataheader.dirnodecount, 1);
    assert_eq!(a.dataheader.dirnodeoff, 0);
    assert_eq!(a.nextidx, 0x1234);
    assert!(a.sync);
    assert_eq!(a.folders.len(), 1);
    assert!(a.folders[0].isroot);
    assert_eq!(a.folders[0].node.shortname, *b"RARC");
    assert_eq!(a.folders[0].node.nameoff, 1);
    assert_eq!(a.folders[0].node.filecount, 0);
}

#[test]
fn records_past_the_end_are_zero() {
    let mut folders = sample_folders();
    folders[0].count = 0;
    folders[1].count = 0;
    let mut bytes = build(true, &folders, &[], b"root\0", b"", 0, 0);
    bytes[0x20..0x24].copy_from_slice(&3u32.to_be_bytes());
    bytes.truncate(0x40 + 16 + 8);
    let a = RARC::read(bytes).unwrap();
    assert_eq!(a.folders.len(), 3);
    assert_eq!(a.folders[0].node.shortname, *b"ROOT");
    assert_eq!(a.folders[1].node.shortname, [0u8; 4]);
    assert_eq!(a.folders[1].node.nameoff, 0);
    assert_eq!(a.folders[2].node.hash, 0);
    assert!(!a.folders[2].isroot);
}

#[test]
fn a_name_without_end_runs_to_the_end_of_the_data() {
    let folders = vec![Folder { tag: *b"ROOT", nameoff: 0, hash: 0, count: 0, first: 0 }];
    let bytes = build(true, &folders, &[], b"tail", b"", 0, 0);
    let a = RARC::read(bytes).unwrap();
    assert_eq!(a.folders[0].name, "tail");
    let far = vec![Folder { tag: *b"ROOT", nameoff: 1000, hash: 0, count: 0, first: 0 }];
    let b = RARC::read(build(true, &far, &[], b"tail", b"", 0, 0)).unwrap();
    assert_eq!(b.folders[0].name, "");
}

#[test]
fn a_name_that_is_not_utf8_is_replaced() {
    let folders = vec![Folder { tag: *b"ROOT", nameoff: 0, hash: 0, count: 0, first: 0 }];
    let bytes = build(true, &folders, &[], b"a\xFFb\0", b"", 0, 0);
    let a = RARC::read(bytes).unwrap();
    assert_eq!(a.folders[0].name, "a\u{FFFD}b");
}

#[test]
fn the_name_offset_has_24_bits() {
    let folders = vec![Folder { tag: *b"ROOT", nameoff: 0, hash: 0, count: 0, first: 0 }];
    let entries = vec![Entry { idx: 0, hash: 0, attr: 0x85, nameoff: 0x01_0003, data: 0, size: 0 }];
    let mut strings = vec![b'x'; 0x01_0003];
    strings.extend_from_slice(b"far\0");
    let a = RARC::read(build(true, &folders, &entries, &strings, b"", 0, 0)).unwrap();
    assert_eq!(a.dirs[0].nameoff, 0x01_0003);
    assert_eq!(a.dirs[0].attr.bits(), 0x85);
    assert_eq!(a.dirs[0].name, "far");
}
