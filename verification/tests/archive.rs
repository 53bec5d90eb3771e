use rarc::archive::RARC;
use rarc::attr::{FileAttr, FILE, FOLDER};
use rarc::endian::Endian;

#[test]
fn the_default_archive_is_empty() {
    let a = RARC::default();
    assert!(a.folders.is_empty());
    assert!(a.dirs.is_empty());
    assert_eq!(a.header.filesize, 0);
    assert_eq!(a.dataheader.stringtableoff, 0);
    assert_eq!(a.nextidx, 0);
    assert!(!a.sync);
    assert!(a.data.is_empty());
    let native = if u16::from_ne_bytes([1, 0]) == 1 { Endian::Little } else { Endian::Big };
    assert_eq!(a.endian, native);
}

#[test]
fn createdir_appends_a_bare_entry() {
    let mut a = RARC::default();
    let d = a.createdir("thing", FileAttr::from_bits(0x85));
    assert_eq!(d.name, "thing");
    assert_eq!(d.attr.bits(), 0x85);
    assert_eq!(d.node.nodeidx, 0);
    assert_eq!(d.folder, None);
    assert_eq!(d.parent, None);
    assert!(d.data.is_empty());
    assert_eq!(a.dirs.len(), 1);
    a.sync = true;
    a.createdir("other", FileAttr::from_bits(FILE));
    assert_eq!(a.dirs[1].node.nodeidx, 0);
    assert_eq!(a.nextidx, 0);
}

#[test]
fn createfile_numbers_the_entry() {
    let mut a = RARC::default();
    assert_eq!(a.createfile("a", FileAttr::from_bits(FILE)), 0);
    assert_eq!(a.dirs[0].node.nodeidx, 0);
    assert_eq!(a.nextidx, 0);
    a.sync = true;
    a.nextidx = 9;
    assert_eq!(a.createfile("b", FileAttr::from_bits(FILE)), 1);
    assert_eq!(a.createfile("c", FileAttr::from_bits(FILE)), 2);
    assert_eq!(a.dirs[1].node.nodeidx, 9);
    assert_eq!(a.dirs[2].node.nodeidx, 10);
    assert_eq!(a.dirs[2].name, "c");
    assert_eq!(a.nextidx, 11);
}

#[test]
fn createfolder_appends_a_folder_and_its_entry() {
    let mut a = RARC::default();
    a.createfile("x", FileAttr::from_bits(FILE));
    assert_eq!(a.createfolder("stage", 4), 0);
    assert_eq!(a.createfolder("ab", 0), 1);
    assert_eq!(a.folders.len(), 2);
    assert_eq!(a.dirs.len(), 3);
    assert_eq!(a.folders[0].name, "stage");
    assert_eq!(a.folders[0].node.shortname, *b"STAG");
    assert_eq!(a.folders[1].node.shortname, *b"AB  ");
    assert!(!a.folders[0].isroot);
    assert_eq!(a.folders[0].dir, Some(1));
    assert_eq!(a.folders[1].dir, Some(2));
    assert_eq!(a.dirs[1].name, "stage");
    assert_eq!(a.dirs[1].attr.bits(), FOLDER);
    assert_eq!(a.dirs[1].folder, Some(0));
    assert_eq!(a.dirs[1].parent, Some(4));
    assert_eq!(a.dirs[2].folder, Some(1));
    assert_eq!(a.dirs[2].node.data, 1);
    assert_eq!(a.dirs[2].parent, Some(0));
}
