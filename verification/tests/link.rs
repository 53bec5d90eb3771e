use rarc::archive::RARC;
use rarc::attr::{FileAttr, FILE, FOLDER};
use rarc::dir::NO_FOLDER;
use rarc::error::RarcError;
use rarc::node::{DirNode, FileNode};

fn folder(first: u32, count: u16, hash: u16) -> FileNode {
    let mut f = FileNode::default();
    f.node.firstfileoff = first;
    f.node.filecount = count;
    f.node.hash = hash;
    f
}

fn entry(attr: u8, data: u32, hash: u16) -> DirNode {
    let mut d = DirNode::default();
    d.attr = FileAttr::from_bits(attr);
    d.node.data = data;
    d.node.hash = hash;
    d
}

fn archive(folders: Vec<FileNode>, dirs: Vec<DirNode>) -> RARC {
    let mut a = RARC::default();
    a.folders = folders;
    a.dirs = dirs;
    a
}

fn links(a: &RARC) -> (Vec<Option<usize>>, Vec<Option<usize>>, Vec<Option<usize>>) {
    (
        a.folders.iter().map(|f| f.dir).collect(),
        a.dirs.iter().map(|d| d.folder).collect(),
        a.dirs.iter().map(|d| d.parent).collect(),
    )
}

#[test]
fn folder_entries_are_linked_to_the_folder_they_name() {
    let mut a = archive(
        vec![folder(0, 0, 1), folder(0, 0, 2), folder(0, 0, 3)],
        vec![entry(FOLDER, 2, 0), entry(FOLDER, 0, 0), entry(FOLDER | 0x80, 1, 0)],
    );
    assert_eq!(a.sortparents(), Ok(()));
    assert_eq!(a.dirs[0].folder, Some(2));
    assert_eq!(a.dirs[1].folder, Some(0));
    assert_eq!(a.dirs[2].folder, Some(1));
}

#[test]
fn other_entries_keep_their_link() {
    let mut dirs = vec![entry(FILE, 1, 0), entry(FOLDER, NO_FOLDER, 0), entry(0, 0, 0)];
    dirs[0].folder = Some(9);
    dirs[1].folder = Some(8);
    let mut a = archive(vec![folder(0, 0, 0)], dirs);
    assert_eq!(a.sortparents(), Ok(()));
    assert_eq!(a.dirs[0].folder, Some(9));
    assert_eq!(a.dirs[1].folder, Some(8));
    assert_eq!(a.dirs[2].folder, None);
}

#[test]
fn a_folder_takes_the_last_entry_with_its_hash() {
    let mut a = archive(
        vec![folder(0, 0, 7), folder(0, 0, 9)],
        vec![
            entry(FOLDER, 0, 7),
            entry(FOLDER, 0, 7),
            entry(FOLDER, 0, 8),
            entry(FOLDER, 1, 7),
            entry(FILE, 1, 9),
        ],
    );
    a.folders[1].dir = Some(42);
    assert_eq!(a.sortparents(), Ok(()));
    assert_eq!(a.folders[0].dir, Some(1));
    assert_eq!(a.folders[1].dir, Some(42));
    assert_eq!(a.dirs[2].folder, Some(0));
    assert_eq!(a.dirs[3].folder, Some(1));
}

#[test]
fn entries_get_the_folder_of_their_range_as_parent() {
    let mut a = archive(
        vec![folder(0, 2, 0), folder(2, 3, 0), folder(5, 0, 0)],
        vec![entry(FILE, 0, 0), entry(FILE, 0, 0), entry(FILE, 0, 0), entry(FILE, 0, 0), entry(FILE, 0, 0), entry(FILE, 0, 0)],
    );
    a.dirs[5].parent = Some(77);
    assert_eq!(a.sortparents(), Ok(()));
    let parents: Vec<Option<usize>> = a.dirs.iter().map(|d| d.parent).collect();
    assert_eq!(parents, vec![Some(0), Some(0), Some(1), Some(1), Some(1), Some(77)]);
}

#[test]
fn where_ranges_overlap_the_later_folder_is_the_parent() {
    let mut a = archive(
        vec![folder(0, 3, 0), folder(1, 1, 0)],
        vec![entry(FILE, 0, 0), entry(FILE, 0, 0), entry(FILE, 0, 0)],
    );
    assert_eq!(a.sortparents(), Ok(()));
    let parents: Vec<Option<usize>> = a.dirs.iter().map(|d| d.parent).collect();
    assert_eq!(parents, vec![Some(0), Some(1), Some(0)]);
}

#[test]
fn linking_twice_changes_nothing() {
    let mut a = archive(
        vec![folder(0, 2, 5), folder(1, 2, 6)],
        vec![entry(FOLDER, 1, 6), entry(FOLDER, 0, 4), entry(FILE, 0, 0)],
    );
    a.dirs[2].folder = Some(3);
    assert_eq!(a.sortparents(), Ok(()));
    let once = links(&a);
    assert_eq!(once.0, vec![None, Some(0)]);
    assert_eq!(once.1, vec![Some(1), Some(0), Some(3)]);
    assert_eq!(once.2, vec![Some(0), Some(1), Some(1)]);
    assert_eq!(a.sortparents(), Ok(()));
    assert_eq!(links(&a), once);
}

#[test]
fn a_folder_index_out_of_bounds_is_refused() {
    let mut a = archive(vec![folder(0, 1, 0)], vec![entry(FOLDER, 1, 0)]);
    assert!(!a.refs_in_bounds());
    assert_eq!(a.sortparents(), Err(RarcError::DanglingReference));
    assert_eq!(links(&a), (vec![None], vec![None], vec![None]));
}

#[test]
fn a_range_out_of_bounds_is_refused() {
    let mut a = archive(vec![folder(1, 1, 0)], vec![entry(FOLDER, 0, 0)]);
    assert!(!a.refs_in_bounds());
    assert_eq!(a.sortparents(), Err(RarcError::DanglingReference));
    assert_eq!(links(&a), (vec![None], vec![None], vec![None]));
    let mut b = archive(vec![folder(u32::MAX, u16::MAX, 0)], vec![]);
    assert_eq!(b.sortparents(), Err(RarcError::DanglingReference));
}

#[test]
fn references_in_bounds_are_accepted() {
    let a = archive(vec![folder(1, 0, 0)], vec![entry(FOLDER, NO_FOLDER, 0), entry(FILE, 5, 0)]);
    assert!(a.refs_in_bounds());
    let mut empty = archive(vec![], vec![]);
    assert!(empty.refs_in_bounds());
    assert_eq!(empty.sortparents(), Ok(()));
}
