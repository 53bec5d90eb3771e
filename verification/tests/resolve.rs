use rarc::archive::RARC;
use rarc::attr::{FileAttr, FILE, FOLDER};
use rarc::dir::NO_FOLDER;
use rarc::error::RarcError;
use rarc::node::{DirNode, FileNode};

fn folder(name: &str, first: u32, count: u16) -> FileNode {
    let mut f = FileNode::default();
    f.name = name.to_string();
    f.node.firstfileoff = first;
    f.node.filecount = count;
    f
}

fn file(name: &str) -> DirNode {
    let mut d = DirNode::default();
    d.name = name.to_string();
    d.attr = FileAttr::from_bits(FILE);
    d
}

fn link(name: &str, data: u32) -> DirNode {
    let mut d = DirNode::default();
    d.name = name.to_string();
    d.attr = FileAttr::from_bits(FOLDER);
    d.node.data = data;
    d
}

/// root { a { b { deep.bin }, mid.bin }, top.bin }, each child list ending
/// with `.` and `..`.
fn tree() -> RARC {
    let mut a = RARC::default();
    a.folders = vec![folder("root", 0, 4), folder("a", 4, 4), folder("b", 8, 3)];
    a.folders[0].isroot = true;
    a.dirs = vec![
        link("a", 1),
        file("top.bin"),
        link(".", 0),
        link("..", NO_FOLDER),
        link("b", 2),
        file("mid.bin"),
        link(".", 1),
        link("..", 0),
        file("deep.bin"),
        link(".", 2),
        link("..", 1),
    ];
    assert_eq!(a.sortparents(), Ok(()));
    a
}

#[test]
fn children_are_the_entries_of_the_range() {
    let a = tree();
    assert_eq!(a.getchildren(&a.folders[0]), Ok(vec![0, 1, 2, 3]));
    assert_eq!(a.getchildren(&a.folders[1]), Ok(vec![4, 5, 6, 7]));
    assert_eq!(a.getchildren(&a.folders[2]), Ok(vec![8, 9, 10]));
    assert_eq!(a.getchildren(&folder("x", 10, 1)), Ok(vec![10]));
    assert_eq!(a.getchildren(&folder("x", 3, 0)), Ok(vec![]));
    assert_eq!(a.getchildren(&folder("x", 11, 0)), Ok(vec![]));
}

#[test]
fn a_range_past_the_table_is_an_error() {
    let a = tree();
    assert_eq!(a.getchildren(&folder("x", 9, 5)), Err(RarcError::DanglingReference));
    assert_eq!(a.getchildren(&folder("x", 9, 3)), Err(RarcError::DanglingReference));
    assert_eq!(a.getchildren(&folder("x", 9, 2)), Ok(vec![9, 10]));
    assert_eq!(a.getchildren(&folder("x", 11, 1)), Err(RarcError::DanglingReference));
    assert_eq!(a.getchildren(&folder("x", 12, 0)), Err(RarcError::DanglingReference));
    assert_eq!(a.getchildren(&folder("x", u32::MAX, u16::MAX)), Err(RarcError::DanglingReference));
    let mut small = RARC::default();
    small.dirs = vec![link(".", 0), link("..", NO_FOLDER)];
    assert_eq!(small.getchildren(&folder("root", 0, 5)), Err(RarcError::DanglingReference));
    assert_eq!(small.getchildren(&folder("root", 0, 2)), Ok(vec![0, 1]));
}

#[test]
fn an_entry_leads_to_its_folder() {
    let a = tree();
    assert_eq!(a.findfolder(&a.dirs[4]).unwrap().map(|f| f.name.as_str()), Some("b"));
    assert_eq!(a.findfolder(&a.dirs[2]).unwrap().map(|f| f.name.as_str()), Some("root"));
    assert_eq!(a.findfolder(&a.dirs[3]), Ok(None));
    assert_eq!(a.findfolder(&a.dirs[1]), Ok(None));
    let mut stray = link("x", 0);
    stray.folder = Some(2);
    assert_eq!(a.findfolder(&stray).unwrap().map(|f| f.name.as_str()), Some("b"));
    stray.folder = Some(3);
    assert_eq!(a.findfolder(&stray), Err(RarcError::DanglingReference));
}

#[test]
fn the_path_runs_from_the_root_to_the_folder() {
    let a = tree();
    assert_eq!(a.getroot(&vec![0, 1, 2, 3]), Ok(vec![0]));
    assert_eq!(a.getroot(&vec![4, 5, 6, 7]), Ok(vec![0, 1]));
    assert_eq!(a.getroot(&vec![8, 9, 10]), Ok(vec![0, 1, 2]));
    assert_eq!(a.path_names(&vec![0, 1, 2]), vec!["root", "a", "b"]);
}

#[test]
fn the_walk_starts_at_the_last_but_one_child() {
    let a = tree();
    assert_eq!(a.getroot(&vec![9, 3]), Ok(vec![0, 1, 2]));
    assert_eq!(a.getroot(&vec![10, 6, 8]), Ok(vec![0, 1]));
    assert_eq!(a.getroot(&vec![0, 1]), Ok(vec![0, 1]));
}

#[test]
fn a_short_child_list_has_no_path() {
    let a = tree();
    assert_eq!(a.getroot(&vec![]), Err(RarcError::MissingPseudoEntry));
    assert_eq!(a.getroot(&vec![2]), Err(RarcError::MissingPseudoEntry));
}

#[test]
fn an_entry_without_folder_ends_the_walk() {
    let a = tree();
    assert_eq!(a.getroot(&vec![1, 3]), Err(RarcError::RootUnreachable));
    assert_eq!(a.getroot(&vec![3, 3]), Err(RarcError::RootUnreachable));
    let mut b = tree();
    b.dirs[7].folder = None;
    assert_eq!(b.getroot(&vec![8, 9, 10]), Err(RarcError::RootUnreachable));
}

#[test]
fn references_out_of_bounds_end_the_walk() {
    let a = tree();
    assert_eq!(a.getroot(&vec![11, 3]), Err(RarcError::DanglingReference));
    let mut b = tree();
    b.dirs[10].folder = Some(3);
    assert_eq!(b.getroot(&vec![8, 9, 10]), Err(RarcError::DanglingReference));
    let mut c = tree();
    c.folders[1].node.filecount = 8;
    assert_eq!(c.getroot(&vec![8, 9, 10]), Err(RarcError::DanglingReference));
    assert_eq!(c.getroot(&vec![0, 1, 2, 3]), Ok(vec![0]));
}

#[test]
fn a_folder_without_children_ends_the_walk() {
    let mut a = tree();
    a.folders[1].node.filecount = 0;
    assert_eq!(a.getroot(&vec![8, 9, 10]), Err(RarcError::MissingPseudoEntry));
}

#[test]
fn a_walk_in_a_circle_ends() {
    let mut a = tree();
    a.dirs[7].folder = Some(2);
    assert_eq!(a.getroot(&vec![8, 9, 10]), Err(RarcError::RootUnreachable));
    assert_eq!(a.getroot(&vec![4, 5, 6, 7]), Err(RarcError::RootUnreachable));
    a.dirs[10].folder = Some(2);
    assert_eq!(a.getroot(&vec![8, 9, 10]), Err(RarcError::RootUnreachable));
    assert_eq!(a.getroot(&vec![0, 1, 2, 3]), Ok(vec![0]));
}

#[test]
fn a_walk_may_pass_as_many_folders_as_there_are() {
    let mut a = RARC::default();
    a.folders = vec![folder("one", 0, 2), folder("two", 2, 2), folder("root", 4, 2)];
    a.folders[2].isroot = true;
    a.dirs = vec![link(".", 0), link("..", 1), link(".", 1), link("..", 2), link(".", 2), link("..", NO_FOLDER)];
    assert_eq!(a.sortparents(), Ok(()));
    assert_eq!(a.getroot(&vec![0, 1]), Ok(vec![2, 1, 0]));
}

#[test]
fn files_are_picked_in_order() {
    let a = tree();
    assert_eq!(a.files_of(&vec![0, 1, 2, 3]), Ok(vec![1]));
    assert_eq!(a.files_of(&vec![8, 5, 10, 1, 8]), Ok(vec![8, 5, 1, 8]));
    assert_eq!(a.files_of(&vec![]), Ok(vec![]));
    assert_eq!(a.files_of(&vec![8, 5, 11, 1]), Err(RarcError::DanglingReference));
    assert_eq!(a.files_of(&vec![20]), Err(RarcError::DanglingReference));
}

#[test]
fn extraction_plans_every_folder() {
    let a = tree();
    let plans = a.extract().unwrap();
    assert_eq!(plans.len(), 3);
    assert_eq!((plans[0].folder, plans[0].path.clone(), plans[0].files.clone()), (0, vec![0], vec![1]));
    assert_eq!((plans[1].folder, plans[1].path.clone(), plans[1].files.clone()), (1, vec![0, 1], vec![5]));
    assert_eq!((plans[2].folder, plans[2].path.clone(), plans[2].files.clone()), (2, vec![0, 1, 2], vec![8]));
    assert_eq!(a.path_names(&plans[2].path), vec!["root", "a", "b"]);
    let one = a.plan_folder(1).unwrap();
    assert_eq!((one.folder, one.path, one.files), (1, vec![0, 1], vec![5]));
}

#[test]
fn extraction_fails_with_the_first_folder_that_has_no_path() {
    let mut a = tree();
    a.dirs[6].folder = None;
    a.folders[2].node.filecount = 1;
    assert_eq!(a.extract().unwrap_err(), RarcError::RootUnreachable);
    assert_eq!(a.plan_folder(2).unwrap_err(), RarcError::MissingPseudoEntry);
    assert!(a.plan_folder(0).is_ok());
    let empty = RARC::default();
    assert_eq!(empty.extract().unwrap().len(), 0);
}

#[test]
fn a_folder_whose_range_reaches_past_the_table_has_no_plan() {
    let mut a = RARC::default();
    a.folders = vec![folder("root", 0, 5)];
    a.folders[0].isroot = true;
    a.dirs = vec![link(".", 0), link("..", NO_FOLDER)];
    a.dirs[0].folder = Some(0);
    assert_eq!(a.plan_folder(0).unwrap_err(), RarcError::DanglingReference);
    assert_eq!(a.extract().unwrap_err(), RarcError::DanglingReference);
    a.folders[0].node.filecount = 2;
    let plan = a.plan_folder(0).unwrap();
    assert_eq!((plan.folder, plan.path, plan.files), (0, vec![0], vec![]));
    let mut b = tree();
    b.folders[2].node.filecount = 4;
    assert_eq!(b.plan_folder(2).unwrap_err(), RarcError::DanglingReference);
    assert!(b.plan_folder(1).is_ok());
    assert_eq!(b.extract().unwrap_err(), RarcError::DanglingReference);
}
