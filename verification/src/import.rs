//! The importer: from a directory tree to the two record tables.
//!
//! A directory is imported in two passes over its listing. The first pass
//! appends one entry for each child, and one folder for each
//! sub-directory. The second pass appends, for each sub-directory in turn,
//! the pair of pseudo-entries `.` and `..` and then imports that
//! sub-directory. A directory without sub-directories gets one such pair
//! for itself. Reading the tree from disk is left to the caller.

use crate::archive::{ArchiveView, RARC};
use crate::attr::{FileAttr, FILE, FOLDER};
use crate::dir;
use crate::folder;
use crate::names::{check_dot_name, is_dot_name, root_tag};
use crate::node::{DirNode, DirNodeView, FileNode, FileNodeView};
use vstd::prelude::*;
use vstd::slice::slice_to_vec;
use vstd::utf8::encode_utf8;

verus! {

/// One child of a directory: a file with its contents, or a directory with
/// its own listing.
#[derive(Debug)]
pub enum FsEntry {
    File { name: String, data: Vec<u8> },
    Dir { name: String, children: Vec<FsEntry> },
}

impl FsEntry {
    /// The name of the child.
    pub open spec fn name(self) -> Seq<char> {
        match self {
            FsEntry::File { name, .. } => name@,
            FsEntry::Dir { name, .. } => name@,
        }
    }

    /// Whether the child counts: its name is neither `.` nor `..`.
    pub open spec fn listed(self) -> bool {
        !is_dot_name(self.name())
    }

    /// Whether the child is a sub-directory that counts.
    pub open spec fn listed_dir(self) -> bool {
        self.listed() && self is Dir
    }

    /// Whether the child is a file that counts.
    pub open spec fn listed_file(self) -> bool {
        self.listed() && self is File
    }
}

/// How many children of the listing count.
pub open spec fn listed_count(kids: Seq<FsEntry>) -> nat
    decreases kids.len(),
{
    if kids.len() == 0 {
        0
    } else {
        listed_count(kids.drop_last()) + if kids.last().listed() {
            1nat
        } else {
            0nat
        }
    }
}

/// How many children of the listing are sub-directories that count.
pub open spec fn subdir_count(kids: Seq<FsEntry>) -> nat
    decreases kids.len(),
{
    if kids.len() == 0 {
        0
    } else {
        subdir_count(kids.drop_last()) + if kids.last().listed_dir() {
            1nat
        } else {
            0nat
        }
    }
}

/// How many children of the listing are files that count.
pub open spec fn file_count(kids: Seq<FsEntry>) -> nat
    decreases kids.len(),
{
    if kids.len() == 0 {
        0
    } else {
        file_count(kids.drop_last()) + if kids.last().listed_file() {
            1nat
        } else {
            0nat
        }
    }
}

/// How many folders importing the sub-directories of the listing appends.
pub open spec fn sub_folders(kids: Seq<FsEntry>) -> nat
    decreases kids, 0nat,
{
    if kids.len() == 0 {
        0
    } else {
        sub_folders(kids.drop_last()) + if kids.last().listed() {
            match kids.last() {
                FsEntry::Dir { children, .. } => folders_added(children@),
                FsEntry::File { .. } => 0,
            }
        } else {
            0
        }
    }
}

/// How many folders importing the listing appends: one for each directory
/// below it.
pub open spec fn folders_added(kids: Seq<FsEntry>) -> nat
    decreases kids, 1nat,
{
    subdir_count(kids) + sub_folders(kids)
}

/// How many file entries importing the sub-directories of the listing
/// appends.
pub open spec fn sub_files(kids: Seq<FsEntry>) -> nat
    decreases kids, 0nat,
{
    if kids.len() == 0 {
        0
    } else {
        sub_files(kids.drop_last()) + if kids.last().listed() {
            match kids.last() {
                FsEntry::Dir { children, .. } => files_added(children@),
                FsEntry::File { .. } => 0,
            }
        } else {
            0
        }
    }
}

/// How many file entries importing the listing appends: one for each file
/// below it.
pub open spec fn files_added(kids: Seq<FsEntry>) -> nat
    decreases kids, 1nat,
{
    file_count(kids) + sub_files(kids)
}

/// How many entries the second pass over the listing appends: for each
/// sub-directory the pair of pseudo-entries and what importing it appends.
pub open spec fn sub_entries(kids: Seq<FsEntry>) -> nat
    decreases kids, 0nat,
{
    if kids.len() == 0 {
        0
    } else {
        sub_entries(kids.drop_last()) + if kids.last().listed() {
            match kids.last() {
                FsEntry::Dir { children, .. } => 2 + entries_added(children@),
                FsEntry::File { .. } => 0,
            }
        } else {
            0
        }
    }
}

/// How many entries importing the listing appends.
pub open spec fn entries_added(kids: Seq<FsEntry>) -> nat
    decreases kids, 1nat,
{
    listed_count(kids) + if subdir_count(kids) == 0 {
        2
    } else {
        sub_entries(kids)
    }
}

/// Whether every child that counts fits its record: a file has a length of
/// 32 bits, a directory a listing that fits.
pub open spec fn children_fit(kids: Seq<FsEntry>) -> bool
    decreases kids, 0nat,
{
    if kids.len() == 0 {
        true
    } else {
        children_fit(kids.drop_last()) && if kids.last().listed() {
            match kids.last() {
                FsEntry::Dir { children, .. } => listing_fits(children@),
                FsEntry::File { data, .. } => data@.len() <= u32::MAX,
            }
        } else {
            true
        }
    }
}

/// Whether the listing fits its records: the children that count and the
/// two pseudo-entries have a count of 16 bits, and every child fits.
pub open spec fn listing_fits(kids: Seq<FsEntry>) -> bool
    decreases kids, 1nat,
{
    listed_count(kids) + 2 <= u16::MAX && children_fit(kids)
}

/// The attributes of an imported file: the given ones and FILE.
pub open spec fn file_attr(attr: FileAttr) -> FileAttr {
    FileAttr { bits: attr.bits | FILE }
}

/// What `data` of a folder entry holds for the given link.
pub open spec fn link_data(link: Option<usize>) -> u32 {
    match link {
        Some(f) => f as u32,
        None => dir::NO_FOLDER,
    }
}

/// A pseudo-entry: a folder entry with the given name that refers to
/// `target` and is owned by `owner`.
pub open spec fn pseudo_entry(name: Seq<char>, target: Option<usize>, owner: usize) -> DirNodeView {
    DirNodeView {
        node: dir::Node { data: link_data(target), ..dir::Node::zero() },
        folder: target,
        parent: Some(owner),
        ..DirNodeView::named(name, FileAttr { bits: FOLDER })
    }
}

impl ArchiveView {
    /// The archive in which the child range of folder `p` starts at `first`.
    pub open spec fn with_range_start(self, p: usize, first: u32) -> ArchiveView {
        ArchiveView {
            folders: self.folders.update(
                p as int,
                FileNodeView {
                    node: folder::Node { firstfileoff: first, ..self.folders[p as int].node },
                    ..self.folders[p as int]
                },
            ),
            ..self
        }
    }

    /// The archive in which the child range of folder `p` has `count`
    /// entries.
    pub open spec fn with_range_count(self, p: usize, count: u16) -> ArchiveView {
        ArchiveView {
            folders: self.folders.update(
                p as int,
                FileNodeView {
                    node: folder::Node { filecount: count, ..self.folders[p as int].node },
                    ..self.folders[p as int]
                },
            ),
            ..self
        }
    }

    /// The archive in which the last entry carries the given payload.
    pub open spec fn with_payload(self, data: Seq<u8>) -> ArchiveView {
        let e = self.dirs.len() - 1;
        ArchiveView {
            dirs: self.dirs.update(
                e,
                DirNodeView {
                    node: dir::Node { datasize: data.len() as u32, ..self.dirs[e].node },
                    data,
                    ..self.dirs[e]
                },
            ),
            ..self
        }
    }

    /// The archive after the first pass has met `kid` in the listing of
    /// folder `p`.
    pub open spec fn with_child(self, kid: FsEntry, p: usize, attr: FileAttr) -> ArchiveView {
        if !kid.listed() {
            self
        } else {
            match kid {
                FsEntry::Dir { name, .. } => self.created_folder(name@, p),
                FsEntry::File { name, data } => self.created_file(name@, file_attr(attr)).with_payload(
                    data@,
                ),
            }
        }
    }

    /// The archive after the first pass over the listing of folder `p`.
    pub open spec fn with_children(self, kids: Seq<FsEntry>, p: usize, attr: FileAttr) -> ArchiveView
        decreases kids.len(),
    {
        if kids.len() == 0 {
            self
        } else {
            self.with_children(kids.drop_last(), p, attr).with_child(kids.last(), p, attr)
        }
    }

    /// The folder above folder `p`: the owner of the entry that stands for
    /// `p`. The first folder has none, and so has a folder without such an
    /// entry or such an owner.
    pub open spec fn folder_above(self, p: usize) -> Option<usize> {
        if p == 0 || p >= self.folders.len() {
            None
        } else {
            match self.folders[p as int].dir {
                Some(e) => if e < self.dirs.len() {
                    match self.dirs[e as int].parent {
                        Some(up) => if up < dir::NO_FOLDER {
                            Some(up)
                        } else {
                            None
                        },
                        None => None,
                    }
                } else {
                    None
                },
                None => None,
            }
        }
    }

    /// The archive with the pair that the second pass appends for the
    /// sub-folder `s` of folder `p`: `.` refers to `s`, and `..` to `p`
    /// unless `p` is the first folder.
    pub open spec fn with_pair_for(self, s: usize, p: usize) -> ArchiveView {
        self.push_entry(pseudo_entry("."@, Some(s), s)).push_entry(
            pseudo_entry(
                ".."@,
                if p == 0 {
                    None
                } else {
                    Some(p)
                },
                p,
            ),
        )
    }

    /// The archive with the pair that a folder `p` without sub-folders
    /// gets: `.` refers to `p`, and `..` to the folder above it.
    pub open spec fn with_own_pair(self, p: usize) -> ArchiveView {
        self.push_entry(pseudo_entry("."@, Some(p), p)).push_entry(
            pseudo_entry(".."@, self.folder_above(p), p),
        )
    }

    /// The archive after the second pass over the first `n` children of
    /// the listing of folder `p`. `base` is the index of the folder that
    /// the first pass appended for the first sub-directory.
    pub open spec fn with_subdirs(
        self,
        kids: Seq<FsEntry>,
        n: int,
        p: usize,
        base: nat,
        attr: FileAttr,
    ) -> ArchiveView
        decreases kids, 0nat, n,
    {
        if n <= 0 || n > kids.len() {
            self
        } else {
            let before = self.with_subdirs(kids, n - 1, p, base, attr);
            if kids[n - 1].listed() {
                match kids[n - 1] {
                    FsEntry::Dir { children, .. } => {
                        let s = (base + subdir_count(kids.take(n - 1))) as usize;
                        before.with_pair_for(s, p).imported(children@, s, attr)
                    },
                    FsEntry::File { .. } => before,
                }
            } else {
                before
            }
        }
    }

    /// The archive after the listing `kids` has been imported into folder
    /// `p`.
    pub open spec fn imported(self, kids: Seq<FsEntry>, p: usize, attr: FileAttr) -> ArchiveView
        decreases kids, 1nat, 0int,
    {
        let listed = self.with_range_start(p, self.dirs.len() as u32).with_children(
            kids,
            p,
            attr,
        ).with_range_count(p, (listed_count(kids) + 2) as u16);
        if subdir_count(kids) == 0 {
            listed.with_own_pair(p)
        } else {
            listed.with_subdirs(kids, kids.len() as int, p, self.folders.len(), attr)
        }
    }

    /// Whether the listing can be imported into folder `p`: the folder
    /// exists, and the tables, the running entry index and every record
    /// stay within the widths of their fields.
    pub open spec fn can_import(self, kids: Seq<FsEntry>, p: usize) -> bool {
        &&& p < self.folders.len()
        &&& self.folders.len() + folders_added(kids) <= u32::MAX
        &&& self.dirs.len() + entries_added(kids) <= u32::MAX
        &&& self.sync ==> self.nextidx + files_added(kids) <= u16::MAX
        &&& listing_fits(kids)
    }
}

/// What the second pass appends for one child: folders, files and entries.
/// Nothing but for a sub-directory that counts; for that, what importing it
/// appends, and the pair of pseudo-entries.
pub open spec fn below(kid: FsEntry) -> (nat, nat, nat) {
    if kid.listed() {
        match kid {
            FsEntry::Dir { children, .. } => (
                folders_added(children@),
                files_added(children@),
                2 + entries_added(children@),
            ),
            FsEntry::File { .. } => (0, 0, 0),
        }
    } else {
        (0, 0, 0)
    }
}

/// Whether the child, where it counts, fits its record.
pub open spec fn child_fits(kid: FsEntry) -> bool {
    if kid.listed() {
        match kid {
            FsEntry::Dir { children, .. } => listing_fits(children@),
            FsEntry::File { data, .. } => data@.len() <= u32::MAX,
        }
    } else {
        true
    }
}

/// Each count over the first `i` children is at most the count over all.
pub(crate) proof fn lemma_prefix_counts(kids: Seq<FsEntry>, i: int)
    requires
        0 <= i <= kids.len(),
    ensures
        listed_count(kids.take(i)) <= listed_count(kids),
        subdir_count(kids.take(i)) <= subdir_count(kids),
        file_count(kids.take(i)) <= file_count(kids),
        sub_folders(kids.take(i)) <= sub_folders(kids),
        sub_files(kids.take(i)) <= sub_files(kids),
        sub_entries(kids.take(i)) <= sub_entries(kids),
        children_fit(kids) ==> children_fit(kids.take(i)),
    decreases kids.len() - i,
{
    if i < kids.len() {
        lemma_prefix_counts(kids, i + 1);
        assert(kids.take(i + 1).drop_last() =~= kids.take(i));
    } else {
        assert(kids.take(i) =~= kids);
    }
}

/// What child `i` adds to each count over the children before it.
pub(crate) proof fn lemma_count_step(kids: Seq<FsEntry>, i: int)
    requires
        0 <= i < kids.len(),
    ensures
        listed_count(kids.take(i + 1)) == listed_count(kids.take(i)) + (if kids[i].listed() {
            1nat
        } else {
            0nat
        }),
        subdir_count(kids.take(i + 1)) == subdir_count(kids.take(i)) + (if kids[i].listed_dir() {
            1nat
        } else {
            0nat
        }),
        file_count(kids.take(i + 1)) == file_count(kids.take(i)) + (if kids[i].listed_file() {
            1nat
        } else {
            0nat
        }),
        sub_folders(kids.take(i + 1)) == sub_folders(kids.take(i)) + below(kids[i]).0,
        sub_files(kids.take(i + 1)) == sub_files(kids.take(i)) + below(kids[i]).1,
        sub_entries(kids.take(i + 1)) == sub_entries(kids.take(i)) + below(kids[i]).2,
        children_fit(kids.take(i + 1)) ==> child_fits(kids[i]),
{
    assert(kids.take(i + 1).drop_last() =~= kids.take(i));
    assert(kids.take(i + 1).last() == kids[i]);
}

/// A listing without sub-directories adds nothing below itself.
pub(crate) proof fn lemma_no_subdirs(kids: Seq<FsEntry>)
    requires
        subdir_count(kids) == 0,
    ensures
        sub_folders(kids) == 0,
        sub_files(kids) == 0,
        sub_entries(kids) == 0,
    decreases kids.len(),
{
    if kids.len() > 0 {
        lemma_no_subdirs(kids.drop_last());
    }
}

/// Whether the character parts the components of a path: a slash or a
/// backslash.
pub open spec fn is_separator(c: char) -> bool {
    c == '/' || c == '\\'
}

/// Where the last component of a path starts: behind its last separator,
/// or at its start where it holds none.
pub open spec fn component_start(path: Seq<char>) -> nat
    decreases path.len(),
{
    if path.len() == 0 {
        0
    } else if is_separator(path.last()) {
        path.len()
    } else {
        component_start(path.drop_last())
    }
}

/// The name of the root folder for a tree at the given path: the last
/// component of the path, which is what follows its last separator.
pub open spec fn root_name(path: Seq<char>) -> Seq<char> {
    path.subrange(component_start(path) as int, path.len() as int)
}

/// The root folder with the given name: tagged `ROOT`, without children.
pub open spec fn root_record(name: Seq<char>) -> FileNodeView {
    FileNodeView {
        node: folder::Node { shortname: root_tag(), ..folder::Node::zero() },
        isroot: true,
        name,
        dir: None,
    }
}

impl ArchiveView {
    /// The archive with a root folder: the one it has, or else a new one
    /// with the given name.
    pub open spec fn with_root(self, name: Seq<char>) -> ArchiveView {
        if self.folders.len() == 0 {
            self.push_folder(root_record(name))
        } else {
            self
        }
    }

    /// Whether a tree with the given listing can be imported: whether,
    /// once the archive has a root folder, the listing can be imported into
    /// its first folder.
    pub open spec fn can_import_tree(self, kids: Seq<FsEntry>) -> bool {
        self.with_root(Seq::empty()).can_import(kids, 0)
    }
}

/// The component starts within the path, behind a separator unless at the
/// start, and no separator follows.
pub proof fn lemma_component_start(path: Seq<char>)
    ensures
        component_start(path) <= path.len(),
        forall|i: int| component_start(path) <= i < path.len() ==> !is_separator(path[i]),
        component_start(path) > 0 ==> is_separator(path[component_start(path) - 1]),
    decreases path.len(),
{
    if path.len() > 0 && !is_separator(path.last()) {
        let front = path.drop_last();
        lemma_component_start(front);
        assert forall|i: int| component_start(path) <= i < path.len() implies !is_separator(
            path[i],
        ) by {
            if i < front.len() {
                assert(front[i] == path[i]);
            }
        }
        if component_start(path) > 0 {
            assert(front[component_start(path) - 1] == path[component_start(path) - 1]);
        }
    }
}

/// A path without a separator is its own last component.
pub proof fn lemma_plain_name(path: Seq<char>)
    requires
        forall|i: int| 0 <= i < path.len() ==> !is_separator(path[i]),
    ensures
        component_start(path) == 0,
        root_name(path) == path,
    decreases path.len(),
{
    if path.len() > 0 {
        let front = path.drop_last();
        assert forall|i: int| 0 <= i < front.len() implies !is_separator(front[i]) by {
            assert(front[i] == path[i]);
        }
        lemma_plain_name(front);
        assert(path.last() == path[path.len() - 1]);
    }
    assert(root_name(path) =~= path);
}

/// What follows a separator that no separator follows is the last
/// component: the name of a path `front`, separator, `name` is `name`.
pub proof fn lemma_name_behind_separator(path: Seq<char>, cut: int)
    requires
        0 < cut <= path.len(),
        is_separator(path[cut - 1]),
        forall|i: int| cut <= i < path.len() ==> !is_separator(path[i]),
    ensures
        component_start(path) == cut,
        root_name(path) == path.subrange(cut, path.len() as int),
    decreases path.len(),
{
    if path.len() > cut {
        let front = path.drop_last();
        assert(front[cut - 1] == path[cut - 1]);
        assert forall|i: int| cut <= i < front.len() implies !is_separator(front[i]) by {
            assert(front[i] == path[i]);
        }
        lemma_name_behind_separator(front, cut);
        assert(path.last() == path[path.len() - 1]);
    } else {
        assert(path.last() == path[cut - 1]);
    }
}

/// No more files are imported than entries are appended.
proof fn lemma_files_are_entries(kids: Seq<FsEntry>)
    ensures
        file_count(kids) <= listed_count(kids),
        sub_files(kids) <= sub_entries(kids),
        files_added(kids) <= entries_added(kids),
    decreases kids, 0nat,
{
    lemma_files_are_entries_below(kids);
    if subdir_count(kids) == 0 {
        lemma_no_subdirs(kids);
    }
}

/// The same, over the children one by one.
proof fn lemma_files_are_entries_below(kids: Seq<FsEntry>)
    ensures
        file_count(kids) <= listed_count(kids),
        sub_files(kids) <= sub_entries(kids),
    decreases kids,
{
    if kids.len() > 0 {
        lemma_files_are_entries_below(kids.drop_last());
        match kids.last() {
            FsEntry::Dir { children, .. } => {
                lemma_files_are_entries_below(children@);
                if subdir_count(children@) == 0 {
                    lemma_no_subdirs(children@);
                }
                assert(files_added(children@) == file_count(children@) + sub_files(children@));
                assert(files_added(children@) <= entries_added(children@));
            },
            FsEntry::File { .. } => {},
        }
    }
}

/// What importing a listing appends, counted.
#[derive(Debug, Clone, Copy)]
pub struct Totals {
    pub folders: u64,
    pub entries: u64,
    pub files: u64,
}

/// The most that a table can hold for its indices to have 32 bits.
pub const TABLE_LIMIT: u64 = 0xFFFF_FFFF;

/// Counts what importing the listing appends. Gives nothing where the
/// listing does not fit its records or would append more than a table can
/// hold.
pub fn measure(kids: &Vec<FsEntry>) -> (r: Option<Totals>)
    ensures
        (match r {
            Some(t) => {
                &&& listing_fits(kids@)
                &&& t.folders == folders_added(kids@)
                &&& t.entries == entries_added(kids@)
                &&& t.files == files_added(kids@)
                &&& t.folders <= TABLE_LIMIT
                &&& t.entries <= TABLE_LIMIT
            },
            None => !listing_fits(kids@) || folders_added(kids@) > TABLE_LIMIT || entries_added(
                kids@,
            ) > TABLE_LIMIT,
        }),
    decreases kids,
{
    let mut listed: u64 = 0;
    let mut subdirs: u64 = 0;
    let mut files: u64 = 0;
    let mut below_folders: u64 = 0;
    let mut below_files: u64 = 0;
    let mut below_entries: u64 = 0;
    let mut i: usize = 0;
    while i < kids.len()
        invariant
            i <= kids.len(),
            listed == listed_count(kids@.take(i as int)),
            subdirs == subdir_count(kids@.take(i as int)),
            files == file_count(kids@.take(i as int)),
            below_folders == sub_folders(kids@.take(i as int)),
            below_files == sub_files(kids@.take(i as int)),
            below_entries == sub_entries(kids@.take(i as int)),
            children_fit(kids@.take(i as int)),
            subdirs <= listed,
            files <= listed,
            below_files <= below_entries,
            listed <= TABLE_LIMIT,
            below_folders <= TABLE_LIMIT,
            below_entries <= TABLE_LIMIT,
        decreases kids.len() - i,
    {
        proof {
            lemma_count_step(kids@, i as int);
            lemma_prefix_counts(kids@, i + 1);
            lemma_files_are_entries(kids@.take(i as int));
            lemma_files_are_entries(kids@.take(i + 1));
            assert(kids@.take(i + 1).drop_last() =~= kids@.take(i as int));
            assert(kids@.take(i + 1).last() == kids@[i as int]);
        }
        match &kids[i] {
            FsEntry::Dir { name, children } => {
                if !check_dot_name(name.as_str()) {
                    let below: Totals = match measure(children) {
                        Some(t) => t,
                        None => { return None; },
                    };
                    proof {
                        lemma_files_are_entries(children@);
                    }
                    listed = listed + 1;
                    subdirs = subdirs + 1;
                    below_folders = below_folders + below.folders;
                    below_files = below_files + below.files;
                    below_entries = below_entries + 2 + below.entries;
                }
            },
            FsEntry::File { name, data } => {
                if !check_dot_name(name.as_str()) {
                    if data.len() as u64 > TABLE_LIMIT {
                        return None;
                    }
                    listed = listed + 1;
                    files = files + 1;
                }
            },
        }
        if listed > TABLE_LIMIT || below_folders > TABLE_LIMIT || below_entries > TABLE_LIMIT {
            return None;
        }
        i = i + 1;
    }
    proof {
        assert(kids@.take(i as int) =~= kids@);
        lemma_files_are_entries(kids@);
    }
    if listed + 2 > 0xFFFF {
        return None;
    }
    let folders: u64 = subdirs + below_folders;
    let entries: u64 = listed + if subdirs == 0 {
        2
    } else {
        below_entries
    };
    if folders > TABLE_LIMIT || entries > TABLE_LIMIT {
        return None;
    }
    Some(Totals { folders, entries, files: files + below_files })
}

impl RARC {
    /// Lets the child range of folder `p` start at `first`.
    fn set_range_start(&mut self, p: usize, first: u32)
        requires
            p < old(self).folders.len(),
        ensures
            final(self)@ == old(self)@.with_range_start(p, first),
    {
        self.folders[p].node.firstfileoff = first;
        assert(self@.folders =~= old(self)@.with_range_start(p, first).folders);
        assert(self@.dirs =~= old(self)@.dirs);
    }

    /// Gives the child range of folder `p` the length `count`.
    fn set_range_count(&mut self, p: usize, count: u16)
        requires
            p < old(self).folders.len(),
        ensures
            final(self)@ == old(self)@.with_range_count(p, count),
    {
        self.folders[p].node.filecount = count;
        assert(self@.folders =~= old(self)@.with_range_count(p, count).folders);
        assert(self@.dirs =~= old(self)@.dirs);
    }

    /// Gives the last entry its payload.
    fn set_payload(&mut self, data: &Vec<u8>)
        requires
            old(self).dirs.len() > 0,
            data.len() <= u32::MAX,
        ensures
            final(self)@ == old(self)@.with_payload(data@),
    {
        let e: usize = self.dirs.len() - 1;
        self.dirs[e].data = slice_to_vec(data.as_slice());
        self.dirs[e].node.datasize = data.len() as u32;
        assert(self@.dirs =~= old(self)@.with_payload(data@).dirs);
        assert(self@.folders =~= old(self)@.folders);
    }

    /// Appends a pseudo-entry.
    fn push_pseudo(&mut self, name: &str, target: Option<usize>, owner: usize)
        requires
            target matches Some(f) ==> f < dir::NO_FOLDER,
        ensures
            final(self)@ == old(self)@.push_entry(pseudo_entry(name@, target, owner)),
    {
        let data: u32 = match target {
            Some(f) => f as u32,
            None => dir::NO_FOLDER,
        };
        let entry = DirNode {
            node: dir::Node { nodeidx: 0, hash: 0, attrandnameoff: 0, data, datasize: 0 },
            attr: FileAttr::from_bits(FOLDER),
            name: name.to_owned(),
            nameoff: 0,
            data: Vec::new(),
            folder: target,
            parent: Some(owner),
        };
        self.dirs.push(entry);
        assert(self@.dirs =~= old(self)@.dirs.push(pseudo_entry(name@, target, owner)));
        assert(self@.folders =~= old(self)@.folders);
    }

    /// The folder above folder `p`.
    fn folder_above(&self, p: usize) -> (r: Option<usize>)
        ensures
            r == self@.folder_above(p),
            r matches Some(f) ==> f < dir::NO_FOLDER,
    {
        if p == 0 || p >= self.folders.len() {
            return None;
        }
        assert(self@.folders[p as int] == self.folders@[p as int]@);
        match self.folders[p].dir {
            Some(e) => {
                if e < self.dirs.len() {
                    assert(self@.dirs[e as int] == self.dirs@[e as int]@);
                    match self.dirs[e].parent {
                        Some(up) => {
                            if up < dir::NO_FOLDER as usize {
                                Some(up)
                            } else {
                                None
                            }
                        },
                        None => None,
                    }
                } else {
                    None
                }
            },
            None => None,
        }
    }

    /// The first pass over one child. Tells whether it was a sub-directory
    /// that counts.
    fn import_child(&mut self, kid: &FsEntry, p: usize, attr: FileAttr) -> (r: bool)
        requires
            kid.listed_dir() ==> old(self).folders.len() < dir::NO_FOLDER,
            kid.listed_file() ==> (old(self).sync ==> old(self).nextidx < u16::MAX),
            kid.listed() ==> (kid matches FsEntry::File { data, .. } ==> data@.len() <= u32::MAX),
        ensures
            final(self)@ == old(self)@.with_child(*kid, p, attr),
            r == kid.listed_dir(),
    {
        match kid {
            FsEntry::Dir { name, .. } => {
                if check_dot_name(name.as_str()) {
                    return false;
                }
                self.createfolder(name.as_str(), p);
                true
            },
            FsEntry::File { name, data } => {
                if check_dot_name(name.as_str()) {
                    return false;
                }
                let with_file: FileAttr = attr.union(FileAttr::from_bits(FILE));
                self.createfile(name.as_str(), with_file);
                self.set_payload(data);
                false
            },
        }
    }

    /// The first pass over the listing of folder `p`. Returns how many
    /// sub-directories it met.
    fn import_children(&mut self, kids: &Vec<FsEntry>, p: usize, attr: FileAttr) -> (r: usize)
        requires
            old(self).folders.len() + subdir_count(kids@) <= u32::MAX,
            old(self).sync ==> old(self).nextidx + file_count(kids@) <= u16::MAX,
            children_fit(kids@),
        ensures
            final(self)@ == old(self)@.with_children(kids@, p, attr),
            r == subdir_count(kids@),
            final(self).folders.len() == old(self).folders.len() + subdir_count(kids@),
            final(self).dirs.len() == old(self).dirs.len() + listed_count(kids@),
            final(self).sync == old(self).sync,
            final(self).nextidx == old(self).nextidx + (if old(self).sync {
                file_count(kids@)
            } else {
                0
            }),
    {
        let ghost start = self@;
        let mut i: usize = 0;
        let mut subdirs: usize = 0;
        while i < kids.len()
            invariant
                i <= kids.len(),
                start.folders.len() + subdir_count(kids@) <= u32::MAX,
                start.sync ==> start.nextidx + file_count(kids@) <= u16::MAX,
                children_fit(kids@),
                self@ == start.with_children(kids@.take(i as int), p, attr),
                subdirs == subdir_count(kids@.take(i as int)),
                self.folders.len() == start.folders.len() + subdir_count(kids@.take(i as int)),
                self.dirs.len() == start.dirs.len() + listed_count(kids@.take(i as int)),
                self.sync == start.sync,
                self.nextidx == start.nextidx + (if start.sync {
                    file_count(kids@.take(i as int))
                } else {
                    0
                }),
            decreases kids.len() - i,
        {
            proof {
                lemma_count_step(kids@, i as int);
                lemma_prefix_counts(kids@, i + 1);
                assert(kids@.take(i + 1).drop_last() =~= kids@.take(i as int));
            }
            proof {
                self.lemma_view_lengths();
            }
            if self.import_child(&kids[i], p, attr) {
                subdirs = subdirs + 1;
            }
            proof {
                self.lemma_view_lengths();
            }
            i = i + 1;
        }
        assert(kids@.take(i as int) =~= kids@);
        subdirs
    }

    /// Imports the listing of a directory into folder `parent`.
    ///
    /// The child range of `parent` starts at the end of the entry table.
    /// Each child but `.` and `..` gets an entry there: a sub-directory a
    /// new folder and the folder entry that stands for it, a file a file
    /// entry with its contents, numbered where the archive numbers its
    /// entries. The range is as long as these and two more. Then each
    /// sub-directory in turn gets the pair `.` and `..`, where `.` refers to
    /// it and `..` to `parent` (to no folder where `parent` is the first
    /// folder), and is imported itself. Where there is no sub-directory,
    /// `parent` gets the pair for itself: `.` refers to it and `..` to the
    /// folder above it.
    pub fn importnote(&mut self, listing: &Vec<FsEntry>, parent: usize, attr: FileAttr)
        requires
            old(self)@.can_import(listing@, parent),
        ensures
            final(self)@ == old(self)@.imported(listing@, parent, attr),
            final(self).folders.len() == old(self).folders.len() + folders_added(listing@),
            final(self).dirs.len() == old(self).dirs.len() + entries_added(listing@),
            final(self).sync == old(self).sync,
            final(self).nextidx == old(self).nextidx + (if old(self).sync {
                files_added(listing@)
            } else {
                0
            }),
        decreases listing,
    {
        let ghost start = self@;
        let base: usize = self.folders.len();
        let first: usize = self.dirs.len();
        proof {
            lemma_prefix_counts(listing@, 0);
            self.lemma_view_lengths();
        }
        self.set_range_start(parent, first as u32);
        proof {
            self.lemma_view_lengths();
        }
        let subdirs: usize = self.import_children(listing, parent, attr);
        proof {
            self.lemma_view_lengths();
        }
        let count: u16 = (self.dirs.len() - first + 2) as u16;
        self.set_range_count(parent, count);
        proof {
            self.lemma_view_lengths();
        }
        let ghost listed = self@;
        if subdirs == 0 {
            let above: Option<usize> = self.folder_above(parent);
            self.push_pseudo(".", Some(parent), parent);
            self.push_pseudo("..", above, parent);
            proof {
                lemma_no_subdirs(listing@);
                self.lemma_view_lengths();
            }
        } else {
            let mut i: usize = 0;
            let mut met: usize = 0;
            while i < listing.len()
                invariant
                    i <= listing.len(),
                    start.can_import(listing@, parent),
                    subdir_count(listing@) > 0,
                    base == start.folders.len(),
                    first == start.dirs.len(),
                    met == subdir_count(listing@.take(i as int)),
                    self@ == listed.with_subdirs(listing@, i as int, parent, base as nat, attr),
                    self.folders.len() == base + subdir_count(listing@) + sub_folders(
                        listing@.take(i as int),
                    ),
                    self.dirs.len() == first + listed_count(listing@) + sub_entries(
                        listing@.take(i as int),
                    ),
                    self.sync == start.sync,
                    self.nextidx == start.nextidx + (if start.sync {
                        file_count(listing@) + sub_files(listing@.take(i as int))
                    } else {
                        0
                    }),
                decreases listing.len() - i,
            {
                proof {
                    lemma_count_step(listing@, i as int);
                    lemma_prefix_counts(listing@, i + 1);
                }
                match &listing[i] {
                    FsEntry::Dir { name, children } => {
                        if !check_dot_name(name.as_str()) {
                            let sub: usize = base + met;
                            let up: Option<usize> = if parent == 0 {
                                None
                            } else {
                                Some(parent)
                            };
                            self.push_pseudo(".", Some(sub), sub);
                            self.push_pseudo("..", up, parent);
                            proof {
                                self.lemma_view_lengths();
                            }
                            self.importnote(children, sub, attr);
                            met = met + 1;
                        }
                    },
                    FsEntry::File { .. } => {},
                }
                i = i + 1;
            }
            assert(listing@.take(i as int) =~= listing@);
        }
    }
    /// Tells whether the listing can be imported into folder `parent`.
    pub fn can_import(&self, listing: &Vec<FsEntry>, parent: usize) -> (r: bool)
        ensures
            r == self@.can_import(listing@, parent),
    {
        proof {
            self.lemma_view_lengths();
        }
        if parent >= self.folders.len() {
            return false;
        }
        let totals: Totals = match measure(listing) {
            Some(t) => t,
            None => { return false; },
        };
        if self.folders.len() as u64 > TABLE_LIMIT || self.dirs.len() as u64 > TABLE_LIMIT {
            return false;
        }
        if self.folders.len() as u64 + totals.folders > TABLE_LIMIT {
            return false;
        }
        if self.dirs.len() as u64 + totals.entries > TABLE_LIMIT {
            return false;
        }
        proof {
            lemma_files_are_entries(listing@);
        }
        if self.sync && self.nextidx as u64 + totals.files > 0xFFFF {
            return false;
        }
        true
    }

    /// The name of the root folder for a tree at the given path.
    pub fn root_name_of(path: &str) -> (r: String)
        ensures
            r@ == root_name(path@),
    {
        let len: usize = path.unicode_len();
        let mut i: usize = len;
        let mut found: bool = false;
        assert(path@.take(i as int) =~= path@);
        while i > 0 && !found
            invariant
                i <= len,
                len == path@.len(),
                component_start(path@) == component_start(path@.take(i as int)),
                found ==> i > 0 && is_separator(path@[i - 1]),
            decreases i + (if found { 0int } else { 1int }),
        {
            let c: char = path.get_char(i - 1);
            if c == '/' || c == '\\' {
                found = true;
            } else {
                assert(path@.take(i as int).drop_last() =~= path@.take(i - 1));
                i = i - 1;
            }
        }
        proof {
            if i > 0 {
                assert(path@.take(i as int).last() == path@[i - 1]);
            }
        }
        path.substring_char(i, len).to_owned()
    }

    /// Tells whether a tree with the given listing can be imported.
    pub fn can_import_from(&self, listing: &Vec<FsEntry>) -> (r: bool)
        ensures
            r == self@.can_import_tree(listing@),
    {
        proof {
            self.lemma_view_lengths();
        }
        let totals: Totals = match measure(listing) {
            Some(t) => t,
            None => { return false; },
        };
        let folders: u64 = if self.folders.len() == 0 {
            1
        } else {
            self.folders.len() as u64
        };
        if folders > TABLE_LIMIT || self.dirs.len() as u64 > TABLE_LIMIT {
            return false;
        }
        if folders + totals.folders > TABLE_LIMIT {
            return false;
        }
        if self.dirs.len() as u64 + totals.entries > TABLE_LIMIT {
            return false;
        }
        proof {
            lemma_files_are_entries(listing@);
        }
        if self.sync && self.nextidx as u64 + totals.files > 0xFFFF {
            return false;
        }
        true
    }

    /// Imports the tree at the path `name`, whose listing is given. Where
    /// the archive has no folder yet, it first gets a root folder, named
    /// after the last component of `name` and tagged `ROOT`. The listing is
    /// then imported into the first folder.
    pub fn importfromfolder(&mut self, name: &str, listing: &Vec<FsEntry>, attr: FileAttr)
        requires
            old(self)@.can_import_tree(listing@),
        ensures
            final(self)@ == old(self)@.with_root(root_name(name@)).imported(listing@, 0, attr),
    {
        if self.folders.len() == 0 {
            let root = FileNode {
                node: folder::Node {
                    shortname: [0x52u8, 0x4fu8, 0x4fu8, 0x54u8],
                    nameoff: 0,
                    hash: 0,
                    filecount: 0,
                    firstfileoff: 0,
                },
                isroot: true,
                name: RARC::root_name_of(name),
                dir: None,
            };
            self.folders.push(root);
            assert(self@.folders =~= old(self)@.with_root(root_name(name@)).folders);
            assert(self@.dirs =~= old(self)@.dirs);
        }
        self.importnote(listing, 0, attr);
    }

    /// Imports the tree at the path `name` where it can be imported, and
    /// tells whether it did. The archive is left as it was where it did
    /// not.
    pub fn try_importfromfolder(&mut self, name: &str, listing: &Vec<FsEntry>, attr: FileAttr) -> (r:
        bool)
        ensures
            r == old(self)@.can_import_tree(listing@),
            r ==> final(self)@ == old(self)@.with_root(root_name(name@)).imported(
                listing@,
                0,
                attr,
            ),
            !r ==> final(self)@ == old(self)@,
    {
        if !self.can_import_from(listing) {
            return false;
        }
        self.importfromfolder(name, listing, attr);
        true
    }
}

} // verus!
