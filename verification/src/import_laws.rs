//! What holds of an import: it only appends, it closes the child range of
//! every folder it deals with by the two pseudo-entries, it keeps these
//! ranges apart, it numbers the files in table order, and a folder without
//! sub-folders directly below the root leads back to the root.
//!
//! A folder with sub-folders does not: the pair at the end of its child
//! range is the one appended for its first sub-folder, so that `.` refers
//! to the sub-folder.

use crate::archive::ArchiveView;
use crate::attr::{FileAttr, FOLDER};
use crate::error::RarcError;
use crate::import::{
    children_fit, entries_added, file_attr, file_count, files_added, folders_added,
    lemma_count_step, lemma_no_subdirs, lemma_prefix_counts, listed_count, listing_fits,
    pseudo_entry, sub_entries, sub_files, sub_folders, subdir_count, FsEntry,
};
use crate::node::DirNodeView;
use crate::resolve::lemma_folder_path_is_chain;
use vstd::prelude::*;

verus! {

/// A listing in which no child counts leaves the first pass without
/// effect.
proof fn lemma_nothing_listed(a: ArchiveView, kids: Seq<FsEntry>, p: usize, attr: FileAttr)
    requires
        listed_count(kids) == 0,
    ensures
        a.with_children(kids, p, attr) == a,
        subdir_count(kids) == 0,
    decreases kids.len(),
{
    if kids.len() > 0 {
        lemma_nothing_listed(a, kids.drop_last(), p, attr);
    }
}

/// A folder without a child that counts still gets the two pseudo-entries,
/// and nothing else: its child range has two entries, `.` and `..`, at the
/// end of the entry table.
pub proof fn lemma_empty_folder_gets_pair(
    a: ArchiveView,
    kids: Seq<FsEntry>,
    p: usize,
    attr: FileAttr,
)
    requires
        p < a.folders.len(),
        listed_count(kids) == 0,
    ensures
        a.imported(kids, p, attr).dirs == a.dirs.push(pseudo_entry("."@, Some(p), p)).push(
            pseudo_entry(".."@, a.folder_above(p), p),
        ),
        a.imported(kids, p, attr).folders.len() == a.folders.len(),
        a.imported(kids, p, attr).folders[p as int].node.filecount == 2,
        a.imported(kids, p, attr).folders[p as int].node.firstfileoff == a.dirs.len() as u32,
{
    let started = a.with_range_start(p, a.dirs.len() as u32);
    lemma_nothing_listed(started, kids, p, attr);
    let counted = started.with_range_count(p, 2);
    assert(counted.folder_above(p) == a.folder_above(p));
}

impl ArchiveView {
    /// Whether `after` holds every entry of `self` unchanged at the start
    /// of its entry table, every folder of `self` below `bound` unchanged
    /// in its folder table, and the same headers and numbering switch.
    pub open spec fn kept_in(self, after: ArchiveView, bound: int) -> bool {
        &&& self.dirs.len() <= after.dirs.len()
        &&& self.folders.len() <= after.folders.len()
        &&& forall|j: int| 0 <= j < self.dirs.len() ==> #[trigger] after.dirs[j] == self.dirs[j]
        &&& forall|f: int|
            0 <= f < self.folders.len() && f < bound ==> #[trigger] after.folders[f]
                == self.folders[f]
        &&& after.sync == self.sync
        &&& after.header == self.header
        &&& after.dataheader == self.dataheader
        &&& after.data == self.data
        &&& after.endian == self.endian
    }

    /// Whether no folder of `after` behind the folders of `self` is a root.
    pub open spec fn no_new_root(self, after: ArchiveView) -> bool {
        forall|f: int|
            self.folders.len() <= f < after.folders.len() ==> !(#[trigger] after.folders[f]).isroot
    }

    /// The first pass only appends, as many entries as children count and
    /// as many folders as sub-directories count.
    proof fn lemma_children_append(self, kids: Seq<FsEntry>, p: usize, attr: FileAttr)
        ensures
            self.no_new_root(self.with_children(kids, p, attr)),
            self.kept_in(self.with_children(kids, p, attr), self.folders.len() as int),
            self.with_children(kids, p, attr).dirs.len() == self.dirs.len() + listed_count(kids),
            self.with_children(kids, p, attr).folders.len() == self.folders.len() + subdir_count(
                kids,
            ),
        decreases kids.len(),
    {
        if kids.len() > 0 {
            self.lemma_children_append(kids.drop_last(), p, attr);
        }
    }

    /// The second pass only appends, and changes no folder below `base`.
    proof fn lemma_subdirs_append(
        self,
        kids: Seq<FsEntry>,
        n: int,
        p: usize,
        base: nat,
        attr: FileAttr,
    )
        requires
            0 <= n <= kids.len(),
            base + subdir_count(kids) <= self.folders.len(),
            self.folders.len() + sub_folders(kids) <= usize::MAX,
        ensures
            self.no_new_root(self.with_subdirs(kids, n, p, base, attr)),
            forall|f: int|
                0 <= f < self.folders.len() ==> (#[trigger] self.with_subdirs(
                    kids,
                    n,
                    p,
                    base,
                    attr,
                ).folders[f]).isroot == self.folders[f].isroot,
            self.kept_in(self.with_subdirs(kids, n, p, base, attr), base as int),
            self.with_subdirs(kids, n, p, base, attr).dirs.len() == self.dirs.len() + sub_entries(
                kids.take(n),
            ),
            self.with_subdirs(kids, n, p, base, attr).folders.len() == self.folders.len()
                + sub_folders(kids.take(n)),
            forall|f: int|
                base + subdir_count(kids.take(n)) <= f < self.folders.len() ==> (
                #[trigger] self.with_subdirs(kids, n, p, base, attr).folders[f]) == self.folders[f],
        decreases kids, 0nat, n,
    {
        if n > 0 {
            self.lemma_subdirs_append(kids, n - 1, p, base, attr);
            lemma_count_step(kids, n - 1);
            lemma_prefix_counts(kids, n);
            let before = self.with_subdirs(kids, n - 1, p, base, attr);
            if kids[n - 1].listed() {
                match kids[n - 1] {
                    FsEntry::Dir { children, .. } => {
                        let s = (base + subdir_count(kids.take(n - 1))) as usize;
                        let paired = before.with_pair_for(s, p);
                        let after = paired.imported(children@, s, attr);
                        paired.lemma_import_appends(children@, s, attr);
                        assert(self.kept_in(after, base as int)) by {
                            assert forall|j: int| 0 <= j < self.dirs.len() implies #[trigger] after.dirs[j]
                                == self.dirs[j] by {
                                assert(paired.dirs[j] == before.dirs[j]);
                            }
                            assert forall|f: int|
                                0 <= f < self.folders.len() && f < base implies #[trigger] after.folders[f]
                                == self.folders[f] by {
                                assert(paired.folders[f] == before.folders[f]);
                            }
                        }
                        assert forall|f: int|
                            base + subdir_count(kids.take(n)) <= f
                                < self.folders.len() implies #[trigger] after.folders[f]
                            == self.folders[f] by {
                            assert(paired.folders[f] == before.folders[f]);
                        }
                        assert forall|f: int|
                            self.folders.len() <= f < after.folders.len() implies !(
                        #[trigger] after.folders[f]).isroot by {
                            if f < paired.folders.len() {
                                assert(!before.folders[f].isroot);
                                assert(paired.folders[f] == before.folders[f]);
                            }
                        }
                        assert forall|f: int| 0 <= f < self.folders.len() implies (
                        #[trigger] after.folders[f]).isroot == self.folders[f].isroot by {
                            assert(before.folders[f].isroot == self.folders[f].isroot);
                            assert(paired.folders[f] == before.folders[f]);
                        }
                    },
                    FsEntry::File { .. } => {},
                }
            }
        } else {
            assert(kids.take(0) =~= Seq::<FsEntry>::empty());
        }
    }

    /// Importing only appends: the entries that were there stay as they
    /// were, and so do the folders that were there, but for the child range
    /// of the folder imported into, which starts where the entry table
    /// ended and holds the children that count and two more. The folder
    /// table is one that fits in memory.
    pub proof fn lemma_import_appends(self, kids: Seq<FsEntry>, p: usize, attr: FileAttr)
        requires
            p < self.folders.len(),
            self.folders.len() + folders_added(kids) <= usize::MAX,
        ensures
            self.with_range_start(p, self.dirs.len() as u32).with_range_count(
                p,
                (listed_count(kids) + 2) as u16,
            ).kept_in(self.imported(kids, p, attr), self.folders.len() as int),
            self.kept_in(self.imported(kids, p, attr), p as int),
            self.no_new_root(self.imported(kids, p, attr)),
            self.imported(kids, p, attr).dirs.len() == self.dirs.len() + entries_added(kids),
            self.imported(kids, p, attr).folders.len() == self.folders.len() + folders_added(kids),
        decreases kids, 1nat, 0int,
    {
        let started = self.with_range_start(p, self.dirs.len() as u32);
        let filled = started.with_children(kids, p, attr);
        let listed = filled.with_range_count(p, (listed_count(kids) + 2) as u16);
        let target = started.with_range_count(p, (listed_count(kids) + 2) as u16);
        started.lemma_children_append(kids, p, attr);
        assert(target.kept_in(listed, self.folders.len() as int)) by {
            assert forall|f: int| 0 <= f < target.folders.len() implies #[trigger] listed.folders[f]
                == target.folders[f] by {
                assert(filled.folders[f] == started.folders[f]);
            }
        }
        assert forall|f: int| self.folders.len() <= f < listed.folders.len() implies !(
        #[trigger] listed.folders[f]).isroot by {
            assert(!filled.folders[f].isroot);
        }
        if subdir_count(kids) == 0 {
            lemma_no_subdirs(kids);
        } else {
            listed.lemma_subdirs_append(kids, kids.len() as int, p, self.folders.len(), attr);
            assert(kids.take(kids.len() as int) =~= kids);
        }
    }

    /// An archive built from a tree alone has one root, its first folder.
    /// The tree is one that can be imported.
    pub proof fn lemma_built_has_one_root(
        self,
        name: Seq<char>,
        kids: Seq<FsEntry>,
        attr: FileAttr,
    )
        requires
            self.folders.len() == 0,
            self.can_import_tree(kids),
        ensures
            forall|f: int|
                0 <= f < self.with_root(name).imported(kids, 0, attr).folders.len() ==> ((
                #[trigger] self.with_root(name).imported(kids, 0, attr).folders[f]).isroot <==> f
                    == 0),
    {
        let rooted = self.with_root(name);
        rooted.lemma_import_appends(kids, 0, attr);
    }
}

/// Whether the entry is a pseudo-entry with the given name: a folder entry
/// and nothing else.
pub open spec fn is_pseudo(e: DirNodeView, name: Seq<char>) -> bool {
    e.name == name && e.attr.bits == FOLDER
}

impl ArchiveView {
    /// Before the second pass meets a sub-directory it changes nothing.
    proof fn lemma_subdirs_none(self, kids: Seq<FsEntry>, n: int, p: usize, base: nat, attr: FileAttr)
        requires
            0 <= n <= kids.len(),
            subdir_count(kids.take(n)) == 0,
        ensures
            self.with_subdirs(kids, n, p, base, attr) == self,
        decreases n,
    {
        if n > 0 {
            lemma_count_step(kids, n - 1);
            self.lemma_subdirs_none(kids, n - 1, p, base, attr);
        }
    }

    /// Once the second pass has met a sub-directory, the two entries that
    /// follow the entries that were there are `.` and `..`.
    proof fn lemma_subdirs_pair(self, kids: Seq<FsEntry>, n: int, p: usize, base: nat, attr: FileAttr)
        requires
            0 <= n <= kids.len(),
            subdir_count(kids.take(n)) > 0,
            base + subdir_count(kids) <= self.folders.len(),
            self.folders.len() + sub_folders(kids) <= usize::MAX,
        ensures
            self.dirs.len() + 2 <= self.with_subdirs(kids, n, p, base, attr).dirs.len(),
            is_pseudo(self.with_subdirs(kids, n, p, base, attr).dirs[self.dirs.len() as int], "."@),
            is_pseudo(
                self.with_subdirs(kids, n, p, base, attr).dirs[self.dirs.len() as int + 1],
                ".."@,
            ),
        decreases n,
    {
        if n > 0 {
            lemma_count_step(kids, n - 1);
            lemma_prefix_counts(kids, n);
            lemma_prefix_counts(kids, n - 1);
            let before = self.with_subdirs(kids, n - 1, p, base, attr);
            let after = self.with_subdirs(kids, n, p, base, attr);
            self.lemma_subdirs_append(kids, n - 1, p, base, attr);
            if subdir_count(kids.take(n - 1)) > 0 {
                self.lemma_subdirs_pair(kids, n - 1, p, base, attr);
            } else {
                self.lemma_subdirs_none(kids, n - 1, p, base, attr);
            }
            if kids[n - 1].listed() {
                match kids[n - 1] {
                    FsEntry::Dir { children, .. } => {
                        let s = (base + subdir_count(kids.take(n - 1))) as usize;
                        let paired = before.with_pair_for(s, p);
                        paired.lemma_import_appends(children@, s, attr);
                        assert(after.dirs[self.dirs.len() as int] == paired.dirs[self.dirs.len() as int]);
                        assert(after.dirs[self.dirs.len() as int + 1] == paired.dirs[self.dirs.len() as int + 1]);
                    },
                    FsEntry::File { .. } => {},
                }
            }
        }
    }

    /// After an import, the child range of the folder imported into lies
    /// within the entry table and ends with `.` and `..`, in that order.
    /// Where the listing has no sub-directory, `.` refers to the folder
    /// itself. The tables are such that fit in memory and in the fields of
    /// the folder.
    pub proof fn lemma_import_closes_range(self, kids: Seq<FsEntry>, p: usize, attr: FileAttr)
        requires
            p < self.folders.len(),
            self.folders.len() + folders_added(kids) <= usize::MAX,
            self.dirs.len() <= u32::MAX,
            listed_count(kids) + 2 <= u16::MAX,
        ensures
            ({
                let after = self.imported(kids, p, attr);
                let node = after.folders[p as int];
                &&& node.node.firstfileoff == self.dirs.len()
                &&& node.node.filecount == listed_count(kids) + 2
                &&& node.range_end() <= after.dirs.len()
                &&& is_pseudo(after.dirs[node.range_end() - 2], "."@)
                &&& is_pseudo(after.dirs[node.range_end() - 1], ".."@)
                &&& subdir_count(kids) == 0 ==> after.dirs[node.range_end() - 2] == pseudo_entry(
                    "."@,
                    Some(p),
                    p,
                )
            }),
    {
        let started = self.with_range_start(p, self.dirs.len() as u32);
        let filled = started.with_children(kids, p, attr);
        let listed = filled.with_range_count(p, (listed_count(kids) + 2) as u16);
        self.lemma_import_appends(kids, p, attr);
        started.lemma_children_append(kids, p, attr);
        if subdir_count(kids) > 0 {
            assert(kids.take(kids.len() as int) =~= kids);
            listed.lemma_subdirs_pair(kids, kids.len() as int, p, self.folders.len(), attr);
            listed.lemma_subdirs_append(kids, kids.len() as int, p, self.folders.len(), attr);
        }
    }
}

impl ArchiveView {
    /// Whether the files among the entries from `from` on are numbered in
    /// table order: each has an index from `low` up to the running index,
    /// and a later file has a higher index than an earlier one.
    pub open spec fn numbered(self, from: int, low: int) -> bool {
        &&& forall|i: int|
            from <= i < self.dirs.len() && (#[trigger] self.dirs[i]).attr.file() ==> low
                <= self.dirs[i].node.nodeidx < self.nextidx
        &&& forall|i: int, j: int|
            from <= i < j < self.dirs.len() && (#[trigger] self.dirs[i]).attr.file() && (
            #[trigger] self.dirs[j]).attr.file() ==> self.dirs[i].node.nodeidx
                < self.dirs[j].node.nodeidx
    }

    /// A pseudo-entry or folder entry at the end keeps the numbering.
    proof fn lemma_folder_entry_numbered(self, e: DirNodeView, from: int, low: int)
        requires
            0 <= from,
            self.numbered(from, low),
            e.attr.bits == FOLDER,
        ensures
            self.push_entry(e).numbered(from, low),
    {
        assert(2u8 & 1u8 != 1u8) by (bit_vector);
        assert(!e.attr.file());
        let after = self.push_entry(e);
        assert forall|i: int| 0 <= i < self.dirs.len() implies after.dirs[i] == self.dirs[i] by {}
    }

    /// The first pass numbers the files it appends.
    proof fn lemma_children_numbered(
        self,
        kids: Seq<FsEntry>,
        p: usize,
        attr: FileAttr,
        from: int,
        low: int,
    )
        requires
            self.sync,
            self.nextidx + file_count(kids) <= u16::MAX,
            self.numbered(from, low),
            0 <= from <= self.dirs.len(),
            low <= self.nextidx,
        ensures
            self.with_children(kids, p, attr).sync,
            self.with_children(kids, p, attr).nextidx == self.nextidx + file_count(kids),
            self.with_children(kids, p, attr).numbered(from, low),
        decreases kids.len(),
    {
        if kids.len() > 0 {
            self.lemma_children_numbered(kids.drop_last(), p, attr, from, low);
            self.lemma_children_append(kids.drop_last(), p, attr);
            let mid = self.with_children(kids.drop_last(), p, attr);
            let kid = kids.last();
            if kid.listed() {
                match kid {
                    FsEntry::Dir { name, .. } => {
                        mid.lemma_folder_entry_numbered(mid.folder_entry(name@, p), from, low);
                        let after = mid.created_folder(name@, p);
                        assert(after.dirs == mid.push_entry(mid.folder_entry(name@, p)).dirs);
                        assert(after.numbered(from, low));
                    },
                    FsEntry::File { name, data } => {
                        let after = mid.created_file(name@, file_attr(attr)).with_payload(data@);
                        assert forall|i: int| from <= i < mid.dirs.len() implies after.dirs[i]
                            == mid.dirs[i] by {}
                        assert(after.dirs[mid.dirs.len() as int].node.nodeidx == mid.nextidx);
                        assert(after.numbered(from, low));
                    },
                }
            }
        }
    }

    /// The second pass numbers the files it appends.
    proof fn lemma_subdirs_numbered(
        self,
        kids: Seq<FsEntry>,
        n: int,
        p: usize,
        base: nat,
        attr: FileAttr,
        from: int,
        low: int,
    )
        requires
            0 <= n <= kids.len(),
            base + subdir_count(kids) <= self.folders.len(),
            self.folders.len() + sub_folders(kids) <= usize::MAX,
            self.sync,
            self.nextidx + sub_files(kids) <= u16::MAX,
            self.numbered(from, low),
            0 <= from <= self.dirs.len(),
            low <= self.nextidx,
        ensures
            self.with_subdirs(kids, n, p, base, attr).sync,
            self.with_subdirs(kids, n, p, base, attr).nextidx == self.nextidx + sub_files(
                kids.take(n),
            ),
            self.with_subdirs(kids, n, p, base, attr).numbered(from, low),
        decreases kids, 0nat, n,
    {
        if n > 0 {
            self.lemma_subdirs_numbered(kids, n - 1, p, base, attr, from, low);
            self.lemma_subdirs_append(kids, n - 1, p, base, attr);
            lemma_count_step(kids, n - 1);
            lemma_prefix_counts(kids, n);
            let before = self.with_subdirs(kids, n - 1, p, base, attr);
            if kids[n - 1].listed() {
                match kids[n - 1] {
                    FsEntry::Dir { children, .. } => {
                        let s = (base + subdir_count(kids.take(n - 1))) as usize;
                        let up: Option<usize> = if p == 0 {
                            None
                        } else {
                            Some(p)
                        };
                        let dot = pseudo_entry("."@, Some(s), s);
                        let dotdot = pseudo_entry(".."@, up, p);
                        before.lemma_folder_entry_numbered(dot, from, low);
                        before.push_entry(dot).lemma_folder_entry_numbered(dotdot, from, low);
                        let paired = before.with_pair_for(s, p);
                        paired.lemma_import_numbered(children@, s, attr, from, low);
                    },
                    FsEntry::File { .. } => {},
                }
            }
        } else {
            assert(kids.take(0) =~= Seq::<FsEntry>::empty());
        }
    }

    /// An import numbers the files it appends.
    proof fn lemma_import_numbered(
        self,
        kids: Seq<FsEntry>,
        p: usize,
        attr: FileAttr,
        from: int,
        low: int,
    )
        requires
            p < self.folders.len(),
            self.folders.len() + folders_added(kids) <= usize::MAX,
            self.sync,
            self.nextidx + files_added(kids) <= u16::MAX,
            self.numbered(from, low),
            0 <= from <= self.dirs.len(),
            low <= self.nextidx,
        ensures
            self.imported(kids, p, attr).sync,
            self.imported(kids, p, attr).nextidx == self.nextidx + files_added(kids),
            self.imported(kids, p, attr).numbered(from, low),
        decreases kids, 1nat, 0int,
    {
        let started = self.with_range_start(p, self.dirs.len() as u32);
        let filled = started.with_children(kids, p, attr);
        let listed = filled.with_range_count(p, (listed_count(kids) + 2) as u16);
        assert(started.numbered(from, low));
        started.lemma_children_numbered(kids, p, attr, from, low);
        started.lemma_children_append(kids, p, attr);
        assert(listed.numbered(from, low));
        if subdir_count(kids) == 0 {
            lemma_no_subdirs(kids);
            let dot = pseudo_entry("."@, Some(p), p);
            let dotdot = pseudo_entry(".."@, listed.folder_above(p), p);
            listed.lemma_folder_entry_numbered(dot, from, low);
            listed.push_entry(dot).lemma_folder_entry_numbered(dotdot, from, low);
        } else {
            listed.lemma_subdirs_numbered(
                kids,
                kids.len() as int,
                p,
                self.folders.len(),
                attr,
                from,
                low,
            );
            assert(kids.take(kids.len() as int) =~= kids);
        }
    }

    /// In an archive that numbers its entries, the files that an import
    /// appends are numbered in table order from the running index on, and
    /// the running index moves past them. The running index does not run
    /// over, and the folder table is one that fits in memory.
    pub proof fn lemma_import_numbers(self, kids: Seq<FsEntry>, p: usize, attr: FileAttr)
        requires
            p < self.folders.len(),
            self.folders.len() + folders_added(kids) <= usize::MAX,
            self.sync,
            self.nextidx + files_added(kids) <= u16::MAX,
        ensures
            self.imported(kids, p, attr).nextidx == self.nextidx + files_added(kids),
            self.imported(kids, p, attr).numbered(self.dirs.len() as int, self.nextidx as int),
    {
        self.lemma_import_numbered(kids, p, attr, self.dirs.len() as int, self.nextidx as int);
    }
}

impl ArchiveView {
    /// The folder that the first pass appends for the sub-directory at `i`
    /// is no root and is linked to the entry appended with it, which is
    /// owned by `p`.
    proof fn lemma_children_link(self, kids: Seq<FsEntry>, p: usize, attr: FileAttr, i: int)
        requires
            0 <= i < kids.len(),
            kids[i].listed_dir(),
            self.folders.len() + subdir_count(kids) <= usize::MAX,
            self.dirs.len() + listed_count(kids) <= usize::MAX,
        ensures
            ({
                let after = self.with_children(kids, p, attr);
                let f = (self.folders.len() + subdir_count(kids.take(i))) as int;
                let e = (self.dirs.len() + listed_count(kids.take(i))) as int;
                &&& f < after.folders.len()
                &&& e < after.dirs.len()
                &&& !after.folders[f].isroot
                &&& after.folders[f].dir == Some(e as usize)
                &&& after.dirs[e].parent == Some(p)
            }),
        decreases kids.len(),
    {
        let front = kids.drop_last();
        let mid = self.with_children(front, p, attr);
        self.lemma_children_append(front, p, attr);
        self.lemma_children_append(kids, p, attr);
        lemma_prefix_counts(kids, i);
        lemma_prefix_counts(kids, i + 1);
        lemma_count_step(kids, i);
        if i == kids.len() - 1 {
            assert(kids.take(i) =~= front);
        } else {
            assert(front.take(i) =~= kids.take(i));
            assert(front[i] == kids[i]);
            self.lemma_children_link(front, p, attr, i);
        }
    }

    /// What the second pass has done after `m` children stays as it is
    /// while it goes on to `n`: the entries, and the folders below the one
    /// of the next sub-directory.
    proof fn lemma_subdirs_later(
        self,
        kids: Seq<FsEntry>,
        m: int,
        n: int,
        p: usize,
        base: nat,
        attr: FileAttr,
    )
        requires
            0 <= m <= n <= kids.len(),
            base + subdir_count(kids) <= self.folders.len(),
            self.folders.len() + sub_folders(kids) <= usize::MAX,
        ensures
            self.with_subdirs(kids, m, p, base, attr).kept_in(
                self.with_subdirs(kids, n, p, base, attr),
                (base + subdir_count(kids.take(m))) as int,
            ),
        decreases n - m,
    {
        if m < n {
            self.lemma_subdirs_later(kids, m, n - 1, p, base, attr);
            self.lemma_subdirs_append(kids, n - 1, p, base, attr);
            self.lemma_subdirs_append(kids, m, p, base, attr);
            lemma_count_step(kids, n - 1);
            lemma_prefix_counts(kids, n);
            lemma_prefix_counts(kids.take(n - 1), m);
            assert(kids.take(n - 1).take(m) =~= kids.take(m));
            let first = self.with_subdirs(kids, m, p, base, attr);
            let before = self.with_subdirs(kids, n - 1, p, base, attr);
            let after = self.with_subdirs(kids, n, p, base, attr);
            if kids[n - 1].listed() {
                match kids[n - 1] {
                    FsEntry::Dir { children, .. } => {
                        let s = (base + subdir_count(kids.take(n - 1))) as usize;
                        let paired = before.with_pair_for(s, p);
                        paired.lemma_import_appends(children@, s, attr);
                        assert forall|j: int| 0 <= j < first.dirs.len() implies #[trigger] after.dirs[j]
                            == first.dirs[j] by {
                            assert(paired.dirs[j] == before.dirs[j]);
                        }
                        assert forall|f: int|
                            0 <= f < first.folders.len() && f < base + subdir_count(
                                kids.take(m),
                            ) implies #[trigger] after.folders[f] == first.folders[f] by {
                            assert(paired.folders[f] == before.folders[f]);
                        }
                    },
                    FsEntry::File { .. } => {},
                }
            }
        }
    }

    /// After a tree has been imported into a root folder, a sub-directory
    /// of the tree that has no sub-directories of its own resolves to the
    /// path from the root to it.
    pub proof fn lemma_leaf_below_root(self, kids: Seq<FsEntry>, attr: FileAttr, i: int)
        requires
            self.can_import(kids, 0),
            self.folders[0].isroot,
            0 <= i < kids.len(),
            (kids[i] matches FsEntry::Dir { children, .. } && kids[i].listed() && subdir_count(
                children@,
            ) == 0),
        ensures
            ({
                let after = self.imported(kids, 0, attr);
                let s = (self.folders.len() + subdir_count(kids.take(i))) as usize;
                &&& s < after.folders.len()
                &&& after.root_path(after.folders[s as int].children()) == Ok::<
                    Seq<usize>,
                    RarcError,
                >(seq![0usize, s])
                &&& after.planned(s as int) matches Ok(plan) && plan.path == seq![0usize, s]
            }),
    {
        let children = kids[i]->Dir_children@;
        let base = self.folders.len();
        let started = self.with_range_start(0, self.dirs.len() as u32);
        let filled = started.with_children(kids, 0, attr);
        let listed = filled.with_range_count(0, (listed_count(kids) + 2) as u16);
        let after = self.imported(kids, 0, attr);
        let s = (base + subdir_count(kids.take(i))) as usize;
        let e = (started.dirs.len() + listed_count(kids.take(i))) as int;
        lemma_count_step(kids, i);
        lemma_prefix_counts(kids, i);
        lemma_prefix_counts(kids, i + 1);
        lemma_no_subdirs(children);
        started.lemma_children_append(kids, 0, attr);
        started.lemma_children_link(kids, 0, attr, i);
        self.lemma_import_appends(kids, 0, attr);
        assert(kids.take(kids.len() as int) =~= kids);
        // The state before the second pass meets the sub-directory.
        let before = listed.with_subdirs(kids, i, 0, base, attr);
        listed.lemma_subdirs_append(kids, i, 0, base, attr);
        assert(before.folders[s as int] == listed.folders[s as int]);
        assert(before.dirs[e] == listed.dirs[e]);
        // The import of the sub-directory itself.
        let paired = before.with_pair_for(s, 0);
        let inner_start = paired.with_range_start(s, paired.dirs.len() as u32);
        let inner_filled = inner_start.with_children(children, s, attr);
        let inner_listed = inner_filled.with_range_count(s, (listed_count(children) + 2) as u16);
        let done = paired.imported(children, s, attr);
        assert(done == listed.with_subdirs(kids, i + 1, 0, base, attr));
        inner_start.lemma_children_append(children, s, attr);
        assert(inner_filled.folders[s as int] == inner_start.folders[s as int]);
        assert(inner_filled.dirs[e] == inner_start.dirs[e]);
        assert(inner_listed.folder_above(s) == Some(0usize));
        assert(done == inner_listed.with_own_pair(s));
        let end = done.dirs.len() as int;
        assert(done.folders[s as int].range_end() == end);
        assert(done.dirs[end - 2].folder == Some(s));
        assert(done.dirs[end - 1].folder == Some(0usize));
        // What follows keeps the folder and its entries.
        listed.lemma_subdirs_later(kids, i + 1, kids.len() as int, 0, base, attr);
        assert(after.folders[s as int] == done.folders[s as int]);
        assert(after.dirs[end - 2] == done.dirs[end - 2]);
        assert(after.dirs[end - 1] == done.dirs[end - 1]);
        let chain = seq![0usize, s];
        assert(after.hangs_below(chain[1], chain[0]));
        assert(after.is_chain(chain));
        lemma_folder_path_is_chain(after, s as int, chain);
    }

    /// After a listing without sub-directories has been imported into a
    /// root folder, the root resolves to itself.
    pub proof fn lemma_leaf_root(self, kids: Seq<FsEntry>, attr: FileAttr)
        requires
            self.can_import(kids, 0),
            self.folders[0].isroot,
            subdir_count(kids) == 0,
        ensures
            ({
                let after = self.imported(kids, 0, attr);
                &&& after.root_path(after.folders[0].children()) == Ok::<
                    Seq<usize>,
                    RarcError,
                >(seq![0usize])
                &&& after.planned(0) matches Ok(plan) && plan.path == seq![0usize]
            }),
    {
        let after = self.imported(kids, 0, attr);
        self.lemma_import_appends(kids, 0, attr);
        self.lemma_import_closes_range(kids, 0, attr);
        lemma_no_subdirs(kids);
        let chain = seq![0usize];
        assert(after.is_chain(chain));
        lemma_folder_path_is_chain(after, 0, chain);
    }
}

impl ArchiveView {
    /// Whether every parent link names a folder that the table holds.
    pub open spec fn parents_in_bounds(self) -> bool {
        forall|j: int|
            0 <= j < self.dirs.len() ==> ((#[trigger] self.dirs[j]).parent matches Some(u) ==> u
                < self.folders.len())
    }

    /// Whether every reference is in bounds, but that the child range of
    /// folder `p` may reach `slack` entries past the entry table.
    spec fn sound_but(self, p: int, slack: int) -> bool {
        &&& forall|j: int|
            0 <= j < self.dirs.len() && (#[trigger] self.dirs[j]).names_folder()
                ==> self.dirs[j].node.data < self.folders.len()
        &&& self.parents_in_bounds()
        &&& forall|f: int|
            0 <= f < self.folders.len() && f != p ==> (#[trigger] self.folders[f]).range_end()
                <= self.dirs.len()
        &&& 0 <= p < self.folders.len() ==> self.folders[p].range_end() <= self.dirs.len() + slack
    }

    /// Whether every reference is in bounds, the parent links too.
    pub open spec fn sound(self) -> bool {
        self.refs_in_bounds() && self.parents_in_bounds()
    }

    /// The first pass keeps every reference in bounds, whatever the child
    /// range of the folder it works on.
    proof fn lemma_children_sound(
        self,
        kids: Seq<FsEntry>,
        p: usize,
        attr: FileAttr,
        slack: int,
    )
        requires
            p < self.folders.len(),
            self.folders.len() + subdir_count(kids) <= u32::MAX,
            self.sound_but(p as int, slack),
        ensures
            self.with_children(kids, p, attr).sound_but(p as int, slack),
        decreases kids.len(),
    {
        if kids.len() > 0 {
            let front = kids.drop_last();
            let mid = self.with_children(front, p, attr);
            self.lemma_children_sound(front, p, attr, slack);
            self.lemma_children_append(front, p, attr);
            let kid = kids.last();
            if kid.listed() {
                let after = mid.with_child(kid, p, attr);
                assert forall|j: int| 0 <= j < mid.dirs.len() implies after.dirs[j]
                    == mid.dirs[j] by {}
                assert forall|f: int| 0 <= f < mid.folders.len() implies after.folders[f]
                    == mid.folders[f] by {}
                assert(after.sound_but(p as int, slack));
            }
        }
    }

    /// The second pass brings every reference in bounds once it has met a
    /// sub-directory, where before it only the child range of folder `p`
    /// reached past the entry table, by the two entries of the pair.
    proof fn lemma_subdirs_sound(
        self,
        kids: Seq<FsEntry>,
        n: int,
        p: usize,
        base: nat,
        attr: FileAttr,
    )
        requires
            0 <= n <= kids.len(),
            p < base,
            base + subdir_count(kids) <= self.folders.len(),
            self.folders.len() + sub_folders(kids) <= u32::MAX,
            self.dirs.len() + sub_entries(kids) <= u32::MAX,
            children_fit(kids),
            self.sound_but(p as int, 2),
        ensures
            subdir_count(kids.take(n)) > 0 ==> self.with_subdirs(kids, n, p, base, attr).sound(),
        decreases kids, 0nat, n,
    {
        if n > 0 {
            self.lemma_subdirs_sound(kids, n - 1, p, base, attr);
            self.lemma_subdirs_append(kids, n - 1, p, base, attr);
            lemma_count_step(kids, n - 1);
            lemma_prefix_counts(kids, n);
            lemma_prefix_counts(kids, n - 1);
            let before = self.with_subdirs(kids, n - 1, p, base, attr);
            if subdir_count(kids.take(n - 1)) == 0 {
                self.lemma_subdirs_none(kids, n - 1, p, base, attr);
            }
            if kids[n - 1].listed() {
                match kids[n - 1] {
                    FsEntry::Dir { children, .. } => {
                        let s = (base + subdir_count(kids.take(n - 1))) as usize;
                        let paired = before.with_pair_for(s, p);
                        assert forall|j: int| 0 <= j < before.dirs.len() implies paired.dirs[j]
                            == before.dirs[j] by {}
                        assert(paired.sound_but(p as int, 0));
                        assert(paired.sound());
                        paired.lemma_import_sound(children@, s, attr);
                    },
                    FsEntry::File { .. } => {},
                }
            }
        }
    }

    /// An import keeps every reference in bounds.
    proof fn lemma_import_sound(self, kids: Seq<FsEntry>, p: usize, attr: FileAttr)
        requires
            p < self.folders.len(),
            self.folders.len() + folders_added(kids) <= u32::MAX,
            self.dirs.len() + entries_added(kids) <= u32::MAX,
            listing_fits(kids),
            self.sound(),
        ensures
            self.imported(kids, p, attr).sound(),
        decreases kids, 1nat, 0int,
    {
        let started = self.with_range_start(p, self.dirs.len() as u32);
        let filled = started.with_children(kids, p, attr);
        let listed = filled.with_range_count(p, (listed_count(kids) + 2) as u16);
        let slack = started.folders[p as int].range_end() - started.dirs.len();
        assert(started.sound_but(p as int, slack));
        started.lemma_children_sound(kids, p, attr, slack);
        started.lemma_children_append(kids, p, attr);
        assert(listed.sound_but(p as int, 2)) by {
            assert forall|f: int| 0 <= f < listed.folders.len() && f != p implies (
            #[trigger] listed.folders[f]).range_end() <= listed.dirs.len() by {
                assert(filled.folders[f].range_end() <= filled.dirs.len());
            }
        }
        if subdir_count(kids) == 0 {
            lemma_no_subdirs(kids);
            let after = listed.with_own_pair(p);
            assert forall|j: int| 0 <= j < listed.dirs.len() implies after.dirs[j]
                == listed.dirs[j] by {}
            assert(after.sound());
        } else {
            assert(kids.take(kids.len() as int) =~= kids);
            listed.lemma_subdirs_sound(kids, kids.len() as int, p, self.folders.len(), attr);
        }
    }

    /// Where every reference of an archive is in bounds, the parent links
    /// too, it is so after an import.
    pub proof fn lemma_import_keeps_bounds(self, kids: Seq<FsEntry>, p: usize, attr: FileAttr)
        requires
            self.can_import(kids, p),
            self.sound(),
        ensures
            self.imported(kids, p, attr).sound(),
            self.imported(kids, p, attr).refs_in_bounds(),
    {
        self.lemma_import_sound(kids, p, attr);
    }

    /// In an archive built from a tree alone every reference is in bounds,
    /// so that it can be linked. The tree is one that can be imported.
    pub proof fn lemma_built_is_sound(self, name: Seq<char>, kids: Seq<FsEntry>, attr: FileAttr)
        requires
            self.folders.len() == 0,
            self.dirs.len() == 0,
            self.can_import_tree(kids),
        ensures
            self.with_root(name).imported(kids, 0, attr).refs_in_bounds(),
    {
        let rooted = self.with_root(name);
        assert(rooted.folders[0].range_end() == 0);
        assert(rooted.sound());
        rooted.lemma_import_sound(kids, 0, attr);
    }
}

impl ArchiveView {
    /// Whether the child range of folder `f` lies within the entry table
    /// and ends with `.` and `..`, in that order.
    pub open spec fn closed(self, f: int) -> bool {
        &&& self.folders[f].node.filecount >= 2
        &&& self.folders[f].range_end() <= self.dirs.len()
        &&& is_pseudo(self.dirs[self.folders[f].range_end() - 2], "."@)
        &&& is_pseudo(self.dirs[self.folders[f].range_end() - 1], ".."@)
    }

    /// Whether the child ranges of folders `f` and `g` share no entry.
    pub open spec fn apart(self, f: int, g: int) -> bool {
        self.folders[f].range_end() <= self.folders[g].node.firstfileoff
            || self.folders[g].range_end() <= self.folders[f].node.firstfileoff
    }

    /// Whether folder `f` is one that the second pass has dealt with after
    /// `count` sub-directories: the folder of one of these, or a folder
    /// behind those that were there before the pass.
    spec fn dealt_with(self, f: int, base: nat, count: nat, before: nat) -> bool {
        base <= f < base + count || before <= f < self.folders.len()
    }

    /// A folder that later steps leave alone, with the entries below the
    /// end of its range, stays closed.
    proof fn lemma_closed_kept(self, after: ArchiveView, f: int)
        requires
            0 <= f < self.folders.len(),
            self.closed(f),
            self.dirs.len() <= after.dirs.len(),
            f < after.folders.len(),
            after.folders[f] == self.folders[f],
            forall|j: int| 0 <= j < self.dirs.len() ==> #[trigger] after.dirs[j] == self.dirs[j],
        ensures
            after.closed(f),
    {
        let end = self.folders[f].range_end();
        assert(after.dirs[end - 2] == self.dirs[end - 2]);
        assert(after.dirs[end - 1] == self.dirs[end - 1]);
    }

    /// The folders that the second pass has dealt with are closed, start
    /// behind the pair that closes the range of folder `p`, and lie apart.
    proof fn lemma_subdirs_closed(
        self,
        kids: Seq<FsEntry>,
        n: int,
        p: usize,
        base: nat,
        attr: FileAttr,
    )
        requires
            0 <= n <= kids.len(),
            p < base,
            base + subdir_count(kids) == self.folders.len(),
            self.folders.len() + sub_folders(kids) <= u32::MAX,
            self.dirs.len() + sub_entries(kids) <= u32::MAX,
            children_fit(kids),
        ensures
            ({
                let after = self.with_subdirs(kids, n, p, base, attr);
                let count = subdir_count(kids.take(n));
                &&& forall|f: int| #[trigger]
                    after.dealt_with(f, base, count, self.folders.len()) ==> after.closed(f)
                        && after.folders[f].node.firstfileoff >= self.dirs.len() + 2
                &&& forall|f: int, g: int|
                    after.dealt_with(f, base, count, self.folders.len()) && after.dealt_with(
                        g,
                        base,
                        count,
                        self.folders.len(),
                    ) && f != g ==> #[trigger] after.apart(f, g)
            }),
        decreases kids, 0nat, n,
    {
        if n > 0 {
            self.lemma_subdirs_closed(kids, n - 1, p, base, attr);
            self.lemma_subdirs_append(kids, n - 1, p, base, attr);
            self.lemma_subdirs_append(kids, n, p, base, attr);
            lemma_count_step(kids, n - 1);
            lemma_prefix_counts(kids, n);
            lemma_prefix_counts(kids, n - 1);
            let before = self.with_subdirs(kids, n - 1, p, base, attr);
            let after = self.with_subdirs(kids, n, p, base, attr);
            let earlier = subdir_count(kids.take(n - 1));
            let count = subdir_count(kids.take(n));
            let start = self.folders.len();
            if kids[n - 1].listed() {
                match kids[n - 1] {
                    FsEntry::Dir { children, .. } => {
                        let s = (base + earlier) as usize;
                        let paired = before.with_pair_for(s, p);
                        paired.lemma_import_appends(children@, s, attr);
                        paired.lemma_import_all_closed(children@, s, attr);
                        assert forall|f: int| #[trigger]
                            before.dealt_with(f, base, earlier, start) implies after.folders[f]
                            == before.folders[f] && after.closed(f) by {
                            assert(paired.folders[f] == before.folders[f]);
                            before.lemma_closed_kept(paired, f);
                            paired.lemma_closed_kept(after, f);
                        }
                        assert forall|f: int| #[trigger]
                            after.dealt_with(f, base, count, start) implies after.closed(f)
                            && after.folders[f].node.firstfileoff >= self.dirs.len() + 2 by {
                            if f != s && f < paired.folders.len() {
                                assert(before.dealt_with(f, base, earlier, start));
                            }
                        }
                        assert forall|f: int, g: int|
                            after.dealt_with(f, base, count, start) && after.dealt_with(
                                g,
                                base,
                                count,
                                start,
                            ) && f != g implies #[trigger] after.apart(f, g) by {
                            let f_old = f != s && f < paired.folders.len();
                            let g_old = g != s && g < paired.folders.len();
                            if f_old {
                                assert(before.dealt_with(f, base, earlier, start));
                            }
                            if g_old {
                                assert(before.dealt_with(g, base, earlier, start));
                            }
                            if f_old && g_old {
                                assert(before.apart(f, g));
                            }
                        }
                    },
                    FsEntry::File { .. } => {},
                }
            }
        } else {
            assert(kids.take(0) =~= Seq::<FsEntry>::empty());
        }
    }

    /// After an import, the folder imported into and every folder appended
    /// are closed: each child range lies within the entry table and ends
    /// with `.` and `..`. No two of these ranges share an entry. The tables
    /// and the listing are such that fit the fields of the records.
    pub proof fn lemma_import_all_closed(self, kids: Seq<FsEntry>, p: usize, attr: FileAttr)
        requires
            p < self.folders.len(),
            self.folders.len() + folders_added(kids) <= u32::MAX,
            self.dirs.len() + entries_added(kids) <= u32::MAX,
            listing_fits(kids),
        ensures
            ({
                let after = self.imported(kids, p, attr);
                &&& after.closed(p as int)
                &&& after.folders[p as int].node.firstfileoff == self.dirs.len()
                &&& after.folders[p as int].node.filecount == listed_count(kids) + 2
                &&& forall|f: int|
                    self.folders.len() <= f < after.folders.len() ==> #[trigger] after.closed(f)
                        && after.folders[f].node.firstfileoff >= after.folders[p as int].range_end()
                &&& forall|f: int|
                    self.folders.len() <= f < after.folders.len() ==> #[trigger] after.apart(
                        p as int,
                        f,
                    )
                &&& forall|f: int, g: int|
                    self.folders.len() <= f < after.folders.len() && self.folders.len() <= g
                        < after.folders.len() && f != g ==> #[trigger] after.apart(f, g)
            }),
        decreases kids, 1nat, 0int,
    {
        let started = self.with_range_start(p, self.dirs.len() as u32);
        let filled = started.with_children(kids, p, attr);
        let listed = filled.with_range_count(p, (listed_count(kids) + 2) as u16);
        let after = self.imported(kids, p, attr);
        self.lemma_import_appends(kids, p, attr);
        self.lemma_import_closes_range(kids, p, attr);
        started.lemma_children_append(kids, p, attr);
        if subdir_count(kids) == 0 {
            lemma_no_subdirs(kids);
        } else {
            assert(kids.take(kids.len() as int) =~= kids);
            listed.lemma_subdirs_closed(kids, kids.len() as int, p, self.folders.len(), attr);
            let base = self.folders.len();
            let count = subdir_count(kids);
            let start = listed.folders.len();
            assert forall|f: int| base <= f < after.folders.len() implies #[trigger] after.closed(f)
                && after.folders[f].node.firstfileoff >= after.folders[p as int].range_end() by {
                assert(after.dealt_with(f, base, count, start));
            }
            assert forall|f: int| base <= f < after.folders.len() implies #[trigger] after.apart(
                p as int,
                f,
            ) by {
                assert(after.dealt_with(f, base, count, start));
            }
            assert forall|f: int, g: int|
                base <= f < after.folders.len() && base <= g < after.folders.len() && f
                    != g implies #[trigger] after.apart(f, g) by {
                assert(after.dealt_with(f, base, count, start));
                assert(after.dealt_with(g, base, count, start));
            }
        }
    }
}

} // verus!
