//! The tree linker: it turns the indices that the records store into the
//! links between the folder table and the entry table.

use crate::archive::{ArchiveView, RARC};
use crate::dir::NO_FOLDER;
use crate::error::RarcError;
use crate::node::{DirNode, DirNodeView, FileNode, FileNodeView};
use vstd::prelude::*;

verus! {

impl ArchiveView {
    /// Every folder entry that names a folder names one that exists, and
    /// every child range lies within the entry table.
    pub open spec fn refs_in_bounds(self) -> bool {
        &&& forall|j: int|
            0 <= j < self.dirs.len() && (#[trigger] self.dirs[j]).names_folder()
                ==> self.dirs[j].node.data < self.folders.len()
        &&& forall|f: int|
            0 <= f < self.folders.len() ==> (#[trigger] self.folders[f]).range_end()
                <= self.dirs.len()
    }

    /// The folder link of entry `j` after linking: the folder it names,
    /// else the link it had.
    pub open spec fn linked_folder(self, j: int) -> Option<usize> {
        if self.dirs[j].names_folder() {
            Some(self.dirs[j].node.data as usize)
        } else {
            self.dirs[j].folder
        }
    }

    /// Whether entry `j` names folder `f` and carries the same hash.
    pub open spec fn claims(self, j: int, f: int) -> bool {
        &&& self.dirs[j].names_folder()
        &&& self.dirs[j].node.data == f
        &&& self.dirs[j].node.hash == self.folders[f].node.hash
    }

    /// The last entry below `n` that claims folder `f`.
    pub open spec fn last_claim(self, f: int, n: int) -> Option<usize>
        decreases n,
    {
        if n <= 0 {
            None
        } else if self.claims(n - 1, f) {
            Some((n - 1) as usize)
        } else {
            self.last_claim(f, n - 1)
        }
    }

    /// The entry link of folder `f` after linking: the last entry that
    /// claims it, else the link it had.
    pub open spec fn linked_entry(self, f: int) -> Option<usize> {
        match self.last_claim(f, self.dirs.len() as int) {
            Some(j) => Some(j),
            None => self.folders[f].dir,
        }
    }

    /// The last folder below `n` whose child range holds entry `j`.
    pub open spec fn last_owner(self, j: int, n: int) -> Option<usize>
        decreases n,
    {
        if n <= 0 {
            None
        } else if self.folders[n - 1].owns(j) {
            Some((n - 1) as usize)
        } else {
            self.last_owner(j, n - 1)
        }
    }

    /// The parent link of entry `j` after linking: the last folder whose
    /// child range holds it, else the link it had.
    pub open spec fn linked_parent(self, j: int) -> Option<usize> {
        match self.last_owner(j, self.folders.len() as int) {
            Some(f) => Some(f),
            None => self.dirs[j].parent,
        }
    }

    /// The archive after linking. Only the three kinds of link change.
    pub open spec fn linked(self) -> ArchiveView {
        ArchiveView {
            folders: Seq::new(
                self.folders.len(),
                |f: int| FileNodeView { dir: self.linked_entry(f), ..self.folders[f] },
            ),
            dirs: Seq::new(
                self.dirs.len(),
                |j: int|
                    DirNodeView {
                        folder: self.linked_folder(j),
                        parent: self.linked_parent(j),
                        ..self.dirs[j]
                    },
            ),
            ..self
        }
    }
}

impl ArchiveView {
    /// No entry lies in the child ranges of two folders.
    pub open spec fn ranges_disjoint(self) -> bool {
        forall|f: int, g: int, j: int|
            0 <= f < g < self.folders.len() && (#[trigger] self.folders[f].owns(j)) ==> !(
            #[trigger] self.folders[g].owns(j))
    }

    /// Where folder `f` owns entry `j` and no folder from `f + 1` up to `n`
    /// does, `f` is the last owner below `n`.
    proof fn lemma_last_owner(self, j: int, f: int, n: int)
        requires
            0 <= f < n <= self.folders.len(),
            self.folders[f].owns(j),
            forall|g: int| f < g < n ==> !(#[trigger] self.folders[g]).owns(j),
        ensures
            self.last_owner(j, n) == Some(f as usize),
        decreases n,
    {
        if n - 1 > f {
            self.lemma_last_owner(j, f, n - 1);
        }
    }

    /// Which entries claim a folder does not change with linking.
    proof fn lemma_last_claim_linked(self, f: int, n: int)
        requires
            0 <= f < self.folders.len(),
            n <= self.dirs.len(),
        ensures
            self.linked().last_claim(f, n) == self.last_claim(f, n),
        decreases n,
    {
        if n > 0 {
            self.lemma_last_claim_linked(f, n - 1);
        }
    }

    /// Which folders own an entry does not change with linking.
    proof fn lemma_last_owner_linked(self, j: int, n: int)
        requires
            n <= self.folders.len(),
        ensures
            self.linked().last_owner(j, n) == self.last_owner(j, n),
        decreases n,
    {
        if n > 0 {
            self.lemma_last_owner_linked(j, n - 1);
        }
    }
}

/// After linking, an entry in the child range of a folder has that folder
/// as its parent, unless a later folder's range holds the entry too.
pub proof fn lemma_child_has_parent(a: ArchiveView, f: int, j: int)
    requires
        0 <= f < a.folders.len(),
        0 <= j < a.dirs.len(),
        a.folders[f].owns(j),
        forall|g: int| f < g < a.folders.len() ==> !(#[trigger] a.folders[g]).owns(j),
    ensures
        a.linked().dirs[j].parent == Some(f as usize),
{
    a.lemma_last_owner(j, f, a.folders.len() as int);
}

/// Where the child ranges lie within the entry table and do not overlap,
/// every entry in a folder's child range has that folder as its parent
/// after linking.
pub proof fn lemma_children_have_parent(a: ArchiveView)
    requires
        a.refs_in_bounds(),
        a.ranges_disjoint(),
    ensures
        forall|f: int, j: int|
            0 <= f < a.folders.len() && (#[trigger] a.folders[f].owns(j))
                ==> (#[trigger] a.linked().dirs[j]).parent == Some(f as usize),
{
    assert forall|f: int, j: int|
        0 <= f < a.folders.len() && (#[trigger] a.folders[f].owns(j)) implies (
    #[trigger] a.linked().dirs[j]).parent == Some(f as usize) by {
        assert(a.folders[f].range_end() <= a.dirs.len());
        lemma_child_has_parent(a, f, j);
    }
}

/// After linking, every folder entry that names a folder is linked to the
/// folder at the index it names.
pub proof fn lemma_link_follows_data(a: ArchiveView, j: int)
    requires
        0 <= j < a.dirs.len(),
        a.dirs[j].names_folder(),
    ensures
        a.linked().dirs[j].folder == Some(a.dirs[j].node.data as usize),
{
}

/// Linking a linked archive changes nothing, and linking keeps every
/// reference in bounds.
pub proof fn lemma_linking_twice(a: ArchiveView)
    ensures
        a.linked().linked() == a.linked(),
        a.refs_in_bounds() ==> a.linked().refs_in_bounds(),
{
    let once = a.linked();
    let twice = once.linked();
    assert forall|j: int| 0 <= j < a.dirs.len() implies twice.dirs[j] == once.dirs[j] by {
        a.lemma_last_owner_linked(j, a.folders.len() as int);
    }
    assert forall|f: int| 0 <= f < a.folders.len() implies twice.folders[f] == once.folders[f] by {
        a.lemma_last_claim_linked(f, a.dirs.len() as int);
    }
    assert(twice.dirs =~= once.dirs);
    assert(twice.folders =~= once.folders);
    if a.refs_in_bounds() {
        assert forall|j: int|
            0 <= j < once.dirs.len() && (#[trigger] once.dirs[j]).names_folder()
                implies once.dirs[j].node.data < once.folders.len() by {
            assert(a.dirs[j].names_folder());
        }
        assert forall|f: int| 0 <= f < once.folders.len() implies (
        #[trigger] once.folders[f]).range_end() <= once.dirs.len() by {
            assert(a.folders[f].range_end() <= a.dirs.len());
        }
    }
}

impl RARC {
    /// Tells whether every reference that linking follows is in bounds.
    pub fn refs_in_bounds(&self) -> (r: bool)
        ensures
            r == self@.refs_in_bounds(),
    {
        let mut j: usize = 0;
        while j < self.dirs.len()
            invariant
                j <= self.dirs.len(),
                forall|k: int|
                    0 <= k < j && (#[trigger] self@.dirs[k]).names_folder()
                        ==> self@.dirs[k].node.data < self@.folders.len(),
            decreases self.dirs.len() - j,
        {
            let d: &DirNode = &self.dirs[j];
            assert(self@.dirs[j as int] == d@);
            if d.attr.is_folder() && d.node.data != NO_FOLDER && d.node.data as usize
                >= self.folders.len() {
                return false;
            }
            j = j + 1;
        }
        let mut f: usize = 0;
        while f < self.folders.len()
            invariant
                f <= self.folders.len(),
                forall|g: int|
                    0 <= g < f ==> (#[trigger] self@.folders[g]).range_end() <= self@.dirs.len(),
            decreases self.folders.len() - f,
        {
            let n: &FileNode = &self.folders[f];
            assert(self@.folders[f as int] == n@);
            if n.node.firstfileoff as u64 + n.node.filecount as u64 > self.dirs.len() as u64 {
                return false;
            }
            f = f + 1;
        }
        true
    }

    /// Links the two tables. Each folder entry that names a folder gets
    /// that folder as its link, and the folder gets the entry where their
    /// hashes agree. Each entry in a folder's child range gets that folder
    /// as its parent. Nothing changes where a reference is out of bounds.
    pub fn sortparents(&mut self) -> (r: Result<(), RarcError>)
        ensures
            r is Ok <==> old(self)@.refs_in_bounds(),
            r is Ok ==> final(self)@ == old(self)@.linked(),
            r is Ok ==> forall|j: int|
                0 <= j < old(self)@.dirs.len() && (#[trigger] old(self)@.dirs[j]).names_folder()
                    ==> final(self)@.dirs[j].folder == Some(old(self)@.dirs[j].node.data as usize),
            r matches Err(e) ==> e == RarcError::DanglingReference && final(self)@ == old(self)@,
    {
        if !self.refs_in_bounds() {
            return Err(RarcError::DanglingReference);
        }
        let ghost pre = self@;
        let mut j: usize = 0;
        while j < self.dirs.len()
            invariant
                j <= self.dirs.len(),
                pre.refs_in_bounds(),
                self.dirs.len() == pre.dirs.len(),
                self.folders.len() == pre.folders.len(),
                self.header == pre.header,
                self.dataheader == pre.dataheader,
                self.nextidx == pre.nextidx,
                self.sync == pre.sync,
                self.data@ == pre.data,
                self.endian == pre.endian,
                forall|k: int|
                    0 <= k < j ==> (#[trigger] self.dirs@[k])@ == (DirNodeView {
                        folder: pre.linked_folder(k),
                        ..pre.dirs[k]
                    }),
                forall|k: int| j <= k < pre.dirs.len() ==> (#[trigger] self.dirs@[k])@ == pre.dirs[k],
                forall|f: int|
                    0 <= f < pre.folders.len() ==> (#[trigger] self.folders@[f])@ == (FileNodeView {
                        dir: match pre.last_claim(f, j as int) {
                            Some(x) => Some(x),
                            None => pre.folders[f].dir,
                        },
                        ..pre.folders[f]
                    }),
            decreases self.dirs.len() - j,
        {
            let ghost dirs0 = self.dirs@;
            let ghost folders0 = self.folders@;
            if self.dirs[j].attr.is_folder() && self.dirs[j].node.data != NO_FOLDER {
                let target: usize = self.dirs[j].node.data as usize;
                assert(pre.dirs[j as int].names_folder());
                self.dirs[j].folder = Some(target);
                assert(forall|k: int| 0 <= k < dirs0.len() && k != j ==> self.dirs@[k] == dirs0[k]);
                if self.dirs[j].node.hash == self.folders[target].node.hash {
                    self.folders[target].dir = Some(j);
                    assert(forall|f: int|
                        0 <= f < folders0.len() && f != target ==> self.folders@[f] == folders0[f]);
                }
            }
            j = j + 1;
        }
        let mut f: usize = 0;
        while f < self.folders.len()
            invariant
                f <= self.folders.len(),
                pre.refs_in_bounds(),
                self.dirs.len() == pre.dirs.len(),
                self.folders.len() == pre.folders.len(),
                self.header == pre.header,
                self.dataheader == pre.dataheader,
                self.nextidx == pre.nextidx,
                self.sync == pre.sync,
                self.data@ == pre.data,
                self.endian == pre.endian,
                forall|k: int|
                    0 <= k < pre.dirs.len() ==> (#[trigger] self.dirs@[k])@ == (DirNodeView {
                        folder: pre.linked_folder(k),
                        parent: match pre.last_owner(k, f as int) {
                            Some(x) => Some(x),
                            None => pre.dirs[k].parent,
                        },
                        ..pre.dirs[k]
                    }),
                forall|g: int|
                    0 <= g < pre.folders.len() ==> (#[trigger] self.folders@[g])@ == (FileNodeView {
                        dir: pre.linked_entry(g),
                        ..pre.folders[g]
                    }),
            decreases self.folders.len() - f,
        {
            let first: usize = self.folders[f].node.firstfileoff as usize;
            let count: usize = self.folders[f].node.filecount as usize;
            assert(pre.folders[f as int].range_end() <= pre.dirs.len());
            let mut y: usize = first;
            while y < first + count
                invariant
                    first <= y <= first + count <= self.dirs.len(),
                    f < self.folders.len(),
                    first == pre.folders[f as int].node.firstfileoff,
                    count == pre.folders[f as int].node.filecount,
                    self.dirs.len() == pre.dirs.len(),
                    self.folders.len() == pre.folders.len(),
                    self.header == pre.header,
                    self.dataheader == pre.dataheader,
                    self.nextidx == pre.nextidx,
                    self.sync == pre.sync,
                    self.data@ == pre.data,
                    self.endian == pre.endian,
                    forall|k: int|
                        0 <= k < pre.dirs.len() ==> (#[trigger] self.dirs@[k])@ == (DirNodeView {
                            folder: pre.linked_folder(k),
                            parent: if first <= k < y {
                                Some(f)
                            } else {
                                match pre.last_owner(k, f as int) {
                                    Some(x) => Some(x),
                                    None => pre.dirs[k].parent,
                                }
                            },
                            ..pre.dirs[k]
                        }),
                    forall|g: int|
                        0 <= g < pre.folders.len() ==> (#[trigger] self.folders@[g])@
                            == (FileNodeView { dir: pre.linked_entry(g), ..pre.folders[g] }),
                decreases first + count - y,
            {
                let ghost dirs0 = self.dirs@;
                self.dirs[y].parent = Some(f);
                assert(forall|k: int| 0 <= k < dirs0.len() && k != y ==> self.dirs@[k] == dirs0[k]);
                y = y + 1;
            }
            f = f + 1;
        }
        assert(self@.dirs =~= pre.linked().dirs);
        assert(self@.folders =~= pre.linked().folders);
        Ok(())
    }
}

} // verus!
