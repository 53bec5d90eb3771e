//! The path resolver: from a folder to the folders that lead to it from the
//! root, and from there to what goes where on extraction.
//!
//! The walk relies on the order of a child list: it ends with an entry `.`
//! that refers to the folder itself and an entry `..` that refers to the
//! folder's parent, in that order. A child range, a link or an entry index
//! that points outside the tables is an error, never passed over.

use crate::archive::{ArchiveView, RARC};
use crate::error::RarcError;
use crate::node::{DirNode, FileNode, FileNodeView};
use vstd::prelude::*;

verus! {

impl ArchiveView {
    /// The child list of a folder: the indices of its child range, or an
    /// error where the range reaches past the entry table.
    pub open spec fn child_list(self, node: FileNodeView) -> Result<Seq<usize>, RarcError> {
        if node.range_end() <= self.dirs.len() {
            Ok(node.children())
        } else {
            Err(RarcError::DanglingReference)
        }
    }

    /// The folder that an entry with the given link refers to: none where
    /// there is no link, and an error where the link points past the folder
    /// table.
    pub open spec fn folder_at(self, link: Option<usize>) -> Result<Option<usize>, RarcError> {
        match link {
            Some(f) => if f < self.folders.len() {
                Ok(Some(f))
            } else {
                Err(RarcError::DanglingReference)
            },
            None => Ok(None),
        }
    }

    /// The walk from entry `e` towards the root: the folder that `e` refers
    /// to, then the folder that the last child of that folder refers to,
    /// and so on up to the root. `fuel` bounds the folders passed before
    /// the root.
    pub open spec fn climb(self, e: int, fuel: nat) -> Result<Seq<usize>, RarcError>
        decreases fuel,
    {
        if !(0 <= e < self.dirs.len()) {
            Err(RarcError::DanglingReference)
        } else {
            match self.dirs[e].folder {
                None => Err(RarcError::RootUnreachable),
                Some(f) => {
                    if f >= self.folders.len() {
                        Err(RarcError::DanglingReference)
                    } else if self.folders[f as int].isroot {
                        Ok(seq![f])
                    } else if fuel == 0 {
                        Err(RarcError::RootUnreachable)
                    } else if self.folders[f as int].node.filecount == 0 {
                        Err(RarcError::MissingPseudoEntry)
                    } else if self.folders[f as int].range_end() > self.dirs.len() {
                        Err(RarcError::DanglingReference)
                    } else {
                        match self.climb(self.folders[f as int].range_end() - 1, (fuel - 1) as nat) {
                            Ok(rest) => Ok(seq![f] + rest),
                            Err(x) => Err(x),
                        }
                    }
                },
            }
        }
    }

    /// Every folder that a walk passes is one that the folder table holds.
    pub proof fn lemma_climb_in_bounds(self, e: int, fuel: nat)
        ensures
            self.climb(e, fuel) matches Ok(up) ==> forall|i: int|
                0 <= i < up.len() ==> (#[trigger] up[i]) < self.folders.len(),
        decreases fuel,
    {
        if 0 <= e < self.dirs.len() {
            match self.dirs[e].folder {
                Some(f) => {
                    if f < self.folders.len() && !self.folders[f as int].isroot && fuel > 0
                        && self.folders[f as int].node.filecount != 0 && self.folders[f as int].range_end()
                        <= self.dirs.len() {
                        self.lemma_climb_in_bounds(
                            self.folders[f as int].range_end() - 1,
                            (fuel - 1) as nat,
                        );
                    }
                },
                None => {},
            }
        }
    }

    /// The folders from the root down to the folder whose child list is
    /// given. The walk starts at the last but one child and may pass as many
    /// folders as the archive has.
    pub open spec fn root_path(self, children: Seq<usize>) -> Result<Seq<usize>, RarcError> {
        if children.len() < 2 {
            Err(RarcError::MissingPseudoEntry)
        } else {
            match self.climb(children[children.len() - 2] as int, self.folders.len()) {
                Ok(up) => Ok(up.reverse()),
                Err(x) => Err(x),
            }
        }
    }

    /// Those of the given entries that are files, in the given order.
    pub open spec fn files_among(self, entries: Seq<usize>) -> Seq<usize>
        decreases entries.len(),
    {
        if entries.len() == 0 {
            Seq::empty()
        } else {
            let rest = self.files_among(entries.drop_last());
            let e = entries.last();
            if self.dirs[e as int].attr.file() {
                rest.push(e)
            } else {
                rest
            }
        }
    }

    /// Whether the entry table holds every one of the given entries.
    pub open spec fn holds_entries(self, entries: Seq<usize>) -> bool {
        forall|k: int| 0 <= k < entries.len() ==> (#[trigger] entries[k]) < self.dirs.len()
    }

    /// The files among the given entries, or an error where the entry table
    /// does not hold one of the entries.
    pub open spec fn file_list(self, entries: Seq<usize>) -> Result<Seq<usize>, RarcError> {
        if self.holds_entries(entries) {
            Ok(self.files_among(entries))
        } else {
            Err(RarcError::DanglingReference)
        }
    }

    /// Where folder `f` and its files go: the folder, the path resolved
    /// from its child list, and the files of the list. An error where the
    /// child range reaches past the entry table, or where the path does not
    /// resolve.
    pub open spec fn planned(self, f: int) -> Result<FolderPlanView, RarcError> {
        match self.child_list(self.folders[f]) {
            Err(e) => Err(e),
            Ok(children) => match self.root_path(children) {
                Err(e) => Err(e),
                Ok(path) => Ok(
                    FolderPlanView { folder: f as usize, path, files: self.files_among(children) },
                ),
            },
        }
    }
}

impl ArchiveView {
    /// Whether `chain` leads from the root down to a folder: it starts at
    /// the root, names no folder twice, and the child list of each further
    /// folder lies within the entry table and ends with an entry linked to
    /// the folder before it.
    pub open spec fn is_chain(self, chain: Seq<usize>) -> bool {
        &&& chain.len() >= 1
        &&& chain.no_duplicates()
        &&& forall|i: int| 0 <= i < chain.len() ==> (#[trigger] chain[i]) < self.folders.len()
        &&& self.folders[chain[0] as int].isroot
        &&& forall|i: int| 1 <= i < chain.len() ==> self.hangs_below(#[trigger] chain[i], chain[i - 1])
    }

    /// Whether folder `f` is not the root and its child list, which lies
    /// within the entry table, ends with an entry linked to folder `up`.
    pub open spec fn hangs_below(self, f: usize, up: usize) -> bool {
        let node = self.folders[f as int];
        &&& !node.isroot
        &&& node.node.filecount > 0
        &&& node.range_end() <= self.dirs.len()
        &&& self.dirs[node.range_end() - 1].folder == Some(up)
    }

    /// The names of the given folders.
    pub open spec fn names_of(self, path: Seq<usize>) -> Seq<Seq<char>> {
        Seq::new(path.len(), |i: int| self.folders[path[i] as int].name)
    }

    /// The walk from an entry linked to the end of a chain gives the chain,
    /// from its end to the root, where the fuel covers the chain.
    proof fn lemma_climb_chain(self, e: int, chain: Seq<usize>, fuel: nat)
        requires
            self.is_chain(chain),
            0 <= e < self.dirs.len(),
            self.dirs[e].folder == Some(chain.last()),
            fuel + 1 >= chain.len(),
        ensures
            self.climb(e, fuel) == Ok::<Seq<usize>, RarcError>(chain.reverse()),
        decreases chain.len(),
    {
        let f = chain.last();
        if chain.len() == 1 {
            assert(chain.reverse() =~= seq![f]);
        } else {
            let up = chain.drop_last();
            assert(self.hangs_below(chain[chain.len() - 1], chain[chain.len() - 2]));
            assert(up.no_duplicates());
            assert(forall|i: int| 0 <= i < up.len() ==> up[i] == chain[i]);
            assert(forall|i: int| 1 <= i < up.len() ==> self.hangs_below(#[trigger] up[i], up[i - 1]))
                by {
                assert forall|i: int| 1 <= i < up.len() implies self.hangs_below(
                    #[trigger] up[i],
                    up[i - 1],
                ) by {
                    assert(self.hangs_below(chain[i], chain[i - 1]));
                }
            }
            self.lemma_climb_chain(self.folders[f as int].range_end() - 1, up, (fuel - 1) as nat);
            assert(seq![f] + up.reverse() =~= chain.reverse());
        }
    }
}

/// A sequence that names no number twice and only numbers below `n` has at
/// most `n` elements.
proof fn lemma_distinct_below(s: Seq<usize>, n: nat)
    requires
        s.no_duplicates(),
        forall|i: int| 0 <= i < s.len() ==> (#[trigger] s[i]) < n,
    ensures
        s.len() <= n,
    decreases n,
{
    if s.len() > 0 {
        if n == 0 {
            assert(s[0] < n);
        } else {
            let top = (n - 1) as usize;
            if exists|i: int| 0 <= i < s.len() && s[i] == top {
                let i = choose|i: int| 0 <= i < s.len() && s[i] == top;
                let rest = s.remove(i);
                assert forall|k: int| 0 <= k < rest.len() implies (#[trigger] rest[k]) < n - 1 by {
                    if k < i {
                        assert(rest[k] == s[k]);
                    } else {
                        assert(rest[k] == s[k + 1]);
                    }
                }
                assert(rest.no_duplicates()) by {
                    assert forall|a: int, b: int|
                        0 <= a < rest.len() && 0 <= b < rest.len() && a != b implies rest[a]
                        != rest[b] by {
                        let a2 = if a < i { a } else { a + 1 };
                        let b2 = if b < i { b } else { b + 1 };
                        assert(rest[a] == s[a2] && rest[b] == s[b2]);
                    }
                }
                lemma_distinct_below(rest, (n - 1) as nat);
            } else {
                assert forall|k: int| 0 <= k < s.len() implies (#[trigger] s[k]) < n - 1 by {
                    assert(s[k] < n);
                }
                lemma_distinct_below(s, (n - 1) as nat);
            }
        }
    }
}

/// Where `chain` leads from the root down to a folder and the last but one
/// of `children` is linked to that folder, the path resolved from
/// `children` is the chain, and its names are the names along the chain.
pub proof fn lemma_path_is_chain(a: ArchiveView, children: Seq<usize>, chain: Seq<usize>)
    requires
        a.is_chain(chain),
        children.len() >= 2,
        children[children.len() - 2] < a.dirs.len(),
        a.dirs[children[children.len() - 2] as int].folder == Some(chain.last()),
    ensures
        a.root_path(children) == Ok::<Seq<usize>, RarcError>(chain),
        a.root_path(children) matches Ok(path) && a.names_of(path) == a.names_of(chain),
{
    lemma_distinct_below(chain, a.folders.len());
    a.lemma_climb_chain(children[children.len() - 2] as int, chain, a.folders.len());
    assert(chain.reverse().reverse() =~= chain);
}

/// Where `chain` leads from the root down to folder `f`, and the child
/// list of `f` lies within the entry table and ends with an entry linked to
/// `f` itself and one more entry, the path resolved for `f` is the chain.
/// The entry table is one that fits in memory.
pub proof fn lemma_folder_path_is_chain(a: ArchiveView, f: int, chain: Seq<usize>)
    requires
        a.is_chain(chain),
        a.dirs.len() <= usize::MAX,
        0 <= f < a.folders.len(),
        chain.last() == f,
        a.folders[f].node.filecount >= 2,
        a.folders[f].range_end() <= a.dirs.len(),
        a.dirs[a.folders[f].range_end() - 2].folder == Some(f as usize),
    ensures
        a.child_list(a.folders[f]) == Ok::<Seq<usize>, RarcError>(a.folders[f].children()),
        a.root_path(a.folders[f].children()) == Ok::<Seq<usize>, RarcError>(chain),
        a.planned(f) matches Ok(plan) && plan.path == chain,
{
    let children = a.folders[f].children();
    assert(children.len() == a.folders[f].node.filecount);
    assert(children[children.len() - 2] == a.folders[f].range_end() - 2);
    lemma_path_is_chain(a, children, chain);
}

/// Where one folder goes on extraction: the folders from the root down to
/// it, whose names make its path, and the file entries to write into it.
#[derive(Debug, Clone)]
pub struct FolderPlan {
    pub folder: usize,
    pub path: Vec<usize>,
    pub files: Vec<usize>,
}

/// What a [`FolderPlan`] holds, as plain values.
pub struct FolderPlanView {
    pub folder: usize,
    pub path: Seq<usize>,
    pub files: Seq<usize>,
}

impl View for FolderPlan {
    type V = FolderPlanView;

    open spec fn view(&self) -> FolderPlanView {
        FolderPlanView { folder: self.folder, path: self.path@, files: self.files@ }
    }
}

impl RARC {
    /// Whether the tables hold every folder and entry that the plan names.
    pub open spec fn holds(&self, plan: FolderPlanView) -> bool {
        &&& forall|i: int| 0 <= i < plan.path.len() ==> (#[trigger] plan.path[i]) < self.folders.len()
        &&& forall|k: int| 0 <= k < plan.files.len() ==> (#[trigger] plan.files[k]) < self.dirs.len()
    }

    /// The child list of `node`: the entries of its child range, by index.
    /// A range that reaches past the entry table is an error.
    pub fn getchildren(&self, node: &FileNode) -> (r: Result<Vec<usize>, RarcError>)
        ensures
            (match r {
                Ok(list) => self@.child_list(node@) == Ok::<Seq<usize>, RarcError>(list@),
                Err(e) => self@.child_list(node@) == Err::<Seq<usize>, RarcError>(e),
            }),
            r matches Ok(list) ==> self@.holds_entries(list@),
    {
        proof {
            self.lemma_view_lengths();
        }
        let first: usize = node.node.firstfileoff as usize;
        let count: usize = node.node.filecount as usize;
        if node.node.firstfileoff as u64 + node.node.filecount as u64 > self.dirs.len() as u64 {
            return Err(RarcError::DanglingReference);
        }
        let mut out: Vec<usize> = Vec::new();
        let mut k: usize = 0;
        while k < count
            invariant
                k <= count,
                first + count <= self.dirs.len(),
                out@.len() == k,
                forall|i: int| 0 <= i < out@.len() ==> out@[i] == first + i,
            decreases count - k,
        {
            out.push(first + k);
            k = k + 1;
        }
        assert(out@ =~= node@.children());
        Ok(out)
    }

    /// The folder that the entry refers to, or none where it is linked to
    /// none. A link that points past the folder table is an error.
    pub fn findfolder(&self, dir: &DirNode) -> (r: Result<Option<&FileNode>, RarcError>)
        ensures
            (match self@.folder_at(dir.folder) {
                Ok(Some(f)) => r == Ok::<Option<&FileNode>, RarcError>(
                    Some(&self.folders@[f as int]),
                ),
                Ok(None) => r == Ok::<Option<&FileNode>, RarcError>(None),
                Err(e) => r == Err::<Option<&FileNode>, RarcError>(e),
            }),
    {
        proof {
            self.lemma_view_lengths();
        }
        match dir.folder {
            Some(f) => {
                if f < self.folders.len() {
                    Ok(Some(&self.folders[f]))
                } else {
                    Err(RarcError::DanglingReference)
                }
            },
            None => Ok(None),
        }
    }

    /// The folders from the root down to the folder whose child list is
    /// given, by index.
    pub fn getroot(&self, dirs: &Vec<usize>) -> (r: Result<Vec<usize>, RarcError>)
        ensures
            (match r {
                Ok(path) => self@.root_path(dirs@) == Ok::<Seq<usize>, RarcError>(path@),
                Err(e) => self@.root_path(dirs@) == Err::<Seq<usize>, RarcError>(e),
            }),
            r matches Ok(path) ==> forall|i: int|
                0 <= i < path@.len() ==> (#[trigger] path@[i]) < self.folders.len(),
    {
        if dirs.len() < 2 {
            return Err(RarcError::MissingPseudoEntry);
        }
        let start: usize = dirs[dirs.len() - 2];
        proof {
            self@.lemma_climb_in_bounds(start as int, self@.folders.len());
            self.lemma_view_lengths();
        }
        let mut up: Vec<usize> = Vec::new();
        let mut entry: usize = start;
        let mut fuel: usize = self.folders.len();
        let mut done: bool = false;
        while !done
            invariant
                fuel <= self.folders.len(),
                dirs@.len() >= 2,
                start == dirs@[dirs@.len() - 2],
                !done ==> self@.climb(start as int, self@.folders.len()) == (match self@.climb(
                    entry as int,
                    fuel as nat,
                ) {
                    Ok(rest) => Ok::<Seq<usize>, RarcError>(up@ + rest),
                    Err(x) => Err(x),
                }),
                done ==> self@.climb(start as int, self@.folders.len()) == Ok::<
                    Seq<usize>,
                    RarcError,
                >(up@),
            decreases
                    (if done {
                        0int
                    } else {
                        fuel + 1
                    }),
        {
            if entry >= self.dirs.len() {
                return Err(RarcError::DanglingReference);
            }
            assert(self@.dirs[entry as int] == self.dirs@[entry as int]@);
            let f: usize = match self.dirs[entry].folder {
                Some(f) => f,
                None => { return Err(RarcError::RootUnreachable); },
            };
            if f >= self.folders.len() {
                return Err(RarcError::DanglingReference);
            }
            assert(self@.folders[f as int] == self.folders@[f as int]@);
            let node: &FileNode = &self.folders[f];
            if node.isroot {
                let ghost before = up@;
                up.push(f);
                assert(up@ =~= before + seq![f]);
                done = true;
            } else {
                if fuel == 0 {
                    return Err(RarcError::RootUnreachable);
                }
                if node.node.filecount == 0 {
                    return Err(RarcError::MissingPseudoEntry);
                }
                let end: u64 = node.node.firstfileoff as u64 + node.node.filecount as u64;
                if end > self.dirs.len() as u64 {
                    return Err(RarcError::DanglingReference);
                }
                let ghost before = up@;
                up.push(f);
                proof {
                    match self@.climb(end - 1, (fuel - 1) as nat) {
                        Ok(rest) => {
                            assert(before + (seq![f] + rest) =~= up@ + rest);
                        },
                        Err(_) => {},
                    }
                }
                entry = (end - 1) as usize;
                fuel = fuel - 1;
            }
        }
        let mut path: Vec<usize> = Vec::new();
        let mut i: usize = up.len();
        while i > 0
            invariant
                i <= up.len(),
                path@.len() == up.len() - i,
                forall|k: int| 0 <= k < path@.len() ==> path@[k] == up@[up.len() - 1 - k],
            decreases i,
        {
            i = i - 1;
            path.push(up[i]);
        }
        assert(path@ =~= up@.reverse());
        Ok(path)
    }
    /// Those of the given entries that are files, in the given order. An
    /// entry that the entry table does not hold is an error.
    pub fn files_of(&self, entries: &Vec<usize>) -> (r: Result<Vec<usize>, RarcError>)
        ensures
            (match r {
                Ok(files) => self@.file_list(entries@) == Ok::<Seq<usize>, RarcError>(files@),
                Err(e) => self@.file_list(entries@) == Err::<Seq<usize>, RarcError>(e),
            }),
            r matches Ok(files) ==> self@.holds_entries(files@),
    {
        proof {
            self.lemma_view_lengths();
        }
        let mut out: Vec<usize> = Vec::new();
        let mut i: usize = 0;
        while i < entries.len()
            invariant
                i <= entries.len(),
                self@.dirs.len() == self.dirs@.len(),
                self@.holds_entries(entries@.take(i as int)),
                out@ == self@.files_among(entries@.take(i as int)),
                self@.holds_entries(out@),
            decreases entries.len() - i,
        {
            let e: usize = entries[i];
            assert(entries@.take(i + 1).drop_last() =~= entries@.take(i as int));
            if e >= self.dirs.len() {
                assert(entries@[i as int] == e);
                return Err(RarcError::DanglingReference);
            }
            assert(self@.dirs[e as int] == self.dirs@[e as int]@);
            if self.dirs[e].attr.is_file() {
                out.push(e);
            }
            assert forall|k: int| 0 <= k < i + 1 implies (#[trigger] entries@.take(i + 1)[k])
                < self@.dirs.len() by {
                if k < i {
                    assert(entries@.take(i as int)[k] == entries@.take(i + 1)[k]);
                }
            }
            i = i + 1;
        }
        assert(entries@.take(i as int) =~= entries@);
        Ok(out)
    }

    /// Says where folder `f` and its files go.
    pub fn plan_folder(&self, f: usize) -> (r: Result<FolderPlan, RarcError>)
        requires
            f < self.folders.len(),
        ensures
            (match r {
                Ok(plan) => self@.planned(f as int) == Ok::<FolderPlanView, RarcError>(plan@),
                Err(e) => self@.planned(f as int) == Err::<FolderPlanView, RarcError>(e),
            }),
            r matches Ok(plan) ==> self.holds(plan@),
    {
        assert(self@.folders[f as int] == self.folders@[f as int]@);
        let children: Vec<usize> = match self.getchildren(&self.folders[f]) {
            Ok(list) => list,
            Err(e) => { return Err(e); },
        };
        let path: Vec<usize> = match self.getroot(&children) {
            Ok(p) => p,
            Err(e) => { return Err(e); },
        };
        let files: Vec<usize> = match self.files_of(&children) {
            Ok(list) => list,
            Err(e) => { return Err(e); },
        };
        proof {
            self.lemma_view_lengths();
        }
        Ok(FolderPlan { folder: f, path, files })
    }

    /// Says, for every folder in table order, where it goes and which file
    /// entries are written into it. Fails with the error of the first
    /// folder that has no plan.
    pub fn extract(&self) -> (r: Result<Vec<FolderPlan>, RarcError>)
        ensures
            (match r {
                Ok(plans) => {
                    &&& plans@.len() == self@.folders.len()
                    &&& forall|f: int|
                        0 <= f < plans@.len() ==> self@.planned(f) == Ok::<
                            FolderPlanView,
                            RarcError,
                        >((#[trigger] plans@[f])@)
                    &&& forall|f: int| 0 <= f < plans@.len() ==> self.holds((#[trigger] plans@[f])@)
                },
                Err(e) => exists|f: int|
                    {
                        &&& 0 <= f < self@.folders.len()
                        &&& #[trigger] self@.planned(f) == Err::<FolderPlanView, RarcError>(e)
                        &&& forall|g: int| 0 <= g < f ==> (#[trigger] self@.planned(g)) is Ok
                    },
            }),
    {
        let mut plans: Vec<FolderPlan> = Vec::new();
        let mut f: usize = 0;
        while f < self.folders.len()
            invariant
                f <= self.folders.len(),
                plans@.len() == f,
                forall|g: int|
                    0 <= g < f ==> self@.planned(g) == Ok::<FolderPlanView, RarcError>(
                        (#[trigger] plans@[g])@,
                    ),
                forall|g: int| 0 <= g < f ==> self.holds((#[trigger] plans@[g])@),
            decreases self.folders.len() - f,
        {
            match self.plan_folder(f) {
                Ok(plan) => {
                    plans.push(plan);
                },
                Err(e) => {
                    assert forall|g: int| 0 <= g < f implies (#[trigger] self@.planned(g)) is Ok by {
                        assert(self@.planned(g) == Ok::<FolderPlanView, RarcError>(plans@[g]@));
                    }
                    return Err(e);
                },
            }
            f = f + 1;
        }
        proof {
            self.lemma_view_lengths();
        }
        Ok(plans)
    }

    /// The names of the given folders, which are the components of a path.
    pub fn path_names(&self, path: &Vec<usize>) -> (r: Vec<String>)
        requires
            forall|i: int| 0 <= i < path@.len() ==> (#[trigger] path@[i]) < self.folders.len(),
        ensures
            r@.len() == path@.len(),
            forall|i: int| 0 <= i < r@.len() ==> (#[trigger] r@[i])@ == self@.names_of(path@)[i],
    {
        let mut names: Vec<String> = Vec::new();
        let mut i: usize = 0;
        while i < path.len()
            invariant
                i <= path.len(),
                names@.len() == i,
                forall|k: int| 0 <= k < path@.len() ==> (#[trigger] path@[k]) < self.folders.len(),
                forall|k: int| 0 <= k < i ==> (#[trigger] names@[k])@ == self@.names_of(path@)[k],
            decreases path.len() - i,
        {
            let f: usize = path[i];
            assert(self@.folders[f as int] == self.folders@[f as int]@);
            names.push(self.folders[f].name.clone());
            i = i + 1;
        }
        names
    }
}

} // verus!
