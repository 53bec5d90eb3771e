//! Folder and entry records as an archive holds them in memory, with the
//! links that tie the two tables together.

use crate::attr::FileAttr;
use crate::dir;
use crate::folder;
use vstd::prelude::*;

verus! {

/// A folder: its stored record, whether it is the root, its name, and the
/// index of the entry that stands for it, once linked.
#[derive(Debug, Clone, PartialEq, Eq)]
pub struct FileNode {
    pub node: folder::Node,
    pub isroot: bool,
    pub name: String,
    pub dir: Option<usize>,
}

/// What a [`FileNode`] holds, as plain values.
pub struct FileNodeView {
    pub node: folder::Node,
    pub isroot: bool,
    pub name: Seq<char>,
    pub dir: Option<usize>,
}

impl View for FileNode {
    type V = FileNodeView;

    open spec fn view(&self) -> FileNodeView {
        FileNodeView { node: self.node, isroot: self.isroot, name: self.name@, dir: self.dir }
    }
}

impl FileNodeView {
    /// The folder with a zero record, no name and no link.
    pub open spec fn zero() -> FileNodeView {
        FileNodeView { node: folder::Node::zero(), isroot: false, name: Seq::empty(), dir: None }
    }

    /// One past the last entry index of the child range.
    pub open spec fn range_end(self) -> int {
        self.node.firstfileoff + self.node.filecount
    }

    /// Whether entry `j` lies in the child range.
    pub open spec fn owns(self, j: int) -> bool {
        self.node.firstfileoff <= j < self.range_end()
    }

    /// The indices of the child range in order: as many as the record
    /// counts, from the first on.
    pub open spec fn children(self) -> Seq<usize> {
        Seq::new(self.node.filecount as nat, |k: int| (self.node.firstfileoff + k) as usize)
    }
}

impl Default for FileNode {
    fn default() -> (r: FileNode)
        ensures
            r@ == FileNodeView::zero(),
    {
        FileNode {
            node: folder::Node {
                shortname: [0u8, 0u8, 0u8, 0u8],
                nameoff: 0,
                hash: 0,
                filecount: 0,
                firstfileoff: 0,
            },
            isroot: false,
            name: String::new(),
            dir: None,
        }
    }
}

/// An entry: its stored record, the attribute bits and name offset unpacked
/// from it, its name, its payload where it is a file, and the indices of the
/// folder it refers to and of the folder that owns it, once linked.
#[derive(Debug, Clone)]
pub struct DirNode {
    pub node: dir::Node,
    pub attr: FileAttr,
    pub name: String,
    pub nameoff: u32,
    pub data: Vec<u8>,
    pub folder: Option<usize>,
    pub parent: Option<usize>,
}

/// What a [`DirNode`] holds, as plain values.
pub struct DirNodeView {
    pub node: dir::Node,
    pub attr: FileAttr,
    pub name: Seq<char>,
    pub nameoff: u32,
    pub data: Seq<u8>,
    pub folder: Option<usize>,
    pub parent: Option<usize>,
}

impl View for DirNode {
    type V = DirNodeView;

    open spec fn view(&self) -> DirNodeView {
        DirNodeView {
            node: self.node,
            attr: self.attr,
            name: self.name@,
            nameoff: self.nameoff,
            data: self.data@,
            folder: self.folder,
            parent: self.parent,
        }
    }
}

impl DirNodeView {
    /// The entry with a zero record, no attribute, no name, no payload and
    /// no link.
    pub open spec fn zero() -> DirNodeView {
        DirNodeView {
            node: dir::Node::zero(),
            attr: FileAttr { bits: 0 },
            name: Seq::empty(),
            nameoff: 0,
            data: Seq::empty(),
            folder: None,
            parent: None,
        }
    }

    /// The entry with the given name and attributes and nothing else.
    pub open spec fn named(name: Seq<char>, attr: FileAttr) -> DirNodeView {
        DirNodeView { name, attr, ..DirNodeView::zero() }
    }

    /// Whether the entry refers to a folder by index: it has the FOLDER
    /// attribute and `data` is not the value that stands for no folder.
    pub open spec fn names_folder(self) -> bool {
        self.attr.folder() && self.node.data != dir::NO_FOLDER
    }
}

impl Default for DirNode {
    fn default() -> (r: DirNode)
        ensures
            r@ == DirNodeView::zero(),
    {
        DirNode {
            node: dir::Node { nodeidx: 0, hash: 0, attrandnameoff: 0, data: 0, datasize: 0 },
            attr: FileAttr { bits: 0 },
            name: String::new(),
            nameoff: 0,
            data: Vec::new(),
            folder: None,
            parent: None,
        }
    }
}

} // verus!
