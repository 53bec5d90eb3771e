//! The archive: both record tables, the headers, and the counters that
//! building one keeps.

use crate::attr::{FileAttr, FOLDER};
use crate::dir;
use crate::endian::{native_endian, Endian};
use crate::folder;
use crate::header::{DataHeader, Header};
use crate::names::{make_short_name, short_name};
use crate::node::{DirNode, DirNodeView, FileNode, FileNodeView};
use vstd::prelude::*;
use vstd::utf8::encode_utf8;

verus! {

/// An archive in memory. It owns every record; records refer to each other
/// by index into `folders` and `dirs`.
#[derive(Debug, Clone)]
pub struct RARC {
    pub folders: Vec<FileNode>,
    pub dirs: Vec<DirNode>,
    pub header: Header,
    pub dataheader: DataHeader,
    pub nextidx: u16,
    pub sync: bool,
    pub data: Vec<u8>,
    pub endian: Endian,
}

/// What an archive holds, as plain values.
pub struct ArchiveView {
    pub folders: Seq<FileNodeView>,
    pub dirs: Seq<DirNodeView>,
    pub header: Header,
    pub dataheader: DataHeader,
    pub nextidx: u16,
    pub sync: bool,
    pub data: Seq<u8>,
    pub endian: Endian,
}

impl View for RARC {
    type V = ArchiveView;

    open spec fn view(&self) -> ArchiveView {
        ArchiveView {
            folders: self.folders@.map_values(|f: FileNode| f@),
            dirs: self.dirs@.map_values(|d: DirNode| d@),
            header: self.header,
            dataheader: self.dataheader,
            nextidx: self.nextidx,
            sync: self.sync,
            data: self.data@,
            endian: self.endian,
        }
    }
}

impl ArchiveView {
    /// The archive without records, with zero headers, for the given byte
    /// order.
    pub open spec fn empty(endian: Endian) -> ArchiveView {
        ArchiveView {
            folders: Seq::empty(),
            dirs: Seq::empty(),
            header: Header::zero(),
            dataheader: DataHeader::zero(),
            nextidx: 0,
            sync: false,
            data: Seq::empty(),
            endian,
        }
    }

    /// The archive with one more entry at the end of the entry table.
    pub open spec fn push_entry(self, e: DirNodeView) -> ArchiveView {
        ArchiveView { dirs: self.dirs.push(e), ..self }
    }

    /// The archive with one more folder at the end of the folder table.
    pub open spec fn push_folder(self, f: FileNodeView) -> ArchiveView {
        ArchiveView { folders: self.folders.push(f), ..self }
    }

    /// The entry that `createfile` appends: named, with the given
    /// attributes, and numbered with the running index where the archive
    /// numbers its entries.
    pub open spec fn file_entry(self, name: Seq<char>, attr: FileAttr) -> DirNodeView {
        DirNodeView {
            node: dir::Node {
                nodeidx: if self.sync {
                    self.nextidx
                } else {
                    0
                },
                ..dir::Node::zero()
            },
            ..DirNodeView::named(name, attr)
        }
    }

    /// The archive after `createfile`.
    pub open spec fn created_file(self, name: Seq<char>, attr: FileAttr) -> ArchiveView {
        ArchiveView {
            dirs: self.dirs.push(self.file_entry(name, attr)),
            nextidx: if self.sync {
                (self.nextidx + 1) as u16
            } else {
                self.nextidx
            },
            ..self
        }
    }

    /// The folder that `createfolder` appends: named, tagged with the short
    /// form of its name, and linked to the entry appended with it.
    pub open spec fn folder_record(self, name: Seq<char>) -> FileNodeView {
        FileNodeView {
            node: folder::Node {
                shortname: short_name(encode_utf8(name)),
                ..folder::Node::zero()
            },
            isroot: false,
            name,
            dir: Some(self.dirs.len() as usize),
        }
    }

    /// The entry that `createfolder` appends: a folder entry that refers to
    /// the new folder and is owned by `parent`.
    pub open spec fn folder_entry(self, name: Seq<char>, parent: usize) -> DirNodeView {
        DirNodeView {
            node: dir::Node { data: self.folders.len() as u32, ..dir::Node::zero() },
            folder: Some(self.folders.len() as usize),
            parent: Some(parent),
            ..DirNodeView::named(name, FileAttr { bits: FOLDER })
        }
    }

    /// The archive after `createfolder`.
    pub open spec fn created_folder(self, name: Seq<char>, parent: usize) -> ArchiveView {
        ArchiveView {
            folders: self.folders.push(self.folder_record(name)),
            dirs: self.dirs.push(self.folder_entry(name, parent)),
            ..self
        }
    }
}

impl Default for RARC {
    /// The empty archive, for the byte order of the machine.
    fn default() -> (r: RARC)
        ensures
            r@ == ArchiveView::empty(r.endian),
    {
        let r = RARC {
            folders: Vec::new(),
            dirs: Vec::new(),
            header: Header::default(),
            dataheader: DataHeader::default(),
            nextidx: 0,
            sync: false,
            data: Vec::new(),
            endian: native_endian(),
        };
        assert(r@.folders =~= Seq::empty());
        assert(r@.dirs =~= Seq::empty());
        r
    }
}

impl RARC {
    /// The tables of the view are as long as the tables.
    pub proof fn lemma_view_lengths(&self)
        ensures
            self@.folders.len() == self.folders@.len(),
            self@.dirs.len() == self.dirs@.len(),
    {
    }

    /// Appends an entry with the given name and attributes and nothing
    /// else, and hands it out.
    pub fn createdir(&mut self, name: &str, attr: FileAttr) -> (r: &DirNode)
        ensures
            final(self)@ == old(self)@.push_entry(DirNodeView::named(name@, attr)),
            r@ == DirNodeView::named(name@, attr),
    {
        let entry = DirNode {
            node: dir::Node::default(),
            attr,
            name: name.to_owned(),
            nameoff: 0,
            data: Vec::new(),
            folder: None,
            parent: None,
        };
        self.dirs.push(entry);
        assert(self@.dirs =~= old(self)@.dirs.push(DirNodeView::named(name@, attr)));
        let len: usize = self.dirs.len();
        &self.dirs[len - 1]
    }

    /// Appends a file entry and returns its index. Where the archive
    /// numbers its entries, the entry gets the running index, which then
    /// moves on by one.
    pub fn createfile(&mut self, name: &str, attr: FileAttr) -> (r: usize)
        requires
            old(self).sync ==> old(self).nextidx < u16::MAX,
        ensures
            final(self)@ == old(self)@.created_file(name@, attr),
            r == old(self).dirs.len(),
    {
        let nodeidx: u16 = if self.sync {
            self.nextidx
        } else {
            0
        };
        let entry = DirNode {
            node: dir::Node { nodeidx, hash: 0, attrandnameoff: 0, data: 0, datasize: 0 },
            attr,
            name: name.to_owned(),
            nameoff: 0,
            data: Vec::new(),
            folder: None,
            parent: None,
        };
        self.dirs.push(entry);
        if self.sync {
            self.nextidx = self.nextidx + 1;
        }
        assert(self@.dirs =~= old(self)@.dirs.push(old(self)@.file_entry(name@, attr)));
        self.dirs.len() - 1
    }

    /// Appends a folder and the folder entry that stands for it under
    /// `parent`, linked to each other, and returns the folder's index.
    pub fn createfolder(&mut self, name: &str, parent: usize) -> (r: usize)
        requires
            old(self).folders.len() < dir::NO_FOLDER,
        ensures
            final(self)@ == old(self)@.created_folder(name@, parent),
            r == old(self).folders.len(),
    {
        let index: usize = self.folders.len();
        let record = FileNode {
            node: folder::Node {
                shortname: make_short_name(name),
                nameoff: 0,
                hash: 0,
                filecount: 0,
                firstfileoff: 0,
            },
            isroot: false,
            name: name.to_owned(),
            dir: Some(self.dirs.len()),
        };
        let entry = DirNode {
            node: dir::Node { nodeidx: 0, hash: 0, attrandnameoff: 0, data: index as u32, datasize: 0 },
            attr: FileAttr::from_bits(FOLDER),
            name: name.to_owned(),
            nameoff: 0,
            data: Vec::new(),
            folder: Some(index),
            parent: Some(parent),
        };
        self.folders.push(record);
        self.dirs.push(entry);
        assert(self@.folders =~= old(self)@.folders.push(old(self)@.folder_record(name@)));
        assert(self@.dirs =~= old(self)@.dirs.push(old(self)@.folder_entry(name@, parent)));
        index
    }
}

} // verus!
