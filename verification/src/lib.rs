//! Reading, linking, walking and building resource archives: a container
//! that stores a folder hierarchy as two flat record tables and a string
//! table.

pub mod archive;
pub mod attr;
pub mod decode;
pub mod dir;
pub mod endian;
pub mod error;
pub mod folder;
pub mod header;
pub mod import;
pub mod import_laws;
pub mod link;
pub mod names;
pub mod node;
pub mod resolve;
