//! What can go wrong while an archive is decoded, linked or walked.

use vstd::prelude::*;

verus! {

/// The ways in which an archive can be unusable.
#[derive(Debug, Clone, Copy, PartialEq, Eq, Structural)]
pub enum RarcError {
    /// The payload of a file entry reaches past the end of the data.
    TruncatedStream,
    /// An entry names a folder, or a folder names an entry, that the tables
    /// do not hold.
    DanglingReference,
    /// A child list is too short to end with the two pseudo-entries.
    MissingPseudoEntry,
    /// The walk towards the root met an entry without a folder, or did not
    /// reach the root within as many steps as there are folders.
    RootUnreachable,
}

} // verus!
