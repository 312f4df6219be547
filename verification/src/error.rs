//! The ways in which navigating an image can fail.

use vstd::prelude::*;

verus! {

/// Why an inode could not be decoded or a path could not be followed.
#[derive(Clone, Copy, Debug, PartialEq, Eq)]
pub enum FsError {
    /// No entry of the directory has the name that was looked for.
    NotFound,
    /// The entry that was found is not a directory.
    NotADirectory,
    /// The inode index is zero or its record lies outside the image; from
    /// the checked decoder also: the index exceeds the inode count that the
    /// superblock declares.
    InvalidInode,
    /// The directory has an address slot whose block lies outside the image.
    InvalidBlock,
}

} // verus!
