//! Read-only decoder and navigator for the image of an early Unix
//! filesystem: 512-byte blocks, a superblock in the second block, 32-byte
//! inode records from byte 1024 on, and directories made of 16-byte
//! entries. All multi-byte fields are big-endian.
//!
//! Every function is pure: it takes the image as a byte slice and returns
//! plain values. Nothing is cached and nothing is written.
//!
//! - [`codec`]: big-endian integers from byte windows.
//! - [`superblock`]: the superblock and the inode count it declares.
//! - [`inode`]: inode records, their type, size and permission bits.
//! - [`dir`]: the entries of a directory, in the order of the image.
//! - [`path`]: walking from directory to directory by name.
//! - [`listing`]: listings as lines of text.
//! - [`error`]: the ways in which navigation fails.

pub mod codec;
pub mod dir;
pub mod error;
pub mod inode;
pub mod listing;
pub mod path;
pub mod superblock;
