//! The superblock: the second 512-byte block of the image.

use vstd::prelude::*;
use crate::codec::{as_u16_be, u16_at};

verus! {

/// The decoded superblock.
#[derive(Clone, Copy, Debug, PartialEq, Eq)]
pub struct SuperBlock {
    /// Blocks occupied by the inode list.
    pub s_isize: u16,
    /// Total blocks in the filesystem.
    pub s_fsize: u16,
    /// Number of valid slots in `s_free`.
    pub s_nfree: u16,
    /// Free-block list.
    pub s_free: [u16; 100],
    /// Number of valid slots in `s_inode`.
    pub s_ninode: u16,
    /// Free-inode list.
    pub s_inode: [u16; 100],
    /// Lock held while the free-block list is changed.
    pub s_flock: u8,
    /// Lock held while the free-inode list is changed.
    pub s_ilock: u8,
    /// Set when the superblock was modified.
    pub s_fmod: u8,
    /// Set when the filesystem is mounted read-only.
    pub s_ronly: u8,
    /// Time of the last update, as two 16-bit halves.
    pub s_time: [u16; 2],
}

/// Whether `sb` is what the superblock bytes of `disk` encode, field by field.
pub open spec fn is_superblock_of(sb: SuperBlock, disk: Seq<u8>) -> bool {
    &&& sb.s_isize == u16_at(disk, 512)
    &&& sb.s_fsize == u16_at(disk, 514)
    &&& sb.s_nfree == u16_at(disk, 516)
    &&& forall|k: int| 0 <= k < 100 ==> #[trigger] sb.s_free@[k] == u16_at(disk, 518 + 2 * k)
    &&& sb.s_ninode == u16_at(disk, 718)
    &&& forall|k: int| 0 <= k < 100 ==> #[trigger] sb.s_inode@[k] == u16_at(disk, 720 + 2 * k)
    &&& sb.s_flock == disk[920]
    &&& sb.s_ilock == disk[921]
    &&& sb.s_fmod == disk[922]
    &&& sb.s_ronly == disk[923]
    &&& sb.s_time@[0] == u16_at(disk, 924)
    &&& sb.s_time@[1] == u16_at(disk, 926)
}

/// Number of inode records that the image declares: sixteen for each block
/// of the inode list, and none where the image is too short to hold a
/// superblock.
pub open spec fn inode_count(disk: Seq<u8>) -> int {
    if disk.len() >= 1024 {
        u16_at(disk, 512) as int * 16
    } else {
        0
    }
}

/// Reads `n` consecutive big-endian words of `disk`, the first at `base`.
fn read_words<const N: usize>(disk: &[u8], base: usize) -> (words: [u16; N])
    requires
        base + 2 * N <= disk@.len(),
    ensures
        forall|k: int| 0 <= k < N ==> #[trigger] words@[k] == u16_at(disk@, base + 2 * k),
{
    let len: usize = disk.len();
    let mut words: [u16; N] = [0u16; N];
    let mut k: usize = 0;
    while k < N
        invariant
            k <= N,
            base + 2 * N <= len,
            len == disk@.len(),
            forall|j: int| 0 <= j < k ==> #[trigger] words@[j] == u16_at(disk@, base + 2 * j),
        decreases N - k,
    {
        let at: usize = base + 2 * k;
        words[k] = as_u16_be(&disk[at..at + 2]);
        k += 1;
    }
    words
}

/// Decodes the superblock.
pub fn get_superblock(disk: &[u8]) -> (sb: SuperBlock)
    requires
        disk@.len() >= 1024,
    ensures
        is_superblock_of(sb, disk@),
{
    let s_time: [u16; 2] = read_words::<2>(disk, 924);
    SuperBlock {
        s_isize: as_u16_be(&disk[512..514]),
        s_fsize: as_u16_be(&disk[514..516]),
        s_nfree: as_u16_be(&disk[516..518]),
        s_free: read_words::<100>(disk, 518),
        s_ninode: as_u16_be(&disk[718..720]),
        s_inode: read_words::<100>(disk, 720),
        s_flock: disk[920],
        s_ilock: disk[921],
        s_fmod: disk[922],
        s_ronly: disk[923],
        s_time,
    }
}

} // verus!
