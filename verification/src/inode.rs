//! Inode records: 32 bytes each, stored from byte 1024 of the image on and
//! numbered from 1.

use vstd::prelude::*;
use crate::codec::{as_i32_be, as_u16_be, i32_at, u16_at};
use crate::error::FsError;
use crate::superblock::inode_count;

verus! {

/// Mode bit that marks a directory.
pub const IFDIR: u16 = 0x8000;

/// Mode bit that marks large addressing: the address slots then hold
/// indirect blocks, which this decoder does not follow.
pub const ILARG: u16 = 0x1000;

/// Index of the root directory's inode.
pub const ROOT_INO: u16 = 1;

/// One decoded inode record.
#[derive(Clone, Copy, Debug, PartialEq, Eq)]
pub struct Inode {
    /// Type and permission bits.
    pub i_mode: u16,
    /// Number of directory entries that name this inode.
    pub i_nlink: u8,
    /// Owner.
    pub i_uid: u8,
    /// Group.
    pub i_gid: u8,
    /// High byte of the 24-bit size.
    pub i_size0: u8,
    /// Low word of the 24-bit size.
    pub i_size1: u16,
    /// Block numbers of the data; zero marks an unused slot.
    pub i_addr: [u16; 8],
    /// Time of the last access.
    pub i_atime: i32,
    /// Time of the last change.
    pub i_mtime: i32,
}

/// Byte offset of the record of inode `i`, for `i >= 1`.
pub open spec fn inode_offset(i: int) -> int {
    1024 + 32 * (i - 1)
}

/// Whether the record of inode `i` lies inside an image of `len` bytes.
pub open spec fn inode_in_image(i: int, len: int) -> bool {
    1 <= i && inode_offset(i) + 32 <= len
}

/// The inode that a 32-byte record encodes.
pub open spec fn inode_of_record(rec: Seq<u8>) -> Inode {
    Inode {
        i_mode: u16_at(rec, 0),
        i_nlink: rec[2],
        i_uid: rec[3],
        i_gid: rec[4],
        i_size0: rec[5],
        i_size1: u16_at(rec, 6),
        i_addr: [
            u16_at(rec, 8),
            u16_at(rec, 10),
            u16_at(rec, 12),
            u16_at(rec, 14),
            u16_at(rec, 16),
            u16_at(rec, 18),
            u16_at(rec, 20),
            u16_at(rec, 22),
        ],
        i_atime: i32_at(rec, 24),
        i_mtime: i32_at(rec, 28),
    }
}

/// The inode with index `i` of the image `disk`.
pub open spec fn inode_at(disk: Seq<u8>, i: int) -> Inode {
    inode_of_record(disk.subrange(inode_offset(i), inode_offset(i) + 32))
}

/// The letter for one permission bit: `letter` where `mode` has the bit
/// `bit`, a dash where it has not.
pub open spec fn permission_flag(mode: u16, bit: u16, letter: char) -> char {
    if mode & bit == 0 {
        '-'
    } else {
        letter
    }
}

/// The nine permission letters of `mode`: read, write and execute for the
/// owner, then for the group, then for everybody else.
pub open spec fn permission_chars(mode: u16) -> Seq<char> {
    seq![
        permission_flag(mode, 0o400, 'r'),
        permission_flag(mode, 0o200, 'w'),
        permission_flag(mode, 0o100, 'x'),
        permission_flag(mode, 0o040, 'r'),
        permission_flag(mode, 0o020, 'w'),
        permission_flag(mode, 0o010, 'x'),
        permission_flag(mode, 0o004, 'r'),
        permission_flag(mode, 0o002, 'w'),
        permission_flag(mode, 0o001, 'x'),
    ]
}

/// Appends to `out` the letter for one permission bit.
fn push_flag(out: &mut String, mode: u16, bit: u16, letter: &str)
    requires
        letter@.len() == 1,
    ensures
        final(out)@ == old(out)@.push(permission_flag(mode, bit, letter@[0])),
{
    proof {
        reveal_strlit("-");
    }
    if mode & bit == 0 {
        out.append("-");
    } else {
        out.append(letter);
    }
}

impl Inode {
    /// The length in bytes: 24 bits, the high byte in `i_size0`.
    pub open spec fn spec_size(&self) -> int {
        self.i_size0 as int * 65536 + self.i_size1 as int
    }

    /// Whether the mode marks a directory.
    pub open spec fn spec_is_dir(&self) -> bool {
        self.i_mode & IFDIR != 0
    }

    /// Whether the mode marks large addressing.
    pub open spec fn spec_is_large(&self) -> bool {
        self.i_mode & ILARG != 0
    }

    /// Whether every block that the address slots name lies inside an
    /// image of `len` bytes. A zero slot names no block, and under large
    /// addressing no slot is read.
    pub open spec fn spec_blocks_in_image(&self, len: int) -> bool {
        self.spec_is_large() || forall|k: int|
            0 <= k < 8 ==> (#[trigger] self.i_addr@[k]) as int * 512 + 512 <= len
                || self.i_addr@[k] == 0
    }

    /// The length of the file or directory in bytes.
    pub fn size(&self) -> (n: u32)
        ensures
            n as int == self.spec_size(),
            n < 0x100_0000,
    {
        (self.i_size0 as u32) * 65536 + (self.i_size1 as u32)
    }

    /// The permission bits as nine letters, such as `rwxr-xr-x`.
    pub fn permission(&self) -> (text: String)
        ensures
            text@ == permission_chars(self.i_mode),
    {
        proof {
            reveal_strlit("r");
            reveal_strlit("w");
            reveal_strlit("x");
        }
        let mut text = String::new();
        push_flag(&mut text, self.i_mode, 0o400, "r");
        push_flag(&mut text, self.i_mode, 0o200, "w");
        push_flag(&mut text, self.i_mode, 0o100, "x");
        push_flag(&mut text, self.i_mode, 0o040, "r");
        push_flag(&mut text, self.i_mode, 0o020, "w");
        push_flag(&mut text, self.i_mode, 0o010, "x");
        push_flag(&mut text, self.i_mode, 0o004, "r");
        push_flag(&mut text, self.i_mode, 0o002, "w");
        push_flag(&mut text, self.i_mode, 0o001, "x");
        text
    }

    /// Whether the inode is a directory.
    pub fn is_dir(&self) -> (b: bool)
        ensures
            b == self.spec_is_dir(),
    {
        self.i_mode & IFDIR != 0
    }

    /// Whether the inode uses large addressing.
    pub fn is_large(&self) -> (b: bool)
        ensures
            b == self.spec_is_large(),
    {
        self.i_mode & ILARG != 0
    }

    /// Whether a directory listing of this inode stays inside an image of
    /// `len` bytes.
    pub fn blocks_in_image(&self, len: usize) -> (b: bool)
        ensures
            b == self.spec_blocks_in_image(len as int),
    {
        if self.is_large() {
            return true;
        }
        let mut k: usize = 0;
        while k < 8
            invariant
                k <= 8,
                !self.spec_is_large(),
                forall|j: int|
                    0 <= j < k ==> (#[trigger] self.i_addr@[j]) as int * 512 + 512 <= len
                        || self.i_addr@[j] == 0,
            decreases 8 - k,
        {
            let addr: u16 = self.i_addr[k];
            if addr != 0 && (addr as u64) * 512 + 512 > len as u64 {
                return false;
            }
            k += 1;
        }
        true
    }
}

/// Whether `i` is an inode index that the image declares and holds: at
/// least 1, at most the superblock's inode count, its record inside the
/// image.
pub open spec fn valid_inode(disk: Seq<u8>, i: int) -> bool {
    1 <= i <= inode_count(disk) && inode_in_image(i, disk.len() as int)
}

/// Decodes the inode with index `i`. The index is not held to the
/// superblock's inode count: any record inside the image is decoded.
pub fn get_inode(i: u16, disk: &[u8]) -> (node: Inode)
    requires
        inode_in_image(i as int, disk@.len() as int),
    ensures
        node == inode_at(disk@, i as int),
{
    let offset: usize = 1024 + 32 * ((i - 1) as usize);
    let rec = &disk[offset..offset + 32];
    Inode {
        i_mode: as_u16_be(&rec[0..2]),
        i_nlink: rec[2],
        i_uid: rec[3],
        i_gid: rec[4],
        i_size0: rec[5],
        i_size1: as_u16_be(&rec[6..8]),
        i_addr: [
            as_u16_be(&rec[8..10]),
            as_u16_be(&rec[10..12]),
            as_u16_be(&rec[12..14]),
            as_u16_be(&rec[14..16]),
            as_u16_be(&rec[16..18]),
            as_u16_be(&rec[18..20]),
            as_u16_be(&rec[20..22]),
            as_u16_be(&rec[22..24]),
        ],
        i_atime: as_i32_be(&rec[24..28]),
        i_mtime: as_i32_be(&rec[28..32]),
    }
}

/// Whether the record of inode `i` lies inside an image of `len` bytes.
pub fn inode_fits(i: u16, len: usize) -> (b: bool)
    ensures
        b == inode_in_image(i as int, len as int),
{
    i >= 1 && 1024 + 32 * (i as u64) <= len as u64
}

/// Decodes the inode with index `i` after checking the index against the
/// superblock's inode count and the image's length.
pub fn decode_inode(i: u16, disk: &[u8]) -> (r: Result<Inode, FsError>)
    ensures
        valid_inode(disk@, i as int) ==> r == Ok::<Inode, FsError>(inode_at(disk@, i as int)),
        !valid_inode(disk@, i as int) ==> r == Err::<Inode, FsError>(FsError::InvalidInode),
{
    let len: usize = disk.len();
    if len < 1024 || i == 0 {
        return Err(FsError::InvalidInode);
    }
    let isize: u16 = as_u16_be(&disk[512..514]);
    if (i as u64) > (isize as u64) * 16 || 1024 + 32 * (i as u64) > len as u64 {
        return Err(FsError::InvalidInode);
    }
    Ok(get_inode(i, disk))
}

/// Where each field of inode `i` lies in the image: the record starts at
/// byte `1024 + 32 * (i - 1)`, and holds the mode, the link count, the
/// owner, the group, the high byte and the low word of the size, eight
/// addresses and two times, in this order.
pub proof fn lemma_inode_layout(disk: Seq<u8>, i: int)
    requires
        inode_in_image(i, disk.len() as int),
    ensures
        ({
            let at = 1024 + 32 * (i - 1);
            let node = inode_at(disk, i);
            &&& node.i_mode == u16_at(disk, at)
            &&& node.i_nlink == disk[at + 2]
            &&& node.i_uid == disk[at + 3]
            &&& node.i_gid == disk[at + 4]
            &&& node.i_size0 == disk[at + 5]
            &&& node.i_size1 == u16_at(disk, at + 6)
            &&& forall|k: int| 0 <= k < 8 ==> #[trigger] node.i_addr@[k] == u16_at(disk, at + 8 + 2 * k)
            &&& node.i_atime == i32_at(disk, at + 24)
            &&& node.i_mtime == i32_at(disk, at + 28)
        }),
{
}

/// Decoding an inode reads its own record and nothing else: two images
/// that agree on the 32 bytes of inode `i` give the same inode. So
/// decoding again, from the same image or from a copy of the record,
/// gives the same record.
pub proof fn lemma_inode_reads_record(a: Seq<u8>, b: Seq<u8>, i: int)
    requires
        inode_in_image(i, a.len() as int),
        inode_in_image(i, b.len() as int),
        forall|at: int| inode_offset(i) <= at < inode_offset(i) + 32 ==> a[at] == b[at],
    ensures
        inode_at(a, i) == inode_at(b, i),
        inode_at(a, i) == inode_of_record(a.subrange(inode_offset(i), inode_offset(i) + 32)),
{
    assert(a.subrange(inode_offset(i), inode_offset(i) + 32) =~= b.subrange(
        inode_offset(i),
        inode_offset(i) + 32,
    ));
}

/// The records of two different inodes do not overlap.
pub proof fn lemma_inode_records_apart(i: int, j: int)
    requires
        1 <= i < j,
    ensures
        inode_offset(i) + 32 <= inode_offset(j),
{
}

/// A size is the 24-bit number whose high byte is `i_size0` and whose low
/// word is `i_size1`.
pub proof fn lemma_size_is_24_bits(node: Inode)
    ensures
        0 <= node.spec_size() < 0x100_0000,
        node.spec_size() / 0x1_0000 == node.i_size0,
        node.spec_size() % 0x1_0000 == node.i_size1,
{
}

/// An inode is a directory exactly where the top bit of its mode is set.
pub proof fn lemma_is_dir_top_bit(node: Inode)
    ensures
        node.spec_is_dir() <==> node.i_mode >= 0x8000,
{
    let mode = node.i_mode;
    assert((mode & 0x8000 != 0) <==> mode >= 0x8000) by (bit_vector);
}

} // verus!
