//! Directories: the data blocks of a directory inode hold 16-byte entries,
//! each a big-endian inode number and a name of up to 14 bytes.

use vstd::prelude::*;
use vstd::slice::slice_to_vec;
use crate::codec::{as_u16_be, u16_at};
use crate::inode::Inode;

verus! {

/// One entry of a directory: the inode it names, and its name with the
/// padding removed.
#[derive(Clone, Debug, PartialEq, Eq)]
pub struct DirCon {
    /// Index of the inode that the entry names; never zero in a listing.
    pub ino: u16,
    /// The name as raw bytes, at most 14 of them, which need not be text.
    pub name: Vec<u8>,
}

/// A directory entry as a mathematical value.
pub struct DirEntry {
    pub ino: u16,
    pub name: Seq<u8>,
}

impl View for DirCon {
    type V = DirEntry;

    open spec fn view(&self) -> DirEntry {
        DirEntry { ino: self.ino, name: self.name@ }
    }
}

impl DeepView for DirCon {
    type V = DirEntry;

    open spec fn deep_view(&self) -> DirEntry {
        self@
    }
}

/// `field` without its trailing zero bytes.
pub open spec fn trim_nul(field: Seq<u8>) -> Seq<u8>
    decreases field.len(),
{
    if field.len() > 0 && field.last() == 0 {
        trim_nul(field.drop_last())
    } else {
        field
    }
}

/// The directory entry stored in the 16 bytes of `disk` from `at` on.
pub open spec fn entry_at(disk: Seq<u8>, at: int) -> DirEntry {
    DirEntry { ino: u16_at(disk, at), name: trim_nul(disk.subrange(at + 2, at + 16)) }
}

/// Byte offset of entry slot `j` of a directory: the slots of the first
/// address come first, 32 to a block.
pub open spec fn slot_offset(node: Inode, j: int) -> int {
    node.i_addr@[j / 32] as int * 512 + (j % 32) * 16
}

/// Whether entry slot `j` holds an entry: its address slot names a block,
/// and the entry's inode number is not zero.
pub open spec fn slot_live(disk: Seq<u8>, node: Inode, j: int) -> bool {
    node.i_addr@[j / 32] != 0 && u16_at(disk, slot_offset(node, j)) != 0
}

/// The live slots among the first `n` slots of a directory, in rising
/// order.
pub open spec fn live_slots(disk: Seq<u8>, node: Inode, n: int) -> Seq<int> {
    Seq::new(n as nat, |j: int| j).filter(|j: int| slot_live(disk, node, j))
}

/// The entries among the first `n` slots of a directory, in slot order.
pub open spec fn entries_upto(disk: Seq<u8>, node: Inode, n: int) -> Seq<DirEntry> {
    live_slots(disk, node, n).map_values(|j: int| entry_at(disk, slot_offset(node, j)))
}

/// The listing of a directory: the live entries of its 256 slots, by
/// address slot and then by position in the block. Under large addressing
/// the listing is empty.
pub open spec fn dir_entries(disk: Seq<u8>, node: Inode) -> Seq<DirEntry> {
    if node.spec_is_large() {
        Seq::empty()
    } else {
        entries_upto(disk, node, 256)
    }
}

/// One more slot adds itself to the live slots where it is live, and
/// nothing otherwise.
pub proof fn lemma_live_slots_step(disk: Seq<u8>, node: Inode, n: int)
    requires
        0 <= n,
    ensures
        live_slots(disk, node, n + 1) == if slot_live(disk, node, n) {
            live_slots(disk, node, n).push(n)
        } else {
            live_slots(disk, node, n)
        },
{
    let before = Seq::new(n as nat, |j: int| j);
    let after = Seq::new((n + 1) as nat, |j: int| j);
    assert(after =~= before.push(n));
    before.lemma_filter_push(n, |j: int| slot_live(disk, node, j));
}

/// One more slot adds its entry where it is live, and nothing otherwise.
pub proof fn lemma_entries_step(disk: Seq<u8>, node: Inode, n: int)
    requires
        0 <= n,
    ensures
        entries_upto(disk, node, n + 1) == if slot_live(disk, node, n) {
            entries_upto(disk, node, n).push(entry_at(disk, slot_offset(node, n)))
        } else {
            entries_upto(disk, node, n)
        },
{
    lemma_live_slots_step(disk, node, n);
    if slot_live(disk, node, n) {
        assert(entries_upto(disk, node, n + 1) =~= entries_upto(disk, node, n).push(
            entry_at(disk, slot_offset(node, n)),
        ));
    }
}

/// The live slots are live, lie below the bound, and rise strictly.
pub proof fn lemma_live_slots_rise(disk: Seq<u8>, node: Inode, n: int)
    requires
        0 <= n,
    ensures
        forall|a: int|
            0 <= a < live_slots(disk, node, n).len() ==> {
                let j = #[trigger] live_slots(disk, node, n)[a];
                0 <= j < n && slot_live(disk, node, j)
            },
        forall|a: int, b: int|
            0 <= a < b < live_slots(disk, node, n).len() ==> (#[trigger] live_slots(
                disk,
                node,
                n,
            )[a]) < (#[trigger] live_slots(disk, node, n)[b]),
    decreases n,
{
    if n == 0 {
        Seq::new(0, |j: int| j).lemma_filter_len(|j: int| slot_live(disk, node, j));
    } else {
        lemma_live_slots_rise(disk, node, n - 1);
        lemma_live_slots_step(disk, node, n - 1);
    }
}

/// Every live slot below the bound is among the live slots.
pub proof fn lemma_live_slots_complete(disk: Seq<u8>, node: Inode, n: int, j: int)
    requires
        0 <= j < n,
        slot_live(disk, node, j),
    ensures
        live_slots(disk, node, n).contains(j),
    decreases n,
{
    lemma_live_slots_step(disk, node, n - 1);
    if j < n - 1 {
        lemma_live_slots_complete(disk, node, n - 1, j);
        let lower = live_slots(disk, node, n - 1);
        let a = choose|a: int| 0 <= a < lower.len() && lower[a] == j;
        assert(live_slots(disk, node, n)[a] == j);
    } else {
        let last = live_slots(disk, node, n).len() - 1;
        assert(live_slots(disk, node, n)[last] == j);
    }
}

/// No slot holds an entry before the first one.
pub proof fn lemma_entries_none(disk: Seq<u8>, node: Inode)
    ensures
        entries_upto(disk, node, 0) == Seq::<DirEntry>::empty(),
{
    Seq::new(0, |j: int| j).lemma_filter_len(|j: int| slot_live(disk, node, j));
}

/// An address slot of zero contributes no entries.
pub proof fn lemma_entries_skip(disk: Seq<u8>, node: Inode, k: int, s: int)
    requires
        0 <= k < 8,
        0 <= s <= 32,
        node.i_addr@[k] == 0,
    ensures
        entries_upto(disk, node, 32 * k + s) == entries_upto(disk, node, 32 * k),
    decreases s,
{
    if s > 0 {
        lemma_entries_skip(disk, node, k, s - 1);
        lemma_entries_step(disk, node, 32 * k + s - 1);
    }
}

/// Decodes the name field of a directory entry: the 14 bytes without
/// their trailing zero bytes.
pub fn decode_name(field: &[u8]) -> (name: Vec<u8>)
    ensures
        name@ == trim_nul(field@),
{
    let mut n: usize = field.len();
    proof {
        assert(field@.take(n as int) =~= field@);
    }
    while n > 0 && field[n - 1] == 0
        invariant
            n <= field@.len(),
            trim_nul(field@) == trim_nul(field@.take(n as int)),
        decreases n,
    {
        proof {
            assert(field@.take(n as int).drop_last() =~= field@.take(n as int - 1));
        }
        n -= 1;
    }
    slice_to_vec(&field[0..n])
}

/// Lists the entries of a directory in the order in which the image holds
/// them. Free slots, whose inode number is zero, are left out. An inode
/// with large addressing gives an empty listing.
///
/// The inode is read as a directory whether or not its mode says so.
pub fn get_dir_contents(node: &Inode, disk_image: &[u8]) -> (files: Vec<DirCon>)
    requires
        node.spec_blocks_in_image(disk_image@.len() as int),
    ensures
        files.deep_view() == dir_entries(disk_image@, *node),
        forall|k: int| 0 <= k < files@.len() ==> (#[trigger] files@[k]).ino != 0,
{
    let mut files: Vec<DirCon> = Vec::new();
    if node.is_large() {
        return files;
    }
    proof {
        lemma_entries_none(disk_image@, *node);
    }
    let mut k: usize = 0;
    while k < 8
        invariant
            k <= 8,
            !node.spec_is_large(),
            node.spec_blocks_in_image(disk_image@.len() as int),
            files.deep_view() == entries_upto(disk_image@, *node, 32 * k),
            forall|j: int| 0 <= j < files@.len() ==> (#[trigger] files@[j]).ino != 0,
        decreases 8 - k,
    {
        let addr: u16 = node.i_addr[k];
        if addr != 0 {
            let base: usize = (addr as usize) * 512;
            let mut s: usize = 0;
            while s < 32
                invariant
                    s <= 32,
                    k < 8,
                    addr == node.i_addr@[k as int],
                    addr != 0,
                    base == addr as int * 512,
                    base + 512 <= disk_image@.len(),
                    files.deep_view() == entries_upto(disk_image@, *node, 32 * k + s),
                    forall|j: int| 0 <= j < files@.len() ==> (#[trigger] files@[j]).ino != 0,
                decreases 32 - s,
            {
                let at: usize = base + s * 16;
                let ino: u16 = as_u16_be(&disk_image[at..at + 2]);
                proof {
                    lemma_entries_step(disk_image@, *node, 32 * k + s);
                }
                if ino != 0 {
                    files.push(DirCon { ino, name: decode_name(&disk_image[at + 2..at + 16]) });
                }
                s += 1;
            }
        } else {
            proof {
                lemma_entries_skip(disk_image@, *node, k as int, 32);
            }
        }
        k += 1;
    }
    files
}

/// The order of a listing: entry `a` of the listing is the entry of a live
/// slot, and of two entries the earlier one comes from the lower slot, so
/// from an earlier address slot or from an earlier place in the same
/// block. No entry has inode number zero.
pub proof fn lemma_listing_order(disk: Seq<u8>, node: Inode)
    requires
        !node.spec_is_large(),
    ensures
        dir_entries(disk, node).len() == live_slots(disk, node, 256).len(),
        forall|a: int|
            0 <= a < dir_entries(disk, node).len() ==> {
                let j = live_slots(disk, node, 256)[a];
                &&& 0 <= j < 256
                &&& slot_live(disk, node, j)
                &&& (#[trigger] dir_entries(disk, node)[a]) == entry_at(disk, slot_offset(node, j))
                &&& dir_entries(disk, node)[a].ino != 0
            },
        forall|a: int, b: int|
            0 <= a < b < dir_entries(disk, node).len() ==> (#[trigger] live_slots(
                disk,
                node,
                256,
            )[a]) < (#[trigger] live_slots(disk, node, 256)[b]),
{
    lemma_live_slots_rise(disk, node, 256);
}

/// A listing holds no entry whose inode number is zero.
pub proof fn lemma_listing_nonzero(disk: Seq<u8>, node: Inode, a: int)
    requires
        0 <= a < dir_entries(disk, node).len(),
    ensures
        dir_entries(disk, node)[a].ino != 0,
{
    lemma_listing_order(disk, node);
}

/// A listing holds the entry of every live slot.
pub proof fn lemma_listing_complete(disk: Seq<u8>, node: Inode, j: int)
    requires
        !node.spec_is_large(),
        0 <= j < 256,
        slot_live(disk, node, j),
    ensures
        dir_entries(disk, node).contains(entry_at(disk, slot_offset(node, j))),
{
    lemma_live_slots_complete(disk, node, 256, j);
    let live = live_slots(disk, node, 256);
    let a = choose|a: int| 0 <= a < live.len() && live[a] == j;
    assert(dir_entries(disk, node)[a] == entry_at(disk, slot_offset(node, j)));
}

/// A listing under large addressing is empty.
pub proof fn lemma_listing_large(disk: Seq<u8>, node: Inode)
    requires
        node.spec_is_large(),
    ensures
        dir_entries(disk, node) == Seq::<DirEntry>::empty(),
{
}

} // verus!
