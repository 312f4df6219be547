//! Directory listings as lines of text.

use vstd::prelude::*;
use vstd::string::StringSliceAdditionalSpecFns;
use crate::dir::{dir_entries, get_dir_contents, DirCon, DirEntry};
use crate::error::FsError;
use crate::inode::{get_inode, inode_at, inode_fits, inode_in_image, permission_chars, Inode};

verus! {

/// The decimal digits of `n` in ASCII, without leading zeros.
pub open spec fn decimal(n: nat) -> Seq<u8>
    decreases n,
{
    if n < 10 {
        seq![(0x30 + n) as u8]
    } else {
        decimal(n / 10).push((0x30 + n % 10) as u8)
    }
}

/// `text` with spaces put before it until it is `width` bytes long.
pub open spec fn pad_left(text: Seq<u8>, width: nat) -> Seq<u8> {
    if text.len() >= width {
        text
    } else {
        Seq::new((width - text.len()) as nat, |i: int| 0x20u8) + text
    }
}

/// The bytes of a run of ASCII characters.
pub open spec fn ascii_bytes(chars: Seq<char>) -> Seq<u8> {
    Seq::new(chars.len(), |i: int| chars[i] as u8)
}

/// The line of a detailed listing for `entry`, whose inode is `node`: `d`
/// for a directory and a dash for anything else, the nine permission
/// letters, a space, the size in decimal right-aligned in ten columns, a
/// space, and the name.
pub open spec fn listing_line(entry: DirEntry, node: Inode) -> Seq<u8> {
    seq![if node.spec_is_dir() { 0x64u8 } else { 0x2du8 }] + ascii_bytes(
        permission_chars(node.i_mode),
    ) + seq![0x20u8] + pad_left(decimal(node.spec_size() as nat), 10) + seq![0x20u8] + entry.name
}

/// Whether a listing can be made: a plain one always, a detailed one where
/// the inode record of every entry lies inside the image.
pub open spec fn can_list(disk: Seq<u8>, node: Inode, detailed: bool) -> bool {
    detailed ==> forall|k: int|
        0 <= k < dir_entries(disk, node).len() ==> inode_in_image(
            (#[trigger] dir_entries(disk, node)[k]).ino as int,
            disk.len() as int,
        )
}

/// The lines of a listing, one for each entry of the directory, in the
/// directory's order: the name alone in a plain listing, the detailed line
/// otherwise.
pub open spec fn listing(disk: Seq<u8>, node: Inode, detailed: bool) -> Seq<Seq<u8>> {
    dir_entries(disk, node).map_values(
        |e: DirEntry|
            if detailed {
                listing_line(e, inode_at(disk, e.ino as int))
            } else {
                e.name
            },
    )
}

/// Writes `n` in decimal.
pub fn decimal_digits(n: u32) -> (digits: Vec<u8>)
    ensures
        digits@ == decimal(n as nat),
{
    let mut digits: Vec<u8> = Vec::new();
    digits.push(0x30 + (n % 10) as u8);
    let mut rest: u32 = n / 10;
    assert(decimal(n as nat) =~= if rest > 0 {
        decimal(rest as nat)
    } else {
        Seq::<u8>::empty()
    } + digits@);
    while rest > 0
        invariant
            decimal(n as nat) == if rest > 0 {
                decimal(rest as nat)
            } else {
                Seq::<u8>::empty()
            } + digits@,
        decreases rest,
    {
        digits.insert(0, 0x30 + (rest % 10) as u8);
        proof {
            let next = rest / 10;
            assert(decimal(rest as nat) =~= if next > 0 {
                decimal(next as nat)
            } else {
                Seq::<u8>::empty()
            } + seq![(0x30 + rest % 10) as u8]);
        }
        rest = rest / 10;
    }
    digits
}

/// Renders the line of a detailed listing for `entry`, whose inode is
/// `inode`.
pub fn format_listing_entry(entry: &DirCon, inode: &Inode) -> (line: Vec<u8>)
    ensures
        line@ == listing_line(entry@, *inode),
{
    let mut line: Vec<u8> = Vec::new();
    line.push(if inode.is_dir() { 0x64 } else { 0x2d });
    let permission = inode.permission();
    let letters = permission.as_str();
    proof {
        vstd::string::is_ascii_spec_bytes(letters);
    }
    line.extend_from_slice(letters.as_bytes());
    line.push(0x20);
    let digits = decimal_digits(inode.size());
    let ghost head = line@;
    let mut width: usize = digits.len();
    while width < 10
        invariant
            digits@.len() <= width,
            line@ == head + Seq::new((width - digits@.len()) as nat, |i: int| 0x20u8),
            digits@.len() < 10 ==> width <= 10,
            digits@.len() >= 10 ==> width == digits@.len(),
        decreases 10 - width,
    {
        line.push(0x20);
        width += 1;
    }
    line.extend_from_slice(digits.as_slice());
    assert(line@ =~= head + pad_left(digits@, 10));
    line.push(0x20);
    line.extend_from_slice(entry.name.as_slice());
    line
}

/// Lists a directory as lines of text, without line ends: the names alone,
/// or with `l_option` one detailed line for each entry.
///
/// A detailed listing decodes the inode of every entry, and fails with
/// `InvalidInode` where the record of one of them lies outside the image.
pub fn ls(current_node: &Inode, disk_image: &[u8], l_option: bool) -> (r: Result<
    Vec<Vec<u8>>,
    FsError,
>)
    requires
        current_node.spec_blocks_in_image(disk_image@.len() as int),
    ensures
        can_list(disk_image@, *current_node, l_option) ==> r.is_ok() && r.unwrap().deep_view()
            == listing(disk_image@, *current_node, l_option),
        !can_list(disk_image@, *current_node, l_option) ==> r == Err::<Vec<Vec<u8>>, FsError>(
            FsError::InvalidInode,
        ),
{
    let files = get_dir_contents(current_node, disk_image);
    let ghost entries = dir_entries(disk_image@, *current_node);
    let mut lines: Vec<Vec<u8>> = Vec::new();
    let mut i: usize = 0;
    while i < files.len()
        invariant
            i <= files@.len(),
            files.deep_view() == entries,
            entries == dir_entries(disk_image@, *current_node),
            lines.deep_view() == listing(disk_image@, *current_node, l_option).take(i as int),
            l_option ==> forall|k: int|
                0 <= k < i ==> inode_in_image(
                    (#[trigger] entries[k]).ino as int,
                    disk_image@.len() as int,
                ),
        decreases files@.len() - i,
    {
        let ghost before = lines.deep_view();
        assert(entries[i as int] == files@[i as int]@);
        let line = if l_option {
            if !inode_fits(files[i].ino, disk_image.len()) {
                return Err(FsError::InvalidInode);
            }
            format_listing_entry(&files[i], &get_inode(files[i].ino, disk_image))
        } else {
            files[i].name.clone()
        };
        lines.push(line);
        assert(lines.deep_view() =~~= before.push(line@));
        i += 1;
    }
    assert(listing(disk_image@, *current_node, l_option).take(i as int) =~= listing(
        disk_image@,
        *current_node,
        l_option,
    ));
    Ok(lines)
}

} // verus!
