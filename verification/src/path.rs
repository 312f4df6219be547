//! Path resolution: following names from directory to directory.

use vstd::prelude::*;
use vstd::string::StringSliceAdditionalSpecFns;
use crate::dir::{dir_entries, get_dir_contents, DirCon, DirEntry};
use crate::error::FsError;
use crate::inode::{get_inode, inode_at, inode_fits, inode_in_image, ROOT_INO};

verus! {

/// The byte that separates the components of a path.
pub const SEPARATOR: u8 = 0x2f;

/// The inode number of the first entry called `name`, if there is one.
pub open spec fn lookup(entries: Seq<DirEntry>, name: Seq<u8>) -> Option<u16>
    decreases entries.len(),
{
    if entries.len() == 0 {
        None
    } else if entries[0].name == name {
        Some(entries[0].ino)
    } else {
        lookup(entries.drop_first(), name)
    }
}

/// One step of a walk: from the directory with index `cur` into its entry
/// called `name`.
///
/// The step fails where the record of `cur` or one of its blocks lies
/// outside the image, where no entry has the name, and where the first
/// entry with the name has its record outside the image or is no
/// directory. No index is held to the superblock's inode count.
pub open spec fn enter(disk: Seq<u8>, cur: u16, name: Seq<u8>) -> Result<u16, FsError> {
    if !inode_in_image(cur as int, disk.len() as int) {
        Err(FsError::InvalidInode)
    } else if !inode_at(disk, cur as int).spec_blocks_in_image(disk.len() as int) {
        Err(FsError::InvalidBlock)
    } else {
        match lookup(dir_entries(disk, inode_at(disk, cur as int)), name) {
            None => Err(FsError::NotFound),
            Some(ino) => if !inode_in_image(ino as int, disk.len() as int) {
                Err(FsError::InvalidInode)
            } else if !inode_at(disk, ino as int).spec_is_dir() {
                Err(FsError::NotADirectory)
            } else {
                Ok(ino)
            },
        }
    }
}

/// The directory that the walk along `path` ends in, started at the inode
/// with index `start`; the first step that fails ends the walk with its
/// error.
pub open spec fn resolve(disk: Seq<u8>, start: u16, path: Seq<Seq<u8>>) -> Result<u16, FsError>
    decreases path.len(),
{
    if path.len() == 0 {
        Ok(start)
    } else {
        match enter(disk, start, path[0]) {
            Err(e) => Err(e),
            Ok(next) => resolve(disk, next, path.drop_first()),
        }
    }
}

/// Whether two byte strings are equal.
pub fn same_bytes(a: &[u8], b: &[u8]) -> (eq: bool)
    ensures
        eq == (a@ == b@),
{
    if a.len() != b.len() {
        return false;
    }
    let mut i: usize = 0;
    while i < a.len()
        invariant
            i <= a@.len(),
            a@.len() == b@.len(),
            forall|j: int| 0 <= j < i ==> a@[j] == b@[j],
        decreases a@.len() - i,
    {
        if a[i] != b[i] {
            return false;
        }
        i += 1;
    }
    assert(a@ =~= b@);
    true
}

/// Finds the inode number of the first entry called `name`.
pub fn find_entry(files: &Vec<DirCon>, name: &[u8]) -> (found: Option<u16>)
    ensures
        found == lookup(files.deep_view(), name@),
{
    let ghost entries = files.deep_view();
    let mut i: usize = 0;
    assert(entries.skip(0) =~= entries);
    while i < files.len()
        invariant
            i <= files@.len(),
            entries == files.deep_view(),
            lookup(entries, name@) == lookup(entries.skip(i as int), name@),
        decreases files@.len() - i,
    {
        proof {
            assert(entries.skip(i as int).drop_first() =~= entries.skip(i as int + 1));
        }
        if same_bytes(files[i].name.as_slice(), name) {
            return Some(files[i].ino);
        }
        i += 1;
    }
    None
}

/// Takes one step of a walk: from the directory with index `cur` into its
/// entry called `name`.
pub fn enter_dir(cur: u16, name: &[u8], disk_image: &[u8]) -> (r: Result<u16, FsError>)
    ensures
        r == enter(disk_image@, cur, name@),
{
    if !inode_fits(cur, disk_image.len()) {
        return Err(FsError::InvalidInode);
    }
    let node = get_inode(cur, disk_image);
    if !node.blocks_in_image(disk_image.len()) {
        return Err(FsError::InvalidBlock);
    }
    let files = get_dir_contents(&node, disk_image);
    match find_entry(&files, name) {
        None => Err(FsError::NotFound),
        Some(ino) => if !inode_fits(ino, disk_image.len()) {
            Err(FsError::InvalidInode)
        } else if get_inode(ino, disk_image).is_dir() {
            Ok(ino)
        } else {
            Err(FsError::NotADirectory)
        },
    }
}

/// Walks along `dest`, one name at a time, from the directory with index
/// `start`, and returns the index of the directory in which the walk ends.
///
/// Every name must lead to a directory, the last one too. An empty `dest`
/// gives `start` back and reads nothing.
pub fn try_to_cd(start: u16, dest: Vec<&[u8]>, disk_image: &[u8]) -> (r: Result<u16, FsError>)
    ensures
        r == resolve(disk_image@, start, dest.deep_view()),
{
    let ghost path = dest.deep_view();
    let mut cur: u16 = start;
    let mut i: usize = 0;
    assert(path.skip(0) =~= path);
    while i < dest.len()
        invariant
            i <= dest@.len(),
            path == dest.deep_view(),
            resolve(disk_image@, start, path) == resolve(disk_image@, cur, path.skip(i as int)),
        decreases dest@.len() - i,
    {
        proof {
            assert(path.skip(i as int).drop_first() =~= path.skip(i as int + 1));
            assert(path.skip(i as int)[0] == dest@[i as int]@);
        }
        match enter_dir(cur, dest[i], disk_image) {
            Err(e) => {
                return Err(e);
            },
            Ok(next) => {
                cur = next;
            },
        }
        i += 1;
    }
    Ok(cur)
}

/// The components of a path: its maximal runs of bytes other than the
/// separator, in order. Repeated, leading and trailing separators give no
/// component.
pub open spec fn path_components(path: Seq<u8>) -> Seq<Seq<u8>>
    decreases path.len(),
{
    if path.len() == 0 {
        Seq::empty()
    } else {
        let before = path_components(path.drop_last());
        if path.last() == SEPARATOR {
            before
        } else if path.len() >= 2 && path[path.len() - 2] != SEPARATOR {
            before.drop_last().push(before.last().push(path.last()))
        } else {
            before.push(seq![path.last()])
        }
    }
}

/// Whether a path starts at the root: its first byte is the separator.
pub open spec fn is_absolute(path: Seq<u8>) -> bool {
    path.len() > 0 && path[0] == SEPARATOR
}

/// Splits a path into its components.
pub fn split_path(path: &[u8]) -> (parts: Vec<&[u8]>)
    ensures
        parts.deep_view() == path_components(path@),
{
    let mut parts: Vec<&[u8]> = Vec::new();
    let mut start: usize = 0;
    let mut i: usize = 0;
    while i < path.len()
        invariant
            start <= i <= path@.len(),
            start < i ==> path@[i - 1] != SEPARATOR,
            start == i ==> i == 0 || path@[i - 1] == SEPARATOR,
            path_components(path@.take(i as int)) == if start < i {
                parts.deep_view().push(path@.subrange(start as int, i as int))
            } else {
                parts.deep_view()
            },
        decreases path@.len() - i,
    {
        let ghost closed = parts.deep_view();
        proof {
            assert(path@.take(i + 1).drop_last() =~= path@.take(i as int));
        }
        if path[i] == SEPARATOR {
            if start < i {
                parts.push(&path[start..i]);
                assert(parts.deep_view() =~~= closed.push(path@.subrange(start as int, i as int)));
            }
            start = i + 1;
        } else {
            proof {
                if start < i {
                    let open = path@.subrange(start as int, i as int);
                    assert(open.push(path@[i as int]) =~= path@.subrange(start as int, i + 1));
                } else {
                    assert(seq![path@[i as int]] =~= path@.subrange(start as int, i + 1));
                }
            }
        }
        i += 1;
    }
    proof {
        assert(path@.take(i as int) =~= path@);
    }
    if start < i {
        let ghost closed = parts.deep_view();
        parts.push(&path[start..i]);
        assert(parts.deep_view() =~~= closed.push(path@.subrange(start as int, i as int)));
    }
    parts
}

/// The directory that a path leads to: from the root where the path is
/// absolute, from `current` where it is not.
pub open spec fn destination(disk: Seq<u8>, current: u16, path: Seq<u8>) -> Result<u16, FsError> {
    resolve(disk, if is_absolute(path) { ROOT_INO } else { current }, path_components(path))
}

/// Changes directory: follows the path `dest` from the root where it
/// starts with a separator, and from the directory with index `current_ino`
/// where it does not. Returns the index of the directory reached.
pub fn cd(current_ino: u16, dest: &str, disk_image: &[u8]) -> (r: Result<u16, FsError>)
    ensures
        r == destination(disk_image@, current_ino, dest.spec_bytes()),
{
    let path = dest.as_bytes();
    let start: u16 = if path.len() > 0 && path[0] == SEPARATOR {
        ROOT_INO
    } else {
        current_ino
    };
    try_to_cd(start, split_path(path), disk_image)
}

/// A lookup finds the first entry with the name: where entry `k` has the
/// name and no entry before it has, the lookup gives the inode number of
/// entry `k`.
pub proof fn lemma_lookup_first(entries: Seq<DirEntry>, name: Seq<u8>, k: int)
    requires
        0 <= k < entries.len(),
        entries[k].name == name,
        forall|j: int| 0 <= j < k ==> (#[trigger] entries[j]).name != name,
    ensures
        lookup(entries, name) == Some(entries[k].ino),
    decreases k,
{
    if k > 0 {
        let rest = entries.drop_first();
        assert forall|j: int| 0 <= j < k - 1 implies (#[trigger] rest[j]).name != name by {
            assert(rest[j] == entries[j + 1]);
        }
        lemma_lookup_first(rest, name, k - 1);
    }
}

/// A lookup finds nothing exactly where no entry has the name.
pub proof fn lemma_lookup_none(entries: Seq<DirEntry>, name: Seq<u8>)
    ensures
        lookup(entries, name).is_none() <==> forall|j: int|
            0 <= j < entries.len() ==> (#[trigger] entries[j]).name != name,
    decreases entries.len(),
{
    if entries.len() > 0 {
        let rest = entries.drop_first();
        lemma_lookup_none(rest, name);
        if entries[0].name != name {
            if lookup(entries, name).is_none() {
                assert forall|j: int| 0 <= j < entries.len() implies (#[trigger] entries[j]).name
                    != name by {
                    if j > 0 {
                        assert(rest[j - 1] == entries[j]);
                    }
                }
            } else {
                let j = choose|j: int| 0 <= j < rest.len() && (#[trigger] rest[j]).name == name;
                assert(entries[j + 1] == rest[j]);
            }
        }
    }
}

/// What a lookup finds is the inode number of an entry with the name,
/// before which no entry has the name.
pub proof fn lemma_lookup_some(entries: Seq<DirEntry>, name: Seq<u8>) -> (k: int)
    requires
        lookup(entries, name).is_some(),
    ensures
        0 <= k < entries.len(),
        entries[k].name == name,
        lookup(entries, name) == Some(entries[k].ino),
        forall|j: int| 0 <= j < k ==> (#[trigger] entries[j]).name != name,
    decreases entries.len(),
{
    if entries[0].name == name {
        0
    } else {
        let rest = entries.drop_first();
        let k = lemma_lookup_some(rest, name);
        assert forall|j: int| 0 <= j < k + 1 implies (#[trigger] entries[j]).name != name by {
            if j > 0 {
                assert(rest[j - 1] == entries[j]);
            }
        }
        k + 1
    }
}

/// A walk along no name at all ends where it starts, whatever the image
/// holds, even an image with no bytes: nothing of it is read.
pub proof fn lemma_resolve_empty(disk: Seq<u8>, start: u16)
    ensures
        resolve(disk, start, Seq::empty()) == Ok::<u16, FsError>(start),
{
}

/// A walk along several names is the walk along the first ones, and from
/// where that ends the walk along the others.
pub proof fn lemma_resolve_concat(disk: Seq<u8>, start: u16, head: Seq<Seq<u8>>, tail: Seq<Seq<u8>>)
    ensures
        resolve(disk, start, head + tail) == match resolve(disk, start, head) {
            Err(e) => Err(e),
            Ok(mid) => resolve(disk, mid, tail),
        },
    decreases head.len(),
{
    if head.len() == 0 {
        assert(head + tail =~= tail);
    } else {
        assert((head + tail).drop_first() =~= head.drop_first() + tail);
        match enter(disk, start, head[0]) {
            Err(e) => {},
            Ok(next) => {
                lemma_resolve_concat(disk, next, head.drop_first(), tail);
            },
        }
    }
}

/// A walk along one name is one step.
pub proof fn lemma_resolve_one(disk: Seq<u8>, start: u16, name: Seq<u8>)
    ensures
        resolve(disk, start, seq![name]) == enter(disk, start, name),
{
    assert(seq![name].drop_first() =~= Seq::<Seq<u8>>::empty());
    match enter(disk, start, name) {
        Err(e) => {},
        Ok(next) => {
            lemma_resolve_empty(disk, next);
        },
    }
}

/// Entering a directory by name: where entry `k` of the directory `start`
/// is the first with the name `name` and its inode, whose record lies in
/// the image, is a directory, the walk along `name` ends in that inode.
pub proof fn lemma_resolve_directory(disk: Seq<u8>, start: u16, name: Seq<u8>, k: int)
    requires
        inode_in_image(start as int, disk.len() as int),
        inode_at(disk, start as int).spec_blocks_in_image(disk.len() as int),
        0 <= k < dir_entries(disk, inode_at(disk, start as int)).len(),
        dir_entries(disk, inode_at(disk, start as int))[k].name == name,
        forall|j: int|
            0 <= j < k ==> (#[trigger] dir_entries(disk, inode_at(disk, start as int))[j]).name
                != name,
        inode_in_image(
            dir_entries(disk, inode_at(disk, start as int))[k].ino as int,
            disk.len() as int,
        ),
        inode_at(
            disk,
            dir_entries(disk, inode_at(disk, start as int))[k].ino as int,
        ).spec_is_dir(),
    ensures
        resolve(disk, start, seq![name]) == Ok::<u16, FsError>(
            dir_entries(disk, inode_at(disk, start as int))[k].ino,
        ),
{
    lemma_lookup_first(dir_entries(disk, inode_at(disk, start as int)), name, k);
    lemma_resolve_one(disk, start, name);
}

/// A name that is missing: where the walk along `name` ends in a directory
/// that can be listed and none of whose entries is called `missing`, the
/// walk along `name` and then `missing` fails with `NotFound`.
pub proof fn lemma_resolve_missing(
    disk: Seq<u8>,
    start: u16,
    name: Seq<u8>,
    missing: Seq<u8>,
    ino: u16,
)
    requires
        resolve(disk, start, seq![name]) == Ok::<u16, FsError>(ino),
        inode_at(disk, ino as int).spec_blocks_in_image(disk.len() as int),
        forall|j: int|
            0 <= j < dir_entries(disk, inode_at(disk, ino as int)).len() ==> (
            #[trigger] dir_entries(disk, inode_at(disk, ino as int))[j]).name != missing,
    ensures
        resolve(disk, start, seq![name, missing]) == Err::<u16, FsError>(FsError::NotFound),
{
    lemma_resolve_one(disk, start, name);
    lemma_resolve_one(disk, ino, missing);
    lemma_resolve_concat(disk, start, seq![name], seq![missing]);
    assert(seq![name] + seq![missing] =~= seq![name, missing]);
    lemma_lookup_none(dir_entries(disk, inode_at(disk, ino as int)), missing);
}

/// A name that leads to something other than a directory: where entry `k`
/// of the directory `start` is the first with the name `name` and its
/// inode, whose record lies in the image, is no directory, every walk that
/// begins with `name` fails with `NotADirectory`, whatever names follow.
pub proof fn lemma_resolve_not_a_directory(
    disk: Seq<u8>,
    start: u16,
    name: Seq<u8>,
    k: int,
    rest: Seq<Seq<u8>>,
)
    requires
        inode_in_image(start as int, disk.len() as int),
        inode_at(disk, start as int).spec_blocks_in_image(disk.len() as int),
        0 <= k < dir_entries(disk, inode_at(disk, start as int)).len(),
        dir_entries(disk, inode_at(disk, start as int))[k].name == name,
        forall|j: int|
            0 <= j < k ==> (#[trigger] dir_entries(disk, inode_at(disk, start as int))[j]).name
                != name,
        inode_in_image(
            dir_entries(disk, inode_at(disk, start as int))[k].ino as int,
            disk.len() as int,
        ),
        !inode_at(
            disk,
            dir_entries(disk, inode_at(disk, start as int))[k].ino as int,
        ).spec_is_dir(),
    ensures
        resolve(disk, start, seq![name] + rest) == Err::<u16, FsError>(FsError::NotADirectory),
{
    lemma_lookup_first(dir_entries(disk, inode_at(disk, start as int)), name, k);
    lemma_resolve_one(disk, start, name);
    lemma_resolve_concat(disk, start, seq![name], rest);
}

/// A walk along at least one name that succeeds ends in a directory whose
/// record lies inside the image.
pub proof fn lemma_resolve_ends_in_directory(disk: Seq<u8>, start: u16, path: Seq<Seq<u8>>)
    requires
        resolve(disk, start, path).is_ok(),
        path.len() > 0,
    ensures
        inode_in_image(resolve(disk, start, path).unwrap() as int, disk.len() as int),
        inode_at(disk, resolve(disk, start, path).unwrap() as int).spec_is_dir(),
    decreases path.len(),
{
    let next = enter(disk, start, path[0]).unwrap();
    if path.len() > 1 {
        lemma_resolve_ends_in_directory(disk, next, path.drop_first());
    } else {
        assert(resolve(disk, next, path.drop_first()) == Ok::<u16, FsError>(next));
    }
}

/// Every component of a path holds at least one byte and no separator.
pub proof fn lemma_components_plain(path: Seq<u8>, k: int)
    requires
        0 <= k < path_components(path).len(),
    ensures
        path_components(path)[k].len() > 0,
        forall|i: int|
            0 <= i < path_components(path)[k].len() ==> (#[trigger] path_components(path)[k][i])
                != SEPARATOR,
    decreases path.len(),
{
    lemma_components_open(path);
    let before = path_components(path.drop_last());
    if path.last() == SEPARATOR {
        lemma_components_plain(path.drop_last(), k);
    } else if path.len() >= 2 && path[path.len() - 2] != SEPARATOR {
        lemma_components_open(path.drop_last());
        if k < before.len() - 1 {
            lemma_components_plain(path.drop_last(), k);
        } else {
            lemma_components_plain(path.drop_last(), before.len() - 1);
        }
    } else {
        if k < before.len() {
            lemma_components_plain(path.drop_last(), k);
        }
    }
}

/// A path that ends in a byte other than the separator has a component.
pub proof fn lemma_components_open(path: Seq<u8>)
    ensures
        path.len() > 0 && path.last() != SEPARATOR ==> path_components(path).len() > 0,
    decreases path.len(),
{
    if path.len() > 0 {
        lemma_components_open(path.drop_last());
    }
}

/// A path of separators alone, or of no bytes, has no component: as an
/// absolute path it leads to the root.
pub proof fn lemma_components_of_separators(path: Seq<u8>)
    requires
        forall|i: int| 0 <= i < path.len() ==> path[i] == SEPARATOR,
    ensures
        path_components(path) == Seq::<Seq<u8>>::empty(),
    decreases path.len(),
{
    if path.len() > 0 {
        lemma_components_of_separators(path.drop_last());
    }
}

/// An absolute path without a component leads to the root, whatever the
/// image holds and wherever the walk would have started.
pub proof fn lemma_destination_root(disk: Seq<u8>, current: u16, path: Seq<u8>)
    requires
        path.len() > 0,
        forall|i: int| 0 <= i < path.len() ==> path[i] == SEPARATOR,
    ensures
        destination(disk, current, path) == Ok::<u16, FsError>(ROOT_INO),
{
    lemma_components_of_separators(path);
}

} // verus!
