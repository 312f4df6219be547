use v6fs::dir::{decode_name, get_dir_contents, DirCon};
use v6fs::error::FsError;
use v6fs::inode::{get_inode, Inode};
use v6fs::listing::{decimal_digits, format_listing_entry, ls};
use v6fs::path::{cd, enter_dir, find_entry, same_bytes, split_path, try_to_cd};

const DIR: u16 = 0x8000;
const FILE: u16 = 0;
const LARGE: u16 = 0x1000;

fn put_u16(img: &mut [u8], at: usize, v: u16) {
    img[at] = (v >> 8) as u8;
    img[at + 1] = (v & 0xff) as u8;
}

fn put_inode(img: &mut [u8], index: u16, mode: u16, size: u32, addrs: &[u16]) {
    let at = 1024 + 32 * (index as usize - 1);
    put_u16(img, at, mode);
    img[at + 2] = 1;
    img[at + 5] = (size >> 16) as u8;
    put_u16(img, at + 6, (size & 0xffff) as u16);
    for (k, a) in addrs.iter().enumerate() {
        put_u16(img, at + 8 + 2 * k, *a);
    }
}

fn put_entry(img: &mut [u8], block: u16, slot: usize, ino: u16, name: &[u8]) {
    let at = block as usize * 512 + slot * 16;
    put_u16(img, at, ino);
    img[at + 2..at + 2 + name.len()].copy_from_slice(name);
}

/// A small tree:
///   /            inode 1, block 4
///   /bin         inode 2, block 5
///   /bin/sh      inode 4, a file
///   /bin/sub     inode 5, block 7
///   /etc         inode 3, block 6
///   /etc/passwd  inode 6, a file
///   /motd        inode 7, a file
fn tree() -> Vec<u8> {
    let mut img = vec![0u8; 16 * 512];
    put_u16(&mut img, 512, 2);
    put_u16(&mut img, 514, 16);
    put_inode(&mut img, 1, DIR | 0o755, 64, &[4]);
    put_inode(&mut img, 2, DIR | 0o755, 32, &[5]);
    put_inode(&mut img, 3, DIR | 0o750, 16, &[6]);
    put_inode(&mut img, 4, FILE | 0o711, 65538, &[8]);
    put_inode(&mut img, 5, DIR | 0o700, 0, &[7]);
    put_inode(&mut img, 6, FILE | 0o644, 1234, &[9]);
    put_inode(&mut img, 7, FILE | 0o444, 5, &[10]);
    put_entry(&mut img, 4, 0, 2, b"bin");
    put_entry(&mut img, 4, 1, 3, b"etc");
    put_entry(&mut img, 4, 3, 7, b"motd");
    put_entry(&mut img, 5, 0, 4, b"sh");
    put_entry(&mut img, 5, 1, 5, b"sub");
    put_entry(&mut img, 6, 0, 6, b"passwd");
    img
}

fn names(files: &[DirCon]) -> Vec<Vec<u8>> {
    files.iter().map(|f| f.name.clone()).collect()
}

fn entry(ino: u16, name: &[u8]) -> DirCon {
    DirCon { ino, name: name.to_vec() }
}

#[test]
fn root_lists_bin_then_etc() {
    let mut img = vec![0u8; 8 * 512];
    put_u16(&mut img, 512, 1);
    put_inode(&mut img, 1, DIR | 0o755, 32, &[4]);
    put_inode(&mut img, 2, DIR | 0o755, 0, &[5]);
    put_inode(&mut img, 3, DIR | 0o755, 0, &[6]);
    put_entry(&mut img, 4, 0, 2, b"bin");
    put_entry(&mut img, 4, 1, 3, b"etc");
    let root = get_inode(1, &img);
    assert_eq!(get_dir_contents(&root, &img), vec![entry(2, b"bin"), entry(3, b"etc")]);
    assert_eq!(ls(&root, &img, false), Ok(vec![b"bin".to_vec(), b"etc".to_vec()]));
}

#[test]
fn listing_skips_free_slots() {
    let img = tree();
    let root = get_inode(1, &img);
    let files = get_dir_contents(&root, &img);
    assert_eq!(files, vec![entry(2, b"bin"), entry(3, b"etc"), entry(7, b"motd")]);
    assert!(files.iter().all(|f| f.ino != 0));
}

#[test]
fn listing_never_holds_inode_zero() {
    let mut img = tree();
    // A free slot that still carries a name.
    let at = 4 * 512 + 2 * 16;
    img[at + 2..at + 6].copy_from_slice(b"gone");
    let root = get_inode(1, &img);
    let files = get_dir_contents(&root, &img);
    assert_eq!(names(&files), vec![b"bin".to_vec(), b"etc".to_vec(), b"motd".to_vec()]);
    assert!(files.iter().all(|f| f.ino != 0));
}

#[test]
fn listing_is_the_same_on_each_call() {
    let img = tree();
    let root = get_inode(1, &img);
    let first = get_dir_contents(&root, &img);
    let again = get_dir_contents(&root, &img);
    assert_eq!(first, again);
    assert_eq!(ls(&root, &img, true), ls(&root, &img, true));
}

#[test]
fn listing_goes_by_address_slot_then_by_place() {
    let mut img = vec![0u8; 16 * 512];
    put_u16(&mut img, 512, 2);
    // The second slot names a lower block than the first; a zero slot lies between.
    put_inode(&mut img, 1, DIR, 0, &[9, 0, 5, 0, 0, 0, 0, 12]);
    put_entry(&mut img, 9, 31, 10, b"b");
    put_entry(&mut img, 9, 4, 11, b"a");
    put_entry(&mut img, 5, 0, 12, b"c");
    put_entry(&mut img, 12, 31, 13, b"z");
    put_entry(&mut img, 12, 0, 14, b"d");
    // Block 0 is never read for a zero slot.
    put_entry(&mut img, 0, 0, 99, b"boot");
    let root = get_inode(1, &img);
    assert_eq!(
        get_dir_contents(&root, &img),
        vec![entry(11, b"a"), entry(10, b"b"), entry(12, b"c"), entry(14, b"d"), entry(13, b"z")]
    );
}

#[test]
fn listing_of_a_full_block_has_32_entries() {
    let mut img = vec![0u8; 8 * 512];
    put_u16(&mut img, 512, 1);
    put_inode(&mut img, 1, DIR, 512, &[4]);
    for s in 0..32 {
        put_entry(&mut img, 4, s, 100 + s as u16, &[b'a' + s as u8 % 26]);
    }
    let files = get_dir_contents(&get_inode(1, &img), &img);
    assert_eq!(files.len(), 32);
    for s in 0..32 {
        assert_eq!(files[s], entry(100 + s as u16, &[b'a' + s as u8 % 26]));
    }
}

#[test]
fn listing_under_large_addressing_is_empty() {
    let mut img = tree();
    put_inode(&mut img, 1, DIR | LARGE | 0o755, 64, &[4]);
    let root = get_inode(1, &img);
    assert_eq!(get_dir_contents(&root, &img), vec![]);
    assert_eq!(ls(&root, &img, false), Ok(vec![]));
    assert_eq!(ls(&root, &img, true), Ok(vec![]));
}

#[test]
fn listing_of_an_inode_without_blocks_is_empty() {
    let img = tree();
    assert_eq!(get_dir_contents(&get_inode(8, &img), &img), vec![]);
}

#[test]
fn name_may_fill_all_fourteen_bytes() {
    let mut img = tree();
    put_entry(&mut img, 6, 1, 7, b"abcdefghijklmn");
    put_entry(&mut img, 6, 2, 7, b"next");
    let files = get_dir_contents(&get_inode(3, &img), &img);
    assert_eq!(
        files,
        vec![entry(6, b"passwd"), entry(7, b"abcdefghijklmn"), entry(7, b"next")]
    );
}

#[test]
fn name_loses_only_its_trailing_padding() {
    assert_eq!(decode_name(b"bin\0\0\0\0\0\0\0\0\0\0\0"), b"bin".to_vec());
    assert_eq!(decode_name(b"a\0b\0\0\0\0\0\0\0\0\0\0\0"), b"a\0b".to_vec());
    assert_eq!(decode_name(b"\0\0\0\0\0\0\0\0\0\0\0\0\0\0"), Vec::<u8>::new());
    assert_eq!(decode_name(b"\0\0\0\0\0\0\0\0\0\0\0\0\0x"), b"\0\0\0\0\0\0\0\0\0\0\0\0\0x".to_vec());
    assert_eq!(decode_name(b"abcdefghijklmn"), b"abcdefghijklmn".to_vec());
    assert_eq!(decode_name(b""), Vec::<u8>::new());
}

#[test]
fn name_need_not_be_text() {
    let mut img = tree();
    put_entry(&mut img, 6, 1, 7, &[0xff, 0xfe, 0x80]);
    let files = get_dir_contents(&get_inode(3, &img), &img);
    assert_eq!(files[1], entry(7, &[0xff, 0xfe, 0x80]));
}

#[test]
fn bytes_are_compared_exactly() {
    assert!(same_bytes(b"bin", b"bin"));
    assert!(same_bytes(b"", b""));
    assert!(!same_bytes(b"bin", b"bi"));
    assert!(!same_bytes(b"bin", b"bim"));
    assert!(!same_bytes(b"bin", b"Bin"));
    assert!(!same_bytes(b"", b"\0"));
}

#[test]
fn lookup_takes_the_first_entry_with_the_name() {
    let files = vec![entry(3, b"a"), entry(4, b"b"), entry(5, b"a")];
    assert_eq!(find_entry(&files, b"a"), Some(3));
    assert_eq!(find_entry(&files, b"b"), Some(4));
    assert_eq!(find_entry(&files, b"c"), None);
    assert_eq!(find_entry(&files, b""), None);
    assert_eq!(find_entry(&vec![], b"a"), None);
}

#[test]
fn empty_walk_returns_the_start() {
    let img = tree();
    assert_eq!(try_to_cd(1, vec![], &img), Ok(1));
    assert_eq!(try_to_cd(5, vec![], &img), Ok(5));
    // Nothing is read: no image is needed, and the start is not examined.
    assert_eq!(try_to_cd(1, vec![], &[]), Ok(1));
    assert_eq!(try_to_cd(0, vec![], &[]), Ok(0));
    assert_eq!(try_to_cd(4, vec![], &img), Ok(4));
}

#[test]
fn walk_enters_a_directory() {
    let img = tree();
    assert_eq!(try_to_cd(1, vec![b"bin".as_slice()], &img), Ok(2));
    assert_eq!(try_to_cd(1, vec![b"etc".as_slice()], &img), Ok(3));
    assert_eq!(try_to_cd(1, vec![b"bin".as_slice(), b"sub".as_slice()], &img), Ok(5));
    assert_eq!(try_to_cd(2, vec![b"sub".as_slice()], &img), Ok(5));
}

#[test]
fn walk_fails_on_a_missing_name() {
    let img = tree();
    assert_eq!(try_to_cd(1, vec![b"bin".as_slice(), b"missing".as_slice()], &img), Err(FsError::NotFound));
    assert_eq!(try_to_cd(1, vec![b"missing".as_slice()], &img), Err(FsError::NotFound));
    assert_eq!(try_to_cd(1, vec![b"bi".as_slice()], &img), Err(FsError::NotFound));
    assert_eq!(try_to_cd(1, vec![b"bin\0".as_slice()], &img), Err(FsError::NotFound));
    assert_eq!(try_to_cd(5, vec![b"bin".as_slice()], &img), Err(FsError::NotFound));
}

#[test]
fn walk_fails_on_a_file_wherever_it_stands() {
    let img = tree();
    assert_eq!(try_to_cd(1, vec![b"motd".as_slice()], &img), Err(FsError::NotADirectory));
    assert_eq!(
        try_to_cd(1, vec![b"motd".as_slice(), b"more".as_slice()], &img),
        Err(FsError::NotADirectory)
    );
    assert_eq!(
        try_to_cd(1, vec![b"bin".as_slice(), b"sh".as_slice()], &img),
        Err(FsError::NotADirectory)
    );
    assert_eq!(
        try_to_cd(1, vec![b"bin".as_slice(), b"sh".as_slice(), b"x".as_slice()], &img),
        Err(FsError::NotADirectory)
    );
}

#[test]
fn walk_then_listing_shows_the_new_directory() {
    let img = tree();
    let ino = try_to_cd(1, vec![b"bin".as_slice()], &img).unwrap();
    assert_eq!(ino, 2);
    let files = get_dir_contents(&get_inode(ino, &img), &img);
    assert_eq!(files, vec![entry(4, b"sh"), entry(5, b"sub")]);
    assert_ne!(files, get_dir_contents(&get_inode(1, &img), &img));
}

#[test]
fn walk_takes_the_first_of_two_equal_names() {
    let mut img = tree();
    // A file called "bin" before the directory of that name.
    put_entry(&mut img, 4, 0, 7, b"bin");
    put_entry(&mut img, 4, 2, 2, b"bin");
    assert_eq!(try_to_cd(1, vec![b"bin".as_slice()], &img), Err(FsError::NotADirectory));
}

#[test]
fn walk_fails_on_a_record_outside_the_image() {
    let mut img = tree();
    // The image has 8192 bytes: the record of inode 224 is its last, that of 225 lies outside.
    put_entry(&mut img, 4, 4, 225, b"far");
    assert_eq!(try_to_cd(1, vec![b"far".as_slice()], &img), Err(FsError::InvalidInode));
    assert_eq!(try_to_cd(0, vec![b"bin".as_slice()], &img), Err(FsError::InvalidInode));
    assert_eq!(try_to_cd(225, vec![b"bin".as_slice()], &img), Err(FsError::InvalidInode));
    assert_eq!(try_to_cd(u16::MAX, vec![b"bin".as_slice()], &img), Err(FsError::InvalidInode));
    assert_eq!(try_to_cd(1, vec![b"bin".as_slice()], &[]), Err(FsError::InvalidInode));
    assert_eq!(enter_dir(1, b"far", &img), Err(FsError::InvalidInode));
}

#[test]
fn walk_decodes_inodes_beyond_the_declared_count() {
    let mut img = tree();
    // The superblock declares 32 inodes. The records of inodes 97 and 113 lie in
    // blocks 8 and 9, inside the image.
    put_u16(&mut img, 1024 + 32 * 96, DIR | 0o755);
    put_u16(&mut img, 1024 + 32 * 96 + 8, 11);
    put_u16(&mut img, 1024 + 32 * 112, FILE | 0o644);
    put_entry(&mut img, 4, 4, 97, b"far");
    put_entry(&mut img, 4, 5, 113, b"note");
    put_entry(&mut img, 11, 0, 2, b"back");
    put_entry(&mut img, 11, 1, 113, b"note");
    assert_eq!(try_to_cd(1, vec![b"far".as_slice()], &img), Ok(97));
    assert_eq!(try_to_cd(1, vec![b"far".as_slice(), b"back".as_slice()], &img), Ok(2));
    assert_eq!(
        try_to_cd(1, vec![b"far".as_slice(), b"missing".as_slice()], &img),
        Err(FsError::NotFound)
    );
    assert_eq!(try_to_cd(1, vec![b"note".as_slice()], &img), Err(FsError::NotADirectory));
    assert_eq!(
        try_to_cd(1, vec![b"note".as_slice(), b"x".as_slice()], &img),
        Err(FsError::NotADirectory)
    );
    assert_eq!(
        try_to_cd(1, vec![b"far".as_slice(), b"note".as_slice()], &img),
        Err(FsError::NotADirectory)
    );
    assert_eq!(try_to_cd(97, vec![b"back".as_slice(), b"sub".as_slice()], &img), Ok(5));
    assert_eq!(cd(97, "/far/back", &img), Ok(2));
    assert_eq!(enter_dir(1, b"far", &img), Ok(97));
}

#[test]
fn walk_ignores_the_superblock() {
    let mut img = tree();
    put_u16(&mut img, 512, 0);
    assert_eq!(try_to_cd(1, vec![b"bin".as_slice(), b"sub".as_slice()], &img), Ok(5));
    assert_eq!(cd(3, "/etc", &img), Ok(3));
    assert_eq!(cd(1, "motd", &img), Err(FsError::NotADirectory));
    assert_eq!(cd(1, "nope", &img), Err(FsError::NotFound));
}

#[test]
fn walk_fails_on_a_block_outside_the_image() {
    let mut img = tree();
    put_inode(&mut img, 5, DIR | 0o700, 0, &[7, 16]);
    assert_eq!(try_to_cd(1, vec![b"bin".as_slice(), b"sub".as_slice()], &img), Ok(5));
    assert_eq!(
        try_to_cd(1, vec![b"bin".as_slice(), b"sub".as_slice(), b"x".as_slice()], &img),
        Err(FsError::InvalidBlock)
    );
    assert_eq!(enter_dir(5, b"x", &img), Err(FsError::InvalidBlock));
}

#[test]
fn one_step_agrees_with_the_walk() {
    let img = tree();
    assert_eq!(enter_dir(1, b"bin", &img), Ok(2));
    assert_eq!(enter_dir(1, b"motd", &img), Err(FsError::NotADirectory));
    assert_eq!(enter_dir(1, b"nope", &img), Err(FsError::NotFound));
    assert_eq!(enter_dir(0, b"bin", &img), Err(FsError::InvalidInode));
    assert_eq!(enter_dir(224, b"bin", &img), Err(FsError::NotFound));
    assert_eq!(enter_dir(225, b"bin", &img), Err(FsError::InvalidInode));
}

#[test]
fn walk_from_a_file_reads_it_as_a_directory() {
    let mut img = tree();
    // The data block of the file "motd" happens to look like a directory.
    put_entry(&mut img, 10, 0, 3, b"etc");
    assert_eq!(try_to_cd(7, vec![b"etc".as_slice()], &img), Ok(3));
}

#[test]
fn path_splits_on_the_separator() {
    let none: Vec<&[u8]> = vec![];
    assert_eq!(split_path(b""), none);
    assert_eq!(split_path(b"/"), none);
    assert_eq!(split_path(b"///"), none);
    assert_eq!(split_path(b"bin"), vec![b"bin".as_slice()]);
    assert_eq!(split_path(b"/bin"), vec![b"bin".as_slice()]);
    assert_eq!(split_path(b"bin/"), vec![b"bin".as_slice()]);
    assert_eq!(split_path(b"/bin/sub"), vec![b"bin".as_slice(), b"sub".as_slice()]);
    assert_eq!(split_path(b"//bin///sub//"), vec![b"bin".as_slice(), b"sub".as_slice()]);
    assert_eq!(split_path(b"a/b/c"), vec![b"a".as_slice(), b"b".as_slice(), b"c".as_slice()]);
    assert_eq!(split_path(b"a b/.."), vec![b"a b".as_slice(), b"..".as_slice()]);
}

#[test]
fn absolute_path_starts_at_the_root() {
    let img = tree();
    assert_eq!(cd(5, "/", &img), Ok(1));
    assert_eq!(cd(5, "//", &img), Ok(1));
    assert_eq!(cd(5, "/bin", &img), Ok(2));
    assert_eq!(cd(5, "/bin/sub", &img), Ok(5));
    assert_eq!(cd(3, "//bin///sub//", &img), Ok(5));
    assert_eq!(cd(3, "/etc", &img), Ok(3));
}

#[test]
fn absolute_path_without_names_reads_nothing() {
    assert_eq!(cd(9, "/", &[]), Ok(1));
    assert_eq!(cd(0, "///", &[]), Ok(1));
}

#[test]
fn relative_path_starts_at_the_current_directory() {
    let img = tree();
    assert_eq!(cd(1, "bin", &img), Ok(2));
    assert_eq!(cd(2, "sub", &img), Ok(5));
    assert_eq!(cd(1, "bin/sub", &img), Ok(5));
    assert_eq!(cd(1, "bin//sub/", &img), Ok(5));
    assert_eq!(cd(2, "bin", &img), Err(FsError::NotFound));
    assert_eq!(cd(2, "", &img), Ok(2));
}

#[test]
fn cd_reports_each_failure() {
    let img = tree();
    assert_eq!(cd(1, "/nope", &img), Err(FsError::NotFound));
    assert_eq!(cd(1, "/bin/nope", &img), Err(FsError::NotFound));
    assert_eq!(cd(1, "/motd", &img), Err(FsError::NotADirectory));
    assert_eq!(cd(1, "/bin/sh", &img), Err(FsError::NotADirectory));
    assert_eq!(cd(1, "bin/sh/x", &img), Err(FsError::NotADirectory));
    assert_eq!(cd(225, "bin", &img), Err(FsError::InvalidInode));
}

#[test]
fn cd_compares_names_byte_by_byte() {
    let mut img = tree();
    put_entry(&mut img, 4, 5, 3, "caf\u{e9}".as_bytes());
    assert_eq!(cd(1, "caf\u{e9}", &img), Ok(3));
    assert_eq!(cd(1, "cafe", &img), Err(FsError::NotFound));
}

#[test]
fn decimal_has_no_leading_zeros() {
    assert_eq!(decimal_digits(0), b"0".to_vec());
    assert_eq!(decimal_digits(7), b"7".to_vec());
    assert_eq!(decimal_digits(10), b"10".to_vec());
    assert_eq!(decimal_digits(65538), b"65538".to_vec());
    assert_eq!(decimal_digits(16777215), b"16777215".to_vec());
    assert_eq!(decimal_digits(u32::MAX), b"4294967295".to_vec());
}

#[test]
fn detailed_line_of_a_directory() {
    let img = tree();
    let line = format_listing_entry(&entry(2, b"bin"), &get_inode(2, &img));
    assert_eq!(line, b"drwxr-xr-x         32 bin".to_vec());
}

#[test]
fn detailed_line_of_a_file() {
    let img = tree();
    let line = format_listing_entry(&entry(4, b"sh"), &get_inode(4, &img));
    assert_eq!(line, b"-rwx--x--x      65538 sh".to_vec());
}

#[test]
fn detailed_line_pads_the_size_to_ten_columns() {
    let mut node: Inode = get_inode(1, &tree());
    node.i_mode = 0;
    node.i_size0 = 0;
    node.i_size1 = 0;
    assert_eq!(format_listing_entry(&entry(9, b"x"), &node), b"----------          0 x".to_vec());
    node.i_size0 = 0xff;
    node.i_size1 = 0xffff;
    assert_eq!(format_listing_entry(&entry(9, b""), &node), b"----------   16777215 ".to_vec());
}

#[test]
fn detailed_line_keeps_the_name_bytes() {
    let img = tree();
    let line = format_listing_entry(&entry(6, &[0xff, b'a', 0x00, b'b']), &get_inode(6, &img));
    let mut expected = b"-rw-r--r--       1234 ".to_vec();
    expected.extend_from_slice(&[0xff, b'a', 0x00, b'b']);
    assert_eq!(line, expected);
}

#[test]
fn plain_listing_gives_the_names() {
    let img = tree();
    assert_eq!(
        ls(&get_inode(1, &img), &img, false),
        Ok(vec![b"bin".to_vec(), b"etc".to_vec(), b"motd".to_vec()])
    );
    assert_eq!(ls(&get_inode(2, &img), &img, false), Ok(vec![b"sh".to_vec(), b"sub".to_vec()]));
}

#[test]
fn detailed_listing_gives_one_line_for_each_entry() {
    let img = tree();
    assert_eq!(
        ls(&get_inode(1, &img), &img, true),
        Ok(vec![
            b"drwxr-xr-x         32 bin".to_vec(),
            b"drwxr-x---         16 etc".to_vec(),
            b"-r--r--r--          5 motd".to_vec(),
        ])
    );
    assert_eq!(
        ls(&get_inode(2, &img), &img, true),
        Ok(vec![b"-rwx--x--x      65538 sh".to_vec(), b"drwx------          0 sub".to_vec()])
    );
}

#[test]
fn detailed_listing_decodes_inodes_beyond_the_declared_count() {
    // The superblock is all zero and declares no inode; inode 514 has the last
    // record of the image.
    let mut d = vec![0u8; 17472];
    d[1536..1538].copy_from_slice(&[2, 2]);
    d[1538..1541].copy_from_slice(b"bin");
    d[17440..17442].copy_from_slice(&[0xed, 0xed]);
    d[17446..17448].copy_from_slice(&[2, 2]);
    let node = Inode {
        i_mode: 0xc000,
        i_nlink: 0,
        i_uid: 0,
        i_gid: 0,
        i_size0: 0,
        i_size1: 0,
        i_addr: [3, 0, 0, 0, 0, 0, 0, 0],
        i_atime: 0,
        i_mtime: 0,
    };
    assert_eq!(ls(&node, &d, true), Ok(vec![b"drwxr-xr-x        514 bin".to_vec()]));
    assert_eq!(ls(&node, &d, false), Ok(vec![b"bin".to_vec()]));
    // One byte less, and the record is no longer inside the image.
    assert_eq!(ls(&node, &d[..17471], true), Err(FsError::InvalidInode));
}

#[test]
fn detailed_listing_describes_the_inode_of_each_entry() {
    let mut img = tree();
    put_u16(&mut img, 512, 0);
    assert_eq!(
        ls(&get_inode(2, &img), &img, true),
        Ok(vec![b"-rwx--x--x      65538 sh".to_vec(), b"drwx------          0 sub".to_vec()])
    );
}

#[test]
fn detailed_listing_fails_on_a_record_outside_the_image() {
    let mut img = tree();
    put_entry(&mut img, 4, 4, 225, b"far");
    let root = get_inode(1, &img);
    assert_eq!(ls(&root, &img, true), Err(FsError::InvalidInode));
    assert_eq!(
        ls(&root, &img, false),
        Ok(vec![b"bin".to_vec(), b"etc".to_vec(), b"motd".to_vec(), b"far".to_vec()])
    );
}
