use bwfs::inode::{DirEntry, FileType, INode, DIRECT_BLOCKS, UNASSIGNED};

#[test]
fn new_inode_is_empty_with_one_link() {
    let i = INode::new(7, FileType::RegularFile, 0o644, 1000, 100);
    assert_eq!(i.ino, 7);
    assert_eq!(i.file_type, FileType::RegularFile);
    assert_eq!(i.size, 0);
    assert_eq!(i.nlink, 1);
    assert_eq!(i.uid, 1000);
    assert_eq!(i.gid, 100);
    assert_eq!(i.mode, 0o644);
    assert_eq!(i.atime, i.mtime);
    assert_eq!(i.mtime, i.ctime);
    assert_eq!(i.direct_blocks, [u32::MAX; 12]);
    assert_eq!(i.indirect_block, u32::MAX);
    assert_eq!(i.double_indirect_block, u32::MAX);
    assert_eq!(DIRECT_BLOCKS, 12);
    assert_eq!(UNASSIGNED, u32::MAX);
}

#[test]
fn new_at_uses_the_given_instant() {
    let t = std::time::UNIX_EPOCH;
    let i = INode::new_at(1, FileType::Directory, 0o755, 0, 0, t);
    assert_eq!(i.atime, t);
    assert_eq!(i.mtime, t);
    assert_eq!(i.ctime, t);
}

#[test]
fn is_dir_and_is_file_follow_the_type() {
    let d = INode::new(1, FileType::Directory, 0o755, 0, 0);
    let f = INode::new(2, FileType::RegularFile, 0o644, 0, 0);
    let l = INode::new(3, FileType::Symlink, 0o777, 0, 0);
    assert!(d.is_dir() && !d.is_file());
    assert!(f.is_file() && !f.is_dir());
    assert!(!l.is_dir() && !l.is_file());
}

#[test]
fn block_numbers_are_set_and_read_in_the_direct_slots() {
    let mut i = INode::new(2, FileType::RegularFile, 0o644, 0, 0);
    assert_eq!(i.get_block_number(0), None);
    assert!(i.set_block_number(0, 5));
    assert!(i.set_block_number(11, 9));
    assert_eq!(i.get_block_number(0), Some(5));
    assert_eq!(i.get_block_number(11), Some(9));
    assert_eq!(i.get_block_number(1), None);
}

#[test]
fn indirect_slots_are_refused() {
    let mut i = INode::new(2, FileType::RegularFile, 0o644, 0, 0);
    let before = i.direct_blocks;
    assert!(!i.set_block_number(12, 5));
    assert!(!i.set_block_number(u32::MAX, 5));
    assert_eq!(i.direct_blocks, before);
    assert_eq!(i.get_block_number(12), None);
    assert_eq!(i.get_block_number(u32::MAX), None);
}

#[test]
fn the_sentinel_reads_as_unassigned() {
    let mut i = INode::new(2, FileType::RegularFile, 0o644, 0, 0);
    assert!(i.set_block_number(3, 8));
    assert!(i.set_block_number(3, u32::MAX));
    assert_eq!(i.get_block_number(3), None);
}

#[test]
fn dir_entry_keeps_its_fields() {
    let e = DirEntry::new(4, "notes.txt".to_string(), FileType::RegularFile);
    assert_eq!(e.ino, 4);
    assert_eq!(e.name, "notes.txt");
    assert_eq!(e.file_type, FileType::RegularFile);
    let c = e.clone();
    assert_eq!(c.ino, 4);
    assert_eq!(c.name, "notes.txt");
    assert_eq!(c.file_type, FileType::RegularFile);
}
