use bwfs::config::Config;
use bwfs::fs::FilesystemMetadata;
use bwfs::inode::FileType;
use bwfs::storage::BlockImage;
use bwfs::types::{Errno, StatFs};
use bwfs::BWFS;
use std::collections::HashMap;

type Disk = HashMap<u32, BlockImage>;

fn config(width: u32, height: u32, blocks: u32, inodes: u32) -> Config {
    Config {
        name: "test".to_string(),
        block_width: width,
        block_height: height,
        total_blocks: blocks,
        total_inodes: inodes,
        storage_path: "unused".to_string(),
        fingerprint: "BWFS".to_string(),
        distributed_nodes: Vec::new(),
        tcp_port: 9000,
    }
}

/// Small blocks of 8 bytes keep the examples readable.
fn small(blocks: u32) -> BWFS {
    BWFS::new(config(8, 8, blocks, 16))
}

fn names(fs: &BWFS, ino: u64) -> Vec<String> {
    fs.readdir(ino, 0).into_iter().map(|l| l.name).collect()
}

/// Runs a whole write against the in-memory disk.
fn write(fs: &mut BWFS, disk: &mut Disk, ino: u64, offset: u64, data: &[u8]) -> Result<u32, Errno> {
    let plan = fs.begin_write(ino, offset, data.len());
    for &b in &plan.fresh_blocks {
        if let Ok(img) = fs.storage().init_block(b) {
            disk.insert(b, img);
        }
    }
    if let Some(e) = plan.refusal {
        return Err(e);
    }
    let mut stored = true;
    for step in &plan.steps {
        let current = fs.storage().read_block(step.block, disk.get(&step.block)).ok();
        let block = fs.splice(step, current, data);
        match fs.storage().write_block(step.block, &block) {
            Ok(img) => {
                disk.insert(step.block, img);
            }
            Err(_) => {
                stored = false;
                break;
            }
        }
    }
    fs.finish_write(ino, offset, data.len(), stored)
}

/// Runs a whole read against the in-memory disk.
fn read(fs: &BWFS, disk: &Disk, ino: u64, offset: u64, size: u32) -> Result<Vec<u8>, Errno> {
    let blocks = fs.read_plan(ino, offset, size)?;
    let fetched: Vec<Option<Vec<u8>>> =
        blocks.iter().map(|&b| fs.storage().read_block(b, disk.get(&b)).ok()).collect();
    Ok(fs.read_reply(&fetched, offset, size))
}

fn snapshot_facts(m: &FilesystemMetadata) -> (Vec<(u64, u64, u32)>, Vec<(u64, Vec<String>)>, Vec<u8>, Vec<u8>, u64) {
    let mut inodes: Vec<(u64, u64, u32)> = m.inodes.iter().map(|(k, i)| (*k, i.size, i.nlink)).collect();
    inodes.sort();
    let mut dirs: Vec<(u64, Vec<String>)> = m
        .directories
        .iter()
        .map(|(k, v)| (*k, v.iter().map(|e| e.name.clone()).collect()))
        .collect();
    dirs.sort();
    (inodes, dirs, m.block_bitmap.as_bytes().to_vec(), m.inode_bitmap.as_bytes().to_vec(), m.next_ino)
}

#[test]
fn fresh_filesystem_has_a_root_directory() {
    let fs = BWFS::new(config(800, 800, 64, 256));
    let attr = fs.getattr(1).unwrap();
    assert_eq!(attr.ino, 1);
    assert_eq!(attr.kind, FileType::Directory);
    assert_eq!(attr.perm, 0o755);
    assert_eq!(attr.nlink, 2);
    assert_eq!(attr.uid, 0);
    assert_eq!(attr.gid, 0);
    assert_eq!(attr.size, 0);
    assert_eq!(names(&fs, 1), vec![".", ".."]);
    let listing = fs.readdir(1, 0);
    assert_eq!((listing[0].ino, listing[0].offset, listing[0].kind), (1, 1, FileType::Directory));
    assert_eq!((listing[1].ino, listing[1].offset, listing[1].kind), (1, 2, FileType::Directory));
    assert!(!fs.is_dirty());
    assert_eq!(fs.bytes_per_block(), 80_000);
}

#[test]
fn fresh_filesystem_reserves_block_zero() {
    let mut fs = small(4);
    let snap = fs.save();
    assert!(snap.block_bitmap.is_set(0));
    assert!(!snap.block_bitmap.is_set(1));
    assert_eq!(snap.next_ino, 2);
    assert_eq!(fs.allocate_block(), Some(1));
    assert_eq!(fs.allocate_block(), Some(2));
    assert_eq!(fs.allocate_block(), Some(3));
    assert_eq!(fs.allocate_block(), None);
    fs.free_block(0);
    assert!(fs.save().block_bitmap.is_set(0));
    assert_eq!(fs.allocate_block(), None);
    fs.free_block(2);
    assert_eq!(fs.allocate_block(), Some(2));
}

#[test]
fn create_write_read_lookup() {
    let mut fs = BWFS::new(config(800, 800, 64, 256));
    let mut disk = Disk::new();
    let created = fs.create(1, "hello", 0o644, 1000, 1000).unwrap();
    assert_eq!(created.attr.ino, 2);
    assert_eq!(created.attr.kind, FileType::RegularFile);
    assert_eq!(created.attr.perm, 0o644);
    assert_eq!(created.attr.nlink, 1);
    assert_eq!(created.attr.uid, 1000);
    assert_eq!(created.fh, 1);
    assert_eq!(created.generation, 0);
    assert_eq!(created.flags, 0);
    assert_eq!(write(&mut fs, &mut disk, 2, 0, b"hi\n"), Ok(3));
    assert_eq!(read(&fs, &disk, 2, 0, 8).unwrap(), vec![0x68, 0x69, 0x0A, 0xFF, 0xFF, 0xFF, 0xFF, 0xFF]);
    assert_eq!(read(&fs, &disk, 2, 0, 3).unwrap(), vec![0x68, 0x69, 0x0A]);
    assert_eq!(fs.getattr(2).unwrap().size, 3);
    assert_eq!(fs.getattr(2).unwrap().blocks, 1);
    assert_eq!(fs.lookup(1, "hello").unwrap().ino, 2);
    assert_eq!(names(&fs, 1), vec![".", "..", "hello"]);
    assert!(fs.is_dirty());
}

#[test]
fn full_block_write_and_append() {
    let mut fs = BWFS::new(config(800, 800, 64, 256));
    let mut disk = Disk::new();
    let b = fs.bytes_per_block();
    fs.create(1, "hello", 0o644, 0, 0).unwrap();
    let pattern = vec![0xAA; b];
    assert_eq!(write(&mut fs, &mut disk, 2, 0, &pattern), Ok(b as u32));
    assert_eq!(read(&fs, &disk, 2, 0, b as u32).unwrap(), pattern);
    assert_eq!(fs.statfs().bfree, 62);
    assert_eq!(write(&mut fs, &mut disk, 2, b as u64, b"Z"), Ok(1));
    assert_eq!(fs.statfs().bfree, 61);
    assert_eq!(fs.getattr(2).unwrap().size, b as u64 + 1);
    assert_eq!(read(&fs, &disk, 2, b as u64, 1).unwrap(), vec![b'Z']);
    assert_eq!(read(&fs, &disk, 2, b as u64 - 1, 2).unwrap(), vec![0xAA, b'Z']);
}

#[test]
fn mkdir_and_rmdir_move_the_parent_link_count() {
    let mut fs = BWFS::new(config(800, 800, 64, 256));
    let file = fs.create(1, "f", 0o644, 0, 0).unwrap();
    assert_eq!(file.attr.ino, 2);
    let d = fs.mkdir(1, "d", 0o755, 0, 0).unwrap();
    assert_eq!(d.ino, 3);
    assert_eq!(d.kind, FileType::Directory);
    assert_eq!(d.nlink, 2);
    assert_eq!(fs.getattr(1).unwrap().nlink, 3);
    assert_eq!(names(&fs, 3), vec![".", ".."]);
    assert_eq!(fs.readdir(3, 0)[1].ino, 1);
    assert_eq!(fs.rmdir(1, "d"), Ok(()));
    assert_eq!(fs.getattr(1).unwrap().nlink, 2);
    assert_eq!(fs.getattr(3).err(), Some(Errno::ENOENT));
    assert!(fs.readdir(3, 0).is_empty());
    assert_eq!(fs.rmdir(1, "d"), Err(Errno::ENOENT));
}

#[test]
fn second_write_runs_out_of_space() {
    let mut fs = small(2);
    let mut disk = Disk::new();
    fs.create(1, "a", 0o644, 0, 0).unwrap();
    assert_eq!(write(&mut fs, &mut disk, 2, 0, &[1; 8]), Ok(8));
    assert_eq!(write(&mut fs, &mut disk, 2, 8, &[2; 8]), Err(Errno::ENOSPC));
    assert_eq!(fs.getattr(2).unwrap().size, 8);
    assert_eq!(read(&fs, &disk, 2, 0, 16).unwrap(), vec![1; 8]);
    assert_eq!(fs.statfs().bfree, 0);
}

#[test]
fn write_that_runs_out_midway_keeps_what_it_allocated() {
    let mut fs = small(3);
    let mut disk = Disk::new();
    fs.create(1, "a", 0o644, 0, 0).unwrap();
    let plan = fs.begin_write(2, 0, 24);
    assert_eq!(plan.refusal, Some(Errno::ENOSPC));
    assert_eq!(plan.fresh_blocks, vec![1, 2]);
    assert!(plan.steps.is_empty());
    assert_eq!(fs.statfs().bfree, 0);
    assert_eq!(fs.getattr(2).unwrap().size, 0);
    assert_eq!(write(&mut fs, &mut disk, 2, 0, &[7; 16]), Ok(16));
    assert_eq!(read(&fs, &disk, 2, 0, 16).unwrap(), vec![7; 16]);
}

#[test]
fn state_without_a_sync_is_the_last_snapshot() {
    let mut fs = small(8);
    let mut disk = Disk::new();
    let on_disk = fs.save();
    fs.create(1, "a", 0o644, 0, 0).unwrap();
    write(&mut fs, &mut disk, 2, 0, b"data").unwrap();
    assert!(fs.is_dirty());
    drop(fs);
    let fs = BWFS::load(config(8, 8, 8, 16), Some(on_disk));
    assert_eq!(fs.lookup(1, "a").err(), Some(Errno::ENOENT));
    assert_eq!(fs.getattr(2).err(), Some(Errno::ENOENT));
    assert_eq!(names(&fs, 1), vec![".", ".."]);
    assert_eq!(fs.statfs().bfree, 7);
    assert!(disk.contains_key(&1));
    assert!(!fs.is_dirty());
}

#[test]
fn plan_of_a_write_across_blocks() {
    let mut fs = small(8);
    fs.create(1, "a", 0o644, 0, 0).unwrap();
    let plan = fs.begin_write(2, 5, 14);
    assert_eq!(plan.refusal, None);
    assert_eq!(plan.fresh_blocks, vec![1, 2, 3]);
    let steps: Vec<(u32, usize, usize, usize)> =
        plan.steps.iter().map(|s| (s.block, s.block_offset, s.data_start, s.len)).collect();
    assert_eq!(steps, vec![(1, 5, 0, 3), (2, 0, 3, 8), (3, 0, 11, 3)]);
    let again = fs.begin_write(2, 8, 8);
    assert!(again.fresh_blocks.is_empty());
    let steps: Vec<(u32, usize, usize, usize)> =
        again.steps.iter().map(|s| (s.block, s.block_offset, s.data_start, s.len)).collect();
    assert_eq!(steps, vec![(2, 0, 0, 8)]);
}

#[test]
fn empty_write_inside_a_block_touches_that_block() {
    let mut fs = small(8);
    fs.create(1, "a", 0o644, 0, 0).unwrap();
    let plan = fs.begin_write(2, 3, 0);
    assert_eq!(plan.fresh_blocks, vec![1]);
    let steps: Vec<(u32, usize, usize, usize)> =
        plan.steps.iter().map(|s| (s.block, s.block_offset, s.data_start, s.len)).collect();
    assert_eq!(steps, vec![(1, 3, 0, 0)]);
    let none = fs.begin_write(2, 8, 0);
    assert!(none.fresh_blocks.is_empty());
    assert!(none.steps.is_empty());
    assert_eq!(none.refusal, None);
}

#[test]
fn write_past_the_twelfth_block_finds_no_space() {
    let mut fs = small(32);
    let mut disk = Disk::new();
    fs.create(1, "big", 0o644, 0, 0).unwrap();
    assert_eq!(write(&mut fs, &mut disk, 2, 96, &[1]), Err(Errno::ENOSPC));
    assert_eq!(fs.statfs().bfree, 31);
    let plan = fs.begin_write(2, 88, 9);
    assert_eq!(plan.refusal, Some(Errno::ENOSPC));
    assert_eq!(plan.fresh_blocks, vec![1]);
    assert!(plan.steps.is_empty());
    assert_eq!(fs.begin_write(2, u64::MAX, usize::MAX).refusal, Some(Errno::ENOSPC));
    assert_eq!(fs.statfs().bfree, 30);
    assert_eq!(fs.getattr(2).unwrap().size, 0);
    assert_eq!(write(&mut fs, &mut disk, 2, 95, &[7]), Ok(1));
    assert_eq!(fs.getattr(2).unwrap().size, 96);
}

#[test]
fn empty_write_on_a_block_boundary_only_sets_the_size() {
    let mut fs = small(32);
    let mut disk = Disk::new();
    fs.create(1, "a", 0o644, 0, 0).unwrap();
    assert_eq!(write(&mut fs, &mut disk, 2, 800, &[]), Ok(0));
    assert_eq!(fs.getattr(2).unwrap().size, 800);
    assert_eq!(fs.statfs().bfree, 31);
    assert!(disk.is_empty());
}

#[test]
fn write_fills_all_twelve_blocks() {
    let mut fs = small(32);
    let mut disk = Disk::new();
    fs.create(1, "big", 0o644, 0, 0).unwrap();
    let data: Vec<u8> = (0..96u8).collect();
    assert_eq!(write(&mut fs, &mut disk, 2, 0, &data), Ok(96));
    assert_eq!(read(&fs, &disk, 2, 0, 200).unwrap(), data);
    assert_eq!(read(&fs, &disk, 2, 90, 200).unwrap(), &data[90..]);
    assert!(read(&fs, &disk, 2, 96, 10).unwrap().is_empty());
    assert!(read(&fs, &disk, 2, 1 << 40, 10).unwrap().is_empty());
    assert_eq!(fs.statfs().bfree, 19);
}

#[test]
fn tail_append_keeps_the_bytes_before_it() {
    let mut fs = small(8);
    let mut disk = Disk::new();
    fs.create(1, "a", 0o644, 0, 0).unwrap();
    write(&mut fs, &mut disk, 2, 0, b"abc").unwrap();
    write(&mut fs, &mut disk, 2, 3, b"de").unwrap();
    assert_eq!(read(&fs, &disk, 2, 0, 5).unwrap(), b"abcde");
    assert_eq!(fs.getattr(2).unwrap().size, 5);
    write(&mut fs, &mut disk, 2, 1, b"X").unwrap();
    assert_eq!(read(&fs, &disk, 2, 0, 5).unwrap(), b"aXcde");
    assert_eq!(fs.getattr(2).unwrap().size, 5);
}

#[test]
fn splice_lays_the_chunk_over_zeros_when_the_read_failed() {
    let mut fs = small(8);
    fs.create(1, "a", 0o644, 0, 0).unwrap();
    let plan = fs.begin_write(2, 2, 3);
    let step = plan.steps[0];
    assert_eq!(fs.splice(&step, None, b"xyz"), vec![0, 0, b'x', b'y', b'z', 0, 0, 0]);
    assert_eq!(
        fs.splice(&step, Some(vec![9; 8]), b"xyz"),
        vec![9, 9, b'x', b'y', b'z', 9, 9, 9]
    );
}

#[test]
fn failed_store_answers_io_error_and_changes_nothing() {
    let mut fs = small(8);
    fs.create(1, "a", 0o644, 0, 0).unwrap();
    fs.fsync(true).unwrap();
    fs.begin_write(2, 0, 4);
    assert_eq!(fs.finish_write(2, 0, 4, false), Err(Errno::EIO));
    assert_eq!(fs.getattr(2).unwrap().size, 0);
    assert!(!fs.is_dirty());
    assert_eq!(fs.finish_write(2, 0, 4, true), Ok(4));
    assert_eq!(fs.getattr(2).unwrap().size, 4);
    assert!(fs.is_dirty());
    assert_eq!(fs.finish_write(9, 0, 4, true), Err(Errno::ENOENT));
}

#[test]
fn write_does_not_shrink_a_file() {
    let mut fs = small(8);
    let mut disk = Disk::new();
    fs.create(1, "a", 0o644, 0, 0).unwrap();
    write(&mut fs, &mut disk, 2, 0, &[1; 12]).unwrap();
    write(&mut fs, &mut disk, 2, 0, &[2; 2]).unwrap();
    assert_eq!(fs.getattr(2).unwrap().size, 12);
    assert_eq!(fs.getattr(2).unwrap().blocks, 1);
}

#[test]
fn read_and_write_refuse_directories_and_missing_inodes() {
    let mut fs = small(8);
    assert_eq!(fs.read_plan(1, 0, 8), Err(Errno::EISDIR));
    assert_eq!(fs.read_plan(9, 0, 8), Err(Errno::ENOENT));
    assert_eq!(fs.begin_write(1, 0, 8).refusal, Some(Errno::EISDIR));
    assert_eq!(fs.begin_write(9, 0, 8).refusal, Some(Errno::ENOENT));
    assert_eq!(fs.statfs().bfree, 7);
}

#[test]
fn read_skips_unassigned_and_unreadable_blocks() {
    let mut fs = small(8);
    let mut disk = Disk::new();
    fs.create(1, "a", 0o644, 0, 0).unwrap();
    write(&mut fs, &mut disk, 2, 8, &[5; 8]).unwrap();
    assert_eq!(fs.read_plan(2, 0, 16), Ok(vec![1]));
    assert_eq!(read(&fs, &disk, 2, 0, 16).unwrap(), vec![5; 8]);
    assert!(read(&fs, &disk, 2, 3, 2).unwrap().is_empty());
    assert_eq!(read(&fs, &disk, 2, 3, 8).unwrap(), vec![5; 5]);
    assert_eq!(fs.read_reply(&[None, Some(vec![1, 2, 3])].to_vec(), 1, 5), vec![2, 3]);
    assert!(fs.read_reply(&[None].to_vec(), 0, 5).is_empty());
    assert!(fs.read_reply(&Vec::new(), 0, 5).is_empty());
    assert_eq!(fs.read_reply(&[Some(vec![1, 2]), Some(vec![3, 4])].to_vec(), 9, 2), vec![2, 3]);
}

#[test]
fn read_of_a_missing_image_gives_zeros() {
    let mut fs = small(8);
    let mut disk = Disk::new();
    fs.create(1, "a", 0o644, 0, 0).unwrap();
    write(&mut fs, &mut disk, 2, 0, &[5; 8]).unwrap();
    disk.clear();
    assert_eq!(read(&fs, &disk, 2, 0, 8).unwrap(), vec![0; 8]);
}

#[test]
fn create_refuses_bad_parents_and_taken_names() {
    let mut fs = small(8);
    fs.create(1, "a", 0o644, 0, 0).unwrap();
    assert_eq!(fs.create(2, "x", 0o644, 0, 0).err(), Some(Errno::ENOTDIR));
    assert_eq!(fs.create(9, "x", 0o644, 0, 0).err(), Some(Errno::ENOTDIR));
    assert_eq!(fs.create(1, "a", 0o644, 0, 0).err(), Some(Errno::EEXIST));
    assert_eq!(fs.create(1, ".", 0o644, 0, 0).err(), Some(Errno::EEXIST));
    assert_eq!(fs.mkdir(2, "x", 0o755, 0, 0).err(), Some(Errno::ENOTDIR));
    assert_eq!(fs.mkdir(1, "a", 0o755, 0, 0).err(), Some(Errno::EEXIST));
    assert_eq!(fs.create(1, "A", 0o644, 0, 0).unwrap().attr.ino, 3);
    assert_eq!(fs.save().next_ino, 4);
}

#[test]
fn create_keeps_the_low_sixteen_bits_of_the_mode() {
    let mut fs = small(8);
    assert_eq!(fs.create(1, "a", 0o100644, 0, 0).unwrap().attr.perm, 0o100644);
    assert_eq!(fs.create(1, "b", 0x1_81A4, 0, 0).unwrap().attr.perm, 0x81A4);
    assert_eq!(fs.mkdir(1, "c", 0x7_0000 | 0o755, 0, 0).unwrap().perm, 0o755);
}

#[test]
fn inode_numbers_and_handles_only_grow() {
    let mut fs = small(8);
    let a = fs.create(1, "a", 0o644, 0, 0).unwrap();
    assert_eq!((a.attr.ino, a.fh), (2, 1));
    assert_eq!(fs.unlink(1, "a"), Ok(()));
    let b = fs.create(1, "a", 0o644, 0, 0).unwrap();
    assert_eq!((b.attr.ino, b.fh), (3, 2));
    assert_eq!(fs.open(3, 0), Ok(3));
    assert_eq!(fs.opendir(1, 0), Ok(4));
    assert_eq!(fs.allocate_fh(), 5);
    assert_eq!(fs.allocate_ino(), 4);
    let snap = fs.save();
    assert!(snap.inode_bitmap.is_set(2));
    assert!(snap.inode_bitmap.is_set(3));
    assert!(snap.inode_bitmap.is_set(4));
    assert!(!snap.inode_bitmap.is_set(5));
}

#[test]
fn open_and_opendir_check_the_inode() {
    let mut fs = small(8);
    fs.create(1, "a", 0o644, 0, 0).unwrap();
    assert_eq!(fs.open(9, 0), Err(Errno::ENOENT));
    assert_eq!(fs.opendir(9, 0), Err(Errno::ENOENT));
    assert_eq!(fs.opendir(2, 0), Err(Errno::ENOTDIR));
    assert_eq!(fs.open(1, 0), Ok(2));
    assert_eq!(fs.access(1, 7), Ok(()));
    assert_eq!(fs.access(2, 0), Ok(()));
    assert_eq!(fs.access(9, 0), Err(Errno::ENOENT));
    assert_eq!(fs.flush(2, 1), Ok(()));
}

#[test]
fn lookup_and_getattr_answer_no_such_entry() {
    let mut fs = small(8);
    assert_eq!(fs.lookup(1, "nope").err(), Some(Errno::ENOENT));
    assert_eq!(fs.lookup(7, "a").err(), Some(Errno::ENOENT));
    assert_eq!(fs.getattr(7).err(), Some(Errno::ENOENT));
    assert_eq!(fs.lookup(1, ".").unwrap().ino, 1);
    assert_eq!(fs.lookup(1, "..").unwrap().ino, 1);
    fs.mkdir(1, "d", 0o755, 0, 0).unwrap();
    assert_eq!(fs.lookup(2, "..").unwrap().ino, 1);
    assert_eq!(fs.lookup(2, ".").unwrap().ino, 2);
}

#[test]
fn attributes_round_the_size_up_to_sectors() {
    let mut fs = BWFS::new(config(800, 800, 64, 256));
    let mut disk = Disk::new();
    fs.create(1, "a", 0o644, 0, 0).unwrap();
    let a = fs.getattr(2).unwrap();
    assert_eq!((a.blocks, a.blksize, a.rdev, a.flags), (0, 4096, 0, 0));
    assert_eq!(a.crtime, a.ctime);
    write(&mut fs, &mut disk, 2, 0, &[0; 512]).unwrap();
    assert_eq!(fs.getattr(2).unwrap().blocks, 1);
    write(&mut fs, &mut disk, 2, 512, &[0; 1]).unwrap();
    assert_eq!(fs.getattr(2).unwrap().blocks, 2);
}

#[test]
fn unlink_frees_the_blocks_of_the_file() {
    let mut fs = small(8);
    let mut disk = Disk::new();
    fs.create(1, "a", 0o644, 0, 0).unwrap();
    write(&mut fs, &mut disk, 2, 0, &[1; 20]).unwrap();
    assert_eq!(fs.statfs().bfree, 4);
    assert_eq!(fs.unlink(1, "a"), Ok(()));
    assert_eq!(fs.statfs().bfree, 7);
    assert_eq!(fs.getattr(2).err(), Some(Errno::ENOENT));
    assert_eq!(names(&fs, 1), vec![".", ".."]);
    assert_eq!(fs.unlink(1, "a"), Err(Errno::ENOENT));
    assert_eq!(fs.unlink(9, "a"), Err(Errno::ENOENT));
    fs.create(1, "b", 0o644, 0, 0).unwrap();
    assert_eq!(fs.begin_write(3, 0, 8).fresh_blocks, vec![1]);
}

#[test]
fn rmdir_refuses_a_directory_with_entries() {
    let mut fs = small(8);
    fs.mkdir(1, "d", 0o755, 0, 0).unwrap();
    fs.create(2, "f", 0o644, 0, 0).unwrap();
    assert_eq!(fs.rmdir(1, "d"), Err(Errno::ENOTEMPTY));
    assert_eq!(fs.getattr(1).unwrap().nlink, 3);
    assert_eq!(fs.unlink(2, "f"), Ok(()));
    assert_eq!(fs.rmdir(1, "d"), Ok(()));
    assert_eq!(fs.getattr(1).unwrap().nlink, 2);
    assert_eq!(names(&fs, 1), vec![".", ".."]);
}

#[test]
fn rmdir_looks_only_at_directory_entries() {
    let mut fs = small(8);
    fs.create(1, "f", 0o644, 0, 0).unwrap();
    assert_eq!(fs.rmdir(1, "f"), Err(Errno::ENOENT));
    assert_eq!(fs.rmdir(1, "nope"), Err(Errno::ENOENT));
    assert_eq!(fs.rmdir(9, "f"), Err(Errno::ENOENT));
    assert_eq!(fs.lookup(1, "f").unwrap().ino, 2);
}

#[test]
fn rename_moves_the_entry_to_the_end_of_the_new_parent() {
    let mut fs = small(8);
    fs.create(1, "a", 0o644, 0, 0).unwrap();
    fs.mkdir(1, "d", 0o755, 0, 0).unwrap();
    fs.create(3, "x", 0o644, 0, 0).unwrap();
    assert_eq!(fs.rename(1, "a", 3, "b"), Ok(()));
    assert_eq!(names(&fs, 1), vec![".", "..", "d"]);
    assert_eq!(names(&fs, 3), vec![".", "..", "x", "b"]);
    assert_eq!(fs.lookup(3, "b").unwrap().ino, 2);
    assert_eq!(fs.lookup(1, "a").err(), Some(Errno::ENOENT));
    assert_eq!(fs.rename(1, "a", 3, "c"), Err(Errno::ENOENT));
    assert_eq!(fs.rename(9, "a", 3, "c"), Err(Errno::ENOENT));
}

#[test]
fn rename_does_not_check_the_destination() {
    let mut fs = small(8);
    fs.create(1, "a", 0o644, 0, 0).unwrap();
    fs.create(1, "b", 0o644, 0, 0).unwrap();
    assert_eq!(fs.rename(1, "a", 1, "b"), Ok(()));
    assert_eq!(names(&fs, 1), vec![".", "..", "b", "b"]);
    assert_eq!(fs.lookup(1, "b").unwrap().ino, 3);
    assert_eq!(fs.rename(1, "b", 77, "z"), Ok(()));
    assert_eq!(names(&fs, 77), vec!["z"]);
    assert_eq!(fs.lookup(1, "b").unwrap().ino, 2);
}

#[test]
fn readdir_resumes_at_an_offset() {
    let mut fs = small(8);
    fs.create(1, "a", 0o644, 0, 0).unwrap();
    fs.mkdir(1, "d", 0o755, 0, 0).unwrap();
    let all = fs.readdir(1, 0);
    assert_eq!(all.len(), 4);
    let rest = fs.readdir(1, 2);
    assert_eq!(rest.len(), 2);
    assert_eq!((rest[0].ino, rest[0].offset, rest[0].kind, rest[0].name.as_str()), (2, 3, FileType::RegularFile, "a"));
    assert_eq!((rest[1].ino, rest[1].offset, rest[1].kind, rest[1].name.as_str()), (3, 4, FileType::Directory, "d"));
    assert!(fs.readdir(1, 4).is_empty());
    assert!(fs.readdir(1, 5).is_empty());
    assert!(fs.readdir(1, -1).is_empty());
    assert!(fs.readdir(1, i64::MAX).is_empty());
    assert!(fs.readdir(42, 0).is_empty());
    assert!(fs.readdir(2, 0).is_empty());
}

#[test]
fn statfs_counts_free_blocks_and_inodes() {
    let mut fs = BWFS::new(config(800, 800, 64, 256));
    assert_eq!(
        fs.statfs(),
        StatFs { blocks: 64, bfree: 63, bavail: 63, files: 256, ffree: 255, bsize: 80_000, namelen: 255, frsize: 80_000 }
    );
    fs.create(1, "a", 0o644, 0, 0).unwrap();
    fs.begin_write(2, 0, 1);
    let s = fs.statfs();
    assert_eq!((s.bfree, s.bavail, s.ffree), (62, 62, 254));
}

#[test]
fn statfs_needs_the_inodes_to_fit_the_total() {
    let mut fs = BWFS::new(config(8, 8, 4, 2));
    assert!(fs.can_statfs());
    fs.create(1, "a", 0o644, 0, 0).unwrap();
    assert!(fs.can_statfs());
    assert_eq!(fs.statfs().ffree, 0);
    fs.create(1, "b", 0o644, 0, 0).unwrap();
    assert!(!fs.can_statfs());
}

#[test]
fn sync_hands_out_a_snapshot_only_when_dirty() {
    let mut fs = small(8);
    assert!(fs.sync_if_dirty().is_none());
    fs.mark_dirty();
    assert!(fs.sync_if_dirty().is_some());
    assert_eq!(fs.fsync(false), Err(Errno::EIO));
    assert!(fs.is_dirty());
    assert_eq!(fs.fsync(true), Ok(()));
    assert!(!fs.is_dirty());
    assert!(fs.sync_if_dirty().is_none());
}

#[test]
fn every_mutating_operation_marks_the_tables_dirty() {
    let mut fs = small(8);
    fs.create(1, "a", 0o644, 0, 0).unwrap();
    assert!(fs.is_dirty());
    fs.fsync(true).unwrap();
    fs.mkdir(1, "d", 0o755, 0, 0).unwrap();
    assert!(fs.is_dirty());
    fs.fsync(true).unwrap();
    fs.rename(1, "a", 1, "b").unwrap();
    assert!(fs.is_dirty());
    fs.fsync(true).unwrap();
    fs.unlink(1, "b").unwrap();
    assert!(fs.is_dirty());
    fs.fsync(true).unwrap();
    fs.rmdir(1, "d").unwrap();
    assert!(fs.is_dirty());
    fs.fsync(true).unwrap();
    fs.open(1, 0).unwrap();
    let _ = fs.lookup(1, ".");
    let _ = fs.read_plan(1, 0, 1);
    let _ = fs.create(1, ".", 0, 0, 0);
    let _ = fs.rmdir(1, "nope");
    assert!(!fs.is_dirty());
}

#[test]
fn release_drops_the_handle_after_the_sync() {
    let mut fs = small(8);
    let fh = fs.create(1, "a", 0o644, 0, 0).unwrap().fh;
    assert_eq!(fs.release(fh, false), Err(Errno::EIO));
    assert!(fs.is_dirty());
    assert_eq!(fs.handle_inode(fh), Some(2));
    assert_eq!(fs.release(fh, true), Ok(()));
    assert!(!fs.is_dirty());
    assert_eq!(fs.handle_inode(fh), None);
    assert_eq!(fs.release(fh, true), Ok(()));
    let dh = fs.opendir(1, 0).unwrap();
    assert_eq!(fs.handle_inode(dh), Some(1));
    fs.mark_dirty();
    assert_eq!(fs.releasedir(dh, false), Err(Errno::EIO));
    assert_eq!(fs.releasedir(dh, true), Ok(()));
    assert!(!fs.is_dirty());
}

#[test]
fn snapshot_survives_load_and_save() {
    let mut fs = small(16);
    let mut disk = Disk::new();
    fs.create(1, "a", 0o644, 0, 0).unwrap();
    fs.mkdir(1, "d", 0o755, 0, 0).unwrap();
    write(&mut fs, &mut disk, 2, 0, &[3; 20]).unwrap();
    let first = fs.save();
    let facts = snapshot_facts(&first);
    let loaded = BWFS::load(config(8, 8, 16, 16), Some(first));
    let second = loaded.save();
    assert_eq!(snapshot_facts(&second), facts);
    assert_eq!(read(&loaded, &disk, 2, 0, 20).unwrap(), vec![3; 20]);
    assert_eq!(loaded.getattr(1).unwrap().nlink, 3);
    let mut loaded = loaded;
    assert_eq!(loaded.open(2, 0), Ok(1));
    assert_eq!(loaded.create(1, "n", 0o644, 0, 0).unwrap().attr.ino, 4);
}

#[test]
fn load_reserves_block_zero_whatever_the_snapshot_says() {
    let fs = small(8);
    let mut snap = fs.save();
    snap.block_bitmap.clear(0);
    assert!(!snap.block_bitmap.is_set(0));
    let mut loaded = BWFS::load(config(8, 8, 8, 16), Some(snap));
    assert!(loaded.save().block_bitmap.is_set(0));
    assert_eq!(loaded.allocate_block(), Some(1));
}

#[test]
fn load_without_a_snapshot_is_a_fresh_filesystem() {
    let fs = BWFS::load(config(8, 8, 8, 16), None);
    assert_eq!(names(&fs, 1), vec![".", ".."]);
    assert_eq!(fs.getattr(1).unwrap().nlink, 2);
    assert_eq!(fs.save().next_ino, 2);
    assert_eq!(fs.statfs().bfree, 7);
}

#[test]
fn directory_link_counts_follow_the_child_directories() {
    let mut fs = small(8);
    fs.mkdir(1, "a", 0o755, 0, 0).unwrap();
    fs.mkdir(1, "b", 0o755, 0, 0).unwrap();
    fs.mkdir(2, "c", 0o755, 0, 0).unwrap();
    fs.create(2, "f", 0o644, 0, 0).unwrap();
    assert_eq!(fs.getattr(1).unwrap().nlink, 4);
    assert_eq!(fs.getattr(2).unwrap().nlink, 3);
    assert_eq!(fs.getattr(3).unwrap().nlink, 2);
    assert_eq!(fs.getattr(4).unwrap().nlink, 2);
    fs.rename(2, "f", 1, "g").unwrap();
    fs.unlink(1, "g").unwrap();
    fs.rmdir(2, "c").unwrap();
    assert_eq!(fs.getattr(1).unwrap().nlink, 4);
    assert_eq!(fs.getattr(2).unwrap().nlink, 2);
}

#[test]
fn unlink_of_a_directory_entry_leaves_the_parent_count() {
    let mut fs = small(8);
    fs.mkdir(1, "d", 0o755, 0, 0).unwrap();
    assert!(fs.can_unlink(1, "d"));
    assert_eq!(fs.unlink(1, "d"), Ok(()));
    assert_eq!(fs.getattr(1).unwrap().nlink, 3);
    assert_eq!(fs.getattr(2).unwrap().nlink, 1);
    assert_eq!(names(&fs, 1), vec![".", ".."]);
}

#[test]
fn range_checks_hold_in_ordinary_states() {
    let mut fs = small(8);
    assert!(fs.can_create(1, "a"));
    assert!(fs.can_mkdir(1, "d"));
    assert!(fs.can_open(1));
    assert!(fs.can_open(99));
    fs.mkdir(1, "d", 0o755, 0, 0).unwrap();
    assert!(fs.can_rmdir(1, "d"));
    assert!(fs.can_rmdir(1, "nope"));
    assert!(fs.can_unlink(1, "nope"));
    assert!(fs.can_create(1, "d"));
    assert!(fs.can_mkdir(7, "x"));
    assert_eq!(fs.config().total_blocks, 8);
}

#[test]
fn files_keep_their_own_blocks() {
    let mut fs = small(16);
    let mut disk = Disk::new();
    fs.create(1, "a", 0o644, 0, 0).unwrap();
    fs.create(1, "b", 0o644, 0, 0).unwrap();
    write(&mut fs, &mut disk, 2, 0, &[1; 12]).unwrap();
    write(&mut fs, &mut disk, 3, 0, &[2; 12]).unwrap();
    write(&mut fs, &mut disk, 2, 12, &[3; 8]).unwrap();
    assert_eq!(fs.read_plan(2, 0, 24), Ok(vec![1, 2, 5]));
    assert_eq!(fs.read_plan(3, 0, 24), Ok(vec![3, 4]));
    let mut a = vec![1u8; 12];
    a.extend_from_slice(&[3; 8]);
    assert_eq!(read(&fs, &disk, 2, 0, 20).unwrap(), a);
    assert_eq!(read(&fs, &disk, 3, 0, 12).unwrap(), vec![2; 12]);
    fs.unlink(1, "a").unwrap();
    assert_eq!(read(&fs, &disk, 3, 0, 12).unwrap(), vec![2; 12]);
    fs.create(1, "c", 0o644, 0, 0).unwrap();
    write(&mut fs, &mut disk, 4, 0, &[9; 24]).unwrap();
    assert_eq!(fs.read_plan(4, 0, 24), Ok(vec![1, 2, 5]));
    assert_eq!(read(&fs, &disk, 3, 0, 12).unwrap(), vec![2; 12]);
}
