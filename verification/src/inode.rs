//! Inodes and directory entries: plain values, no I/O.

use std::time::SystemTime;
use vstd::prelude::*;

verus! {

/// Number of direct block slots in an inode.
pub const DIRECT_BLOCKS: usize = 12;

/// The slot value that stands for "no block assigned".
pub const UNASSIGNED: u32 = 0xFFFF_FFFF;

/// A wall-clock instant. Its inside is not modelled: the library only
/// carries timestamps from the clock into inodes and attributes.
#[verifier::external_type_specification]
#[verifier::external_body]
pub struct ExSystemTime(SystemTime);

/// Reads the wall clock with `SystemTime::now`. Nothing is claimed of the
/// instant that comes back.
#[verifier::external_body]
pub(crate) fn current_time() -> SystemTime {
    SystemTime::now()
}

/// File types supported by the filesystem.
#[derive(Debug, Clone, Copy, PartialEq, Eq, Structural)]
pub enum FileType {
    RegularFile,
    Directory,
    Symlink,
}

/// Metadata record of one filesystem object.
#[derive(Debug, Clone, Copy)]
pub struct INode {
    /// Unique inode number
    pub ino: u64,
    /// File type
    pub file_type: FileType,
    /// File size in bytes
    pub size: u64,
    /// Number of hard links
    pub nlink: u32,
    /// User ID
    pub uid: u32,
    /// Group ID
    pub gid: u32,
    /// Permissions (mode)
    pub mode: u16,
    /// Access time
    pub atime: SystemTime,
    /// Modification time
    pub mtime: SystemTime,
    /// Change time
    pub ctime: SystemTime,
    /// Direct block pointers (block numbers)
    pub direct_blocks: [u32; 12],
    /// Single indirect block pointer (reserved)
    pub indirect_block: u32,
    /// Double indirect block pointer (reserved)
    pub double_indirect_block: u32,
}

impl INode {
    /// The inode that is created at instant `now`: empty, one link, all
    /// three timestamps equal to `now`, no block assigned.
    pub open spec fn fresh(
        ino: u64,
        file_type: FileType,
        mode: u16,
        uid: u32,
        gid: u32,
        now: SystemTime,
    ) -> INode {
        INode {
            ino,
            file_type,
            size: 0,
            nlink: 1,
            uid,
            gid,
            mode,
            atime: now,
            mtime: now,
            ctime: now,
            direct_blocks: vstd::array::spec_array_fill_for_copy_type::<u32, 12>(UNASSIGNED),
            indirect_block: UNASSIGNED,
            double_indirect_block: UNASSIGNED,
        }
    }

    /// The physical block that logical block `index` is mapped to, if any.
    /// Indices past the direct slots are never mapped.
    pub open spec fn block_at(&self, index: int) -> Option<u32> {
        if 0 <= index < 12 && self.direct_blocks@[index] != UNASSIGNED {
            Some(self.direct_blocks@[index])
        } else {
            None
        }
    }

    /// This inode with direct slot `index` set to `block`.
    pub open spec fn with_block(self, index: int, block: u32) -> INode {
        INode { direct_blocks: vstd::array::spec_array_update(self.direct_blocks, index, block), ..self }
    }

    /// Creates an inode stamped with the instant `now`.
    pub fn new_at(ino: u64, file_type: FileType, mode: u16, uid: u32, gid: u32, now: SystemTime) -> (r:
        Self)
        ensures
            r == INode::fresh(ino, file_type, mode, uid, gid, now),
    {
        let r = INode {
            ino,
            file_type,
            size: 0,
            nlink: 1,
            uid,
            gid,
            mode,
            atime: now,
            mtime: now,
            ctime: now,
            direct_blocks: [UNASSIGNED;12],
            indirect_block: UNASSIGNED,
            double_indirect_block: UNASSIGNED,
        };
        r
    }

    /// Creates an inode stamped with the current time. The result is the
    /// fresh inode of the instant that the clock gave, which is the
    /// inode's own access time.
    pub fn new(ino: u64, file_type: FileType, mode: u16, uid: u32, gid: u32) -> (r: Self)
        ensures
            r == INode::fresh(ino, file_type, mode, uid, gid, r.atime),
    {
        let now = current_time();
        INode::new_at(ino, file_type, mode, uid, gid, now)
    }

    /// Check if this is a directory
    pub fn is_dir(&self) -> (r: bool)
        ensures
            r == (self.file_type == FileType::Directory),
    {
        self.file_type == FileType::Directory
    }

    /// Check if this is a regular file
    pub fn is_file(&self) -> (r: bool)
        ensures
            r == (self.file_type == FileType::RegularFile),
    {
        self.file_type == FileType::RegularFile
    }

    /// The physical block of logical block `block_index`, or `None` when
    /// the slot is unassigned or lies past the direct slots.
    pub fn get_block_number(&self, block_index: u32) -> (r: Option<u32>)
        ensures
            r == self.block_at(block_index as int),
    {
        if block_index < 12 {
            let block = self.direct_blocks[block_index as usize];
            if block != UNASSIGNED {
                Some(block)
            } else {
                None
            }
        } else {
            None
        }
    }

    /// Maps logical block `block_index` to `block_num`. Only the direct
    /// slots can be set: for any other index nothing changes and the
    /// result is `false`.
    pub fn set_block_number(&mut self, block_index: u32, block_num: u32) -> (r: bool)
        ensures
            r == (block_index < 12),
            r ==> *final(self) == old(self).with_block(block_index as int, block_num),
            r ==> final(self).direct_blocks@ == old(self).direct_blocks@.update(
                block_index as int,
                block_num,
            ),
            !r ==> *final(self) == *old(self),
    {
        if block_index < 12 {
            self.direct_blocks[block_index as usize] = block_num;
            true
        } else {
            false
        }
    }
}

/// What a directory entry is in contracts: its name as a sequence of
/// characters.
pub struct DirEntryView {
    pub ino: u64,
    pub name: Seq<char>,
    pub file_type: FileType,
}

/// Directory entry
#[derive(Debug)]
pub struct DirEntry {
    /// Inode number
    pub ino: u64,
    /// File name
    pub name: String,
    /// File type
    pub file_type: FileType,
}

impl View for DirEntry {
    type V = DirEntryView;

    open spec fn view(&self) -> DirEntryView {
        DirEntryView { ino: self.ino, name: self.name@, file_type: self.file_type }
    }
}

impl Clone for DirEntry {
    fn clone(&self) -> (r: Self)
        ensures
            r == *self,
    {
        DirEntry { ino: self.ino, name: self.name.clone(), file_type: self.file_type }
    }
}

impl DirEntry {
    pub fn new(ino: u64, name: String, file_type: FileType) -> (r: Self)
        ensures
            r == (DirEntry { ino, name, file_type }),
    {
        Self { ino, name, file_type }
    }
}

/// The entries of a directory list as they appear in contracts.
pub open spec fn entries_view(entries: Seq<DirEntry>) -> Seq<DirEntryView> {
    entries.map_values(|e: DirEntry| e@)
}

} // verus!
