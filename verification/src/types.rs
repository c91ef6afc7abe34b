//! Plain values that the namespace engine takes and gives.

use crate::inode::{FileType, INode};
use std::time::SystemTime;
use vstd::prelude::*;

verus! {

/// Seconds for which attributes and entries handed out may be cached.
pub const TTL_SECS: u64 = 1;

/// Longest file name reported by `statfs`.
pub const NAME_MAX: u32 = 255;

/// Preferred I/O size reported in attributes.
pub const ATTR_BLOCK_SIZE: u32 = 4096;

/// The errors an operation can answer with.
#[derive(Debug, Clone, Copy, PartialEq, Eq, Structural)]
pub enum Errno {
    /// No such entry.
    ENOENT,
    /// Not a directory.
    ENOTDIR,
    /// Is a directory.
    EISDIR,
    /// Already exists.
    EEXIST,
    /// Directory not empty.
    ENOTEMPTY,
    /// No space left.
    ENOSPC,
    /// I/O error.
    EIO,
}

/// Attributes of a filesystem object as they are handed to the kernel
/// bridge.
#[derive(Debug, Clone, Copy)]
pub struct FileAttr {
    pub ino: u64,
    pub size: u64,
    /// Size in 512-byte units, rounded up.
    pub blocks: u64,
    pub atime: SystemTime,
    pub mtime: SystemTime,
    pub ctime: SystemTime,
    pub crtime: SystemTime,
    pub kind: FileType,
    pub perm: u16,
    pub nlink: u32,
    pub uid: u32,
    pub gid: u32,
    pub rdev: u32,
    pub blksize: u32,
    pub flags: u32,
}

/// The attributes that describe `inode`.
pub open spec fn attr_of(inode: INode) -> FileAttr {
    FileAttr {
        ino: inode.ino,
        size: inode.size,
        blocks: ((inode.size + 511) / 512) as u64,
        atime: inode.atime,
        mtime: inode.mtime,
        ctime: inode.ctime,
        crtime: inode.ctime,
        kind: inode.file_type,
        perm: inode.mode,
        nlink: inode.nlink,
        uid: inode.uid,
        gid: inode.gid,
        rdev: 0,
        blksize: ATTR_BLOCK_SIZE,
        flags: 0,
    }
}

/// Converts an inode to the attributes handed out for it.
pub fn inode_to_attr(inode: &INode) -> (attr: FileAttr)
    ensures
        attr == attr_of(*inode),
{
    let blocks: u64 = inode.size / 512 + (if inode.size % 512 == 0 { 0 } else { 1 });
    FileAttr {
        ino: inode.ino,
        size: inode.size,
        blocks,
        atime: inode.atime,
        mtime: inode.mtime,
        ctime: inode.ctime,
        crtime: inode.ctime,
        kind: inode.file_type,
        perm: inode.mode,
        nlink: inode.nlink,
        uid: inode.uid,
        gid: inode.gid,
        rdev: 0,
        blksize: ATTR_BLOCK_SIZE,
        flags: 0,
    }
}

/// Answer to a successful `create`.
#[derive(Debug, Clone, Copy)]
pub struct Created {
    pub attr: FileAttr,
    pub generation: u64,
    pub fh: u64,
    pub flags: u32,
}

/// Answer to `statfs`.
#[derive(Debug, Clone, Copy, PartialEq, Eq, Structural)]
pub struct StatFs {
    pub blocks: u64,
    pub bfree: u64,
    pub bavail: u64,
    pub files: u64,
    pub ffree: u64,
    pub bsize: u32,
    pub namelen: u32,
    pub frsize: u32,
}

/// One line of a directory listing in contracts.
pub struct ListingView {
    pub ino: u64,
    /// Offset at which a later listing resumes after this entry.
    pub offset: i64,
    pub kind: FileType,
    pub name: Seq<char>,
}

/// One line of a directory listing.
#[derive(Debug)]
pub struct Listing {
    pub ino: u64,
    /// Offset at which a later listing resumes after this entry.
    pub offset: i64,
    pub kind: FileType,
    pub name: String,
}

impl View for Listing {
    type V = ListingView;

    open spec fn view(&self) -> ListingView {
        ListingView { ino: self.ino, offset: self.offset, kind: self.kind, name: self.name@ }
    }
}

/// One block of a write: `len` bytes of the data, from `data_start` on, go
/// to offset `block_offset` of physical block `block`.
#[derive(Debug, Clone, Copy, PartialEq, Eq, Structural)]
pub struct WriteStep {
    pub block: u32,
    pub block_offset: usize,
    pub data_start: usize,
    pub len: usize,
}

/// What a write has to do on storage, in contracts.
pub struct WritePlanView {
    pub fresh_blocks: Seq<u32>,
    pub steps: Seq<WriteStep>,
    pub refusal: Option<Errno>,
}

/// What a write has to do on storage: the blocks allocated for it, which
/// are initialised first, then one step for each block it touches. Where
/// the write is refused, `refusal` holds the error and there are no steps.
#[derive(Debug)]
pub struct WritePlan {
    pub fresh_blocks: Vec<u32>,
    pub steps: Vec<WriteStep>,
    pub refusal: Option<Errno>,
}

impl View for WritePlan {
    type V = WritePlanView;

    open spec fn view(&self) -> WritePlanView {
        WritePlanView {
            fresh_blocks: self.fresh_blocks@,
            steps: self.steps@,
            refusal: self.refusal,
        }
    }
}

} // verus!
