//! The namespace engine: inode and directory tables, open handles, the two
//! bitmaps and the dirty flag, with one function for each filesystem
//! operation.
//!
//! The engine never touches the disk. Where an operation needs block
//! images read or written in the middle, it is split: one function lays
//! out the storage work, the caller does it, and another function takes
//! the outcome. Every function computes the matching function of
//! [`crate::model`].

use crate::bitmap::{lemma_lowest_clear, lowest_clear};
use crate::config::Config;
use crate::inode::{current_time, entries_view, DirEntry, DirEntryView, FileType, INode};
use crate::model;
use crate::model::{
    dot, dot_entries, dotdot, entries_of, find_named, is_first_named, lemma_find_named, matches_name,
    superblock_reserved, FsState, SnapshotView,
};
use crate::storage::{Bitmap, BlockStorage};
use crate::types::{
    inode_to_attr, Created, Errno, FileAttr, Listing, ListingView, StatFs, WritePlan, WriteStep,
    NAME_MAX,
};
use std::collections::HashMap;
use std::time::SystemTime;
use vstd::prelude::*;

verus! {

broadcast use vstd::std_specs::hash::group_hash_axioms;

/// Directory lists as they appear in contracts.
pub open spec fn dirs_view(m: Map<u64, Vec<DirEntry>>) -> Map<u64, Seq<DirEntryView>> {
    Map::new(|k: u64| m.contains_key(k), |k: u64| entries_view(m[k]@))
}

proof fn lemma_dirs_insert(m: Map<u64, Vec<DirEntry>>, k: u64, v: Vec<DirEntry>)
    ensures
        dirs_view(m.insert(k, v)) == dirs_view(m).insert(k, entries_view(v@)),
{
    assert(dirs_view(m.insert(k, v)) =~= dirs_view(m).insert(k, entries_view(v@)));
}

proof fn lemma_dirs_remove(m: Map<u64, Vec<DirEntry>>, k: u64)
    ensures
        dirs_view(m.remove(k)) == dirs_view(m).remove(k),
{
    assert(dirs_view(m.remove(k)) =~= dirs_view(m).remove(k));
}

/// The snapshot that persists the tables.
pub struct FilesystemMetadata {
    pub inodes: HashMap<u64, INode>,
    pub directories: HashMap<u64, Vec<DirEntry>>,
    pub block_bitmap: Bitmap,
    pub inode_bitmap: Bitmap,
    pub next_ino: u64,
}

impl View for FilesystemMetadata {
    type V = SnapshotView;

    open spec fn view(&self) -> SnapshotView {
        SnapshotView {
            inodes: self.inodes@,
            directories: dirs_view(self.directories@),
            block_bits: self.block_bitmap@,
            inode_bits: self.inode_bitmap@,
            next_ino: self.next_ino,
        }
    }
}

/// Main BWFS filesystem structure
pub struct BWFS {
    /// Block storage layer
    storage: BlockStorage,
    /// INode table
    inodes: HashMap<u64, INode>,
    /// Directory entries (ino -> entries)
    directories: HashMap<u64, Vec<DirEntry>>,
    /// Open file handles (handle -> ino)
    open_files: HashMap<u64, u64>,
    /// Next available file handle
    next_fh: u64,
    /// Block bitmap
    block_bitmap: Bitmap,
    /// INode bitmap
    inode_bitmap: Bitmap,
    /// Configuration
    config: Config,
    /// Next available inode number
    next_ino: u64,
    /// True if the tables have changes that no snapshot holds yet
    dirty: bool,
}

impl View for BWFS {
    type V = FsState;

    closed spec fn view(&self) -> FsState {
        FsState {
            inodes: self.inodes@,
            directories: dirs_view(self.directories@),
            open_files: self.open_files@,
            next_fh: self.next_fh,
            next_ino: self.next_ino,
            block_bits: self.block_bitmap@,
            inode_bits: self.inode_bitmap@,
            dirty: self.dirty,
        }
    }
}

/// The two entries a directory is created with.
fn dot_list(ino: u64, parent: u64) -> (r: Vec<DirEntry>)
    ensures
        entries_view(r@) == dot_entries(ino, parent),
{
    let mut r: Vec<DirEntry> = Vec::new();
    let d: String = ".".to_owned();
    let dd: String = "..".to_owned();
    proof {
        reveal_strlit(".");
        reveal_strlit("..");
        assert(d@ =~= dot());
        assert(dd@ =~= dotdot());
    }
    r.push(DirEntry::new(ino, d, FileType::Directory));
    r.push(DirEntry::new(parent, dd, FileType::Directory));
    assert(entries_view(r@) =~= dot_entries(ino, parent));
    r
}

/// Finds the first entry with the name `name`, of type directory where
/// `dirs_only` holds.
fn find_entry(entries: &Vec<DirEntry>, name: &String, dirs_only: bool) -> (r: Option<usize>)
    ensures
        match r {
            Some(i) => i < entries@.len() && find_named(entries_view(entries@), name@, dirs_only)
                == Some(i as int),
            None => find_named(entries_view(entries@), name@, dirs_only) is None,
        },
{
    let ghost view = entries_view(entries@);
    let mut i: usize = 0;
    while i < entries.len()
        invariant
            i <= entries@.len(),
            view == entries_view(entries@),
            forall|j: int| 0 <= j < i ==> !matches_name(#[trigger] view[j], name@, dirs_only),
        decreases entries@.len() - i,
    {
        let e = &entries[i];
        let same = e.name == *name;
        let hit = same && (!dirs_only || e.file_type == FileType::Directory);
        assert(hit == matches_name(view[i as int], name@, dirs_only));
        if hit {
            proof {
                assert(is_first_named(view, name@, dirs_only, i as int));
                lemma_find_named(view, name@, dirs_only);
            }
            return Some(i);
        }
        i += 1;
    }
    proof {
        lemma_find_named(view, name@, dirs_only);
    }
    None
}

/// A span starts no later than it ends.
proof fn lemma_span_order(offset: int, len: int, block_size: int)
    requires
        0 <= offset,
        0 <= len,
        0 < block_size,
    ensures
        0 <= model::span_start(offset, block_size) <= model::span_end(offset, len, block_size),
{
    vstd::arithmetic::div_mod::lemma_div_is_ordered(
        offset,
        offset + len + block_size - 1,
        block_size,
    );
    vstd::arithmetic::div_mod::lemma_div_pos_is_pos(offset, block_size);
}

/// A transfer that spans at most twelve blocks ends within twelve blocks.
proof fn lemma_span_bounds(offset: int, len: int, block_size: int)
    requires
        0 <= offset,
        0 <= len,
        0 < block_size,
        model::span_end(offset, len, block_size) <= 12,
    ensures
        0 <= model::span_start(offset, block_size) <= model::span_end(offset, len, block_size),
        offset + len <= 12 * block_size,
        offset == model::span_start(offset, block_size) * block_size + offset % block_size,
        0 <= offset % block_size < block_size,
{
    lemma_span_order(offset, len, block_size);
    let x = offset + len + block_size - 1;
    let q = x / block_size;
    vstd::arithmetic::div_mod::lemma_fundamental_div_mod(offset, block_size);
    vstd::arithmetic::div_mod::lemma_fundamental_div_mod(x, block_size);
    assert(block_size * q <= block_size * 12) by (nonlinear_arith)
        requires
            q <= 12,
            0 < block_size,
    ;
    assert(block_size * (offset / block_size) == (offset / block_size) * block_size)
        by (nonlinear_arith);
}

proof fn lemma_entries_push(v: Seq<DirEntry>, e: DirEntry)
    ensures
        entries_view(v.push(e)) == entries_view(v).push(e@),
{
    assert(entries_view(v.push(e)) =~= entries_view(v).push(e@));
}

proof fn lemma_entries_remove(v: Seq<DirEntry>, i: int)
    requires
        0 <= i < v.len(),
    ensures
        entries_view(v.remove(i)) == entries_view(v).remove(i),
{
    assert(entries_view(v.remove(i)) =~= entries_view(v).remove(i));
}

proof fn lemma_find_in_empty(name: Seq<char>, dirs_only: bool)
    ensures
        find_named(Seq::<DirEntryView>::empty(), name, dirs_only) is None,
{
    lemma_find_named(Seq::<DirEntryView>::empty(), name, dirs_only);
}

/// No logical block past the direct slots is mapped, so a span can be cut
/// at twelve.
proof fn lemma_mapped_clamp(inode: INode, start: int, end: int)
    requires
        0 <= start,
    ensures
        model::mapped_blocks(inode, start, end) == if start >= 12 {
            Seq::<u32>::empty()
        } else if end > 12 {
            model::mapped_blocks(inode, start, 12)
        } else {
            model::mapped_blocks(inode, start, end)
        },
    decreases end - start,
{
    if end > start && end > 12 {
        lemma_mapped_clamp(inode, start, end - 1);
    }
}

/// The lines of a listing as they appear in contracts.
pub open spec fn listing_view(lines: Seq<Listing>) -> Seq<ListingView> {
    lines.map_values(|l: Listing| l@)
}

impl BWFS {
    /// The block storage layer.
    pub closed spec fn storage_view(&self) -> BlockStorage {
        self.storage
    }

    /// The configuration the filesystem was made with.
    pub closed spec fn config_view(&self) -> Config {
        self.config
    }

    /// Bytes in a block.
    pub open spec fn block_size(&self) -> nat {
        self.storage_view().capacity()
    }

    /// Number of blocks the filesystem was configured with.
    pub open spec fn total_blocks(&self) -> u32 {
        self.config_view().total_blocks
    }

    /// Number of inodes the filesystem was configured with.
    pub open spec fn total_inodes(&self) -> u32 {
        self.config_view().total_inodes
    }

    /// Whether the storage layer is the one that `config` describes.
    pub open spec fn made_from(&self, config: Config) -> bool {
        &&& self.config_view() == config
        &&& self.storage_view().width() == config.block_width
        &&& self.storage_view().height() == config.block_height
        &&& self.storage_view().total() == config.total_blocks
        &&& self.storage_view().tag() == config.fingerprint@
    }

    /// Whether `other` has the storage layer and the configuration of
    /// `self`.
    pub open spec fn same_setup(&self, other: &Self) -> bool {
        &&& self.storage_view() == other.storage_view()
        &&& self.config_view() == other.config_view()
    }

    /// What every reachable engine satisfies: blocks hold at least one
    /// byte, block numbers fit 32 bits without reaching the "unassigned"
    /// mark, and block 0 is reserved.
    pub open spec fn wf(&self) -> bool {
        &&& self.block_size() > 0
        &&& self@.block_bits.len() <= u32::MAX
        &&& superblock_reserved(self@.block_bits)
    }

    /// Creates a filesystem at instant `now`: the root directory is inode
    /// 1, block 0 is reserved.
    pub fn new_at(config: Config, now: SystemTime) -> (r: Self)
        requires
            config.block_geometry_ok(),
        ensures
            r@ == model::initial_state(config.total_blocks, config.total_inodes, now),
            r.wf(),
            r.made_from(config),
    {
        let storage = BlockStorage::new(
            config.block_width,
            config.block_height,
            config.total_blocks,
            config.fingerprint.clone(),
        );
        let mut block_bitmap = Bitmap::new(config.total_blocks as usize);
        block_bitmap.set(0);
        let inode_bitmap = Bitmap::new(config.total_inodes as usize);
        let mut inodes: HashMap<u64, INode> = HashMap::new();
        let mut directories: HashMap<u64, Vec<DirEntry>> = HashMap::new();
        let mut root = INode::new_at(1, FileType::Directory, 0o755, 0, 0, now);
        root.nlink = 2;
        inodes.insert(1, root);
        let list = dot_list(1, 1);
        proof {
            lemma_dirs_insert(directories@, 1, list);
        }
        directories.insert(1, list);
        let r = BWFS {
            storage,
            inodes,
            directories,
            open_files: HashMap::new(),
            next_fh: 1,
            block_bitmap,
            inode_bitmap,
            config,
            next_ino: 2,
            dirty: false,
        };
        proof {
            let s = model::initial_state(r.config.total_blocks, r.config.total_inodes, now);
            assert(r@.directories =~= s.directories);
            assert(r@.inodes =~= s.inodes);
            assert(r@.block_bits =~= s.block_bits);
            assert(r@.inode_bits =~= s.inode_bits);
            assert(r@.open_files =~= s.open_files);
        }
        r
    }

    /// Creates a filesystem at the current time: whatever instant the clock
    /// gives, the result is the initial state of that instant.
    pub fn new(config: Config) -> (r: Self)
        requires
            config.block_geometry_ok(),
        ensures
            exists|now: SystemTime|
                r@ == model::initial_state(config.total_blocks, config.total_inodes, now),
            r.wf(),
            r.made_from(config),
    {
        let now = current_time();
        BWFS::new_at(config, now)
    }

    /// Loads a filesystem at instant `now`: from the snapshot where there
    /// is one, with block 0 reserved whatever the snapshot says, else
    /// freshly made.
    pub fn load_at(config: Config, metadata: Option<FilesystemMetadata>, now: SystemTime) -> (r: Self)
        requires
            config.block_geometry_ok(),
            metadata matches Some(m) ==> m@.block_bits.len() <= u32::MAX,
        ensures
            r@ == match metadata {
                Some(m) => model::restored(m@),
                None => model::initial_state(config.total_blocks, config.total_inodes, now),
            },
            r.wf(),
            r.made_from(config),
    {
        match metadata {
            Some(m) => {
                let storage = BlockStorage::new(
                    config.block_width,
                    config.block_height,
                    config.total_blocks,
                    config.fingerprint.clone(),
                );
                let mut block_bitmap = m.block_bitmap;
                block_bitmap.set(0);
                BWFS {
                    storage,
                    inodes: m.inodes,
                    directories: m.directories,
                    open_files: HashMap::new(),
                    next_fh: 1,
                    block_bitmap,
                    inode_bitmap: m.inode_bitmap,
                    config,
                    next_ino: m.next_ino,
                    dirty: false,
                }
            },
            None => BWFS::new_at(config, now),
        }
    }

    /// Loads a filesystem; a fresh one is stamped with the current time.
    pub fn load(config: Config, metadata: Option<FilesystemMetadata>) -> (r: Self)
        requires
            config.block_geometry_ok(),
            metadata matches Some(m) ==> m@.block_bits.len() <= u32::MAX,
        ensures
            exists|now: SystemTime|
                r@ == match metadata {
                    Some(m) => model::restored(m@),
                    None => model::initial_state(config.total_blocks, config.total_inodes, now),
                },
            r.wf(),
            r.made_from(config),
    {
        let now = current_time();
        let ghost fresh = model::initial_state(config.total_blocks, config.total_inodes, now);
        let r = BWFS::load_at(config, metadata, now);
        proof {
            assert(r@ == match metadata {
                Some(m) => model::restored(m@),
                None => fresh,
            });
        }
        r
    }

    /// The snapshot of the tables.
    pub fn save(&self) -> (r: FilesystemMetadata)
        ensures
            r@ == model::snapshot_of(self@),
    {
        FilesystemMetadata {
            inodes: self.inodes.clone(),
            directories: self.directories.clone(),
            block_bitmap: self.block_bitmap.clone(),
            inode_bitmap: self.inode_bitmap.clone(),
            next_ino: self.next_ino,
        }
    }

    /// The snapshot to write, if the tables are dirty. Once it is written
    /// the caller reports so with `fsync` or `release`.
    pub fn sync_if_dirty(&self) -> (r: Option<FilesystemMetadata>)
        ensures
            r is Some == self@.dirty,
            r matches Some(m) ==> m@ == model::snapshot_of(self@),
    {
        if !self.dirty {
            return None;
        }
        Some(self.save())
    }

    /// The block storage layer.
    pub fn storage(&self) -> (r: &BlockStorage)
        ensures
            *r == self.storage_view(),
    {
        &self.storage
    }

    /// The configuration the filesystem was made with.
    pub fn config(&self) -> (r: &Config)
        ensures
            *r == self.config_view(),
    {
        &self.config
    }

    /// Bytes in a block.
    pub fn bytes_per_block(&self) -> (r: usize)
        ensures
            r == self.block_size(),
            r <= 125_000,
    {
        self.storage.bytes_per_block()
    }

    /// The inode that handle `fh` stands for, if the handle is open.
    pub fn handle_inode(&self, fh: u64) -> (r: Option<u64>)
        ensures
            r == if self@.open_files.contains_key(fh) {
                Some(self@.open_files[fh])
            } else {
                None
            },
    {
        match self.open_files.get(&fh) {
            Some(ino) => Some(*ino),
            None => None,
        }
    }

    /// Whether the tables hold changes that no snapshot holds yet.
    pub fn is_dirty(&self) -> (r: bool)
        ensures
            r == self@.dirty,
    {
        self.dirty
    }

    /// Marks the tables as changed since the last snapshot.
    pub fn mark_dirty(&mut self)
        ensures
            final(self)@ == (FsState { dirty: true, ..old(self)@ }),
            final(self).same_setup(old(self)),
    {
        self.dirty = true;
    }

    /// Hands out the next inode number and marks its bit in the inode
    /// bitmap. Numbers are never reused.
    pub fn allocate_ino(&mut self) -> (ino: u64)
        requires
            old(self)@.next_ino < u64::MAX,
        ensures
            ino == old(self)@.next_ino,
            final(self)@ == model::with_ino_taken(old(self)@),
            final(self).same_setup(old(self)),
    {
        let ino = self.next_ino;
        self.next_ino = ino + 1;
        let size = self.inode_bitmap.size();
        if ino < size as u64 {
            self.inode_bitmap.set(ino as usize);
        }
        ino
    }

    /// Hands out the next file handle.
    pub fn allocate_fh(&mut self) -> (fh: u64)
        requires
            old(self)@.next_fh < u64::MAX,
        ensures
            fh == old(self)@.next_fh,
            final(self)@ == (FsState { next_fh: (fh + 1) as u64, ..old(self)@ }),
            final(self).same_setup(old(self)),
    {
        let fh = self.next_fh;
        self.next_fh = fh + 1;
        fh
    }

    /// Allocates the lowest free block. Block 0 is reserved and never
    /// comes back.
    pub fn allocate_block(&mut self) -> (r: Option<u32>)
        requires
            old(self).wf(),
        ensures
            final(self).wf(),
            final(self).same_setup(old(self)),
            final(self)@ == model::with_block_taken(old(self)@),
            match r {
                Some(b) => lowest_clear(old(self)@.block_bits) == Some(b as int) && b != 0,
                None => lowest_clear(old(self)@.block_bits) is None,
            },
    {
        proof {
            lemma_lowest_clear(self@.block_bits);
        }
        match self.block_bitmap.allocate() {
            Some(b) => Some(b as u32),
            None => None,
        }
    }

    /// Releases a block. Block 0 is never released.
    pub fn free_block(&mut self, block_num: u32)
        requires
            old(self).wf(),
        ensures
            final(self).wf(),
            final(self).same_setup(old(self)),
            final(self)@ == model::with_block_freed(old(self)@, block_num),
    {
        if block_num != 0 {
            self.block_bitmap.deallocate(block_num as usize);
        }
    }

    /// Position of the first entry named `name` in the list of `parent`,
    /// of type directory where `dirs_only` holds, with that entry's inode.
    fn locate(&self, parent: u64, name: &String, dirs_only: bool) -> (r: Option<(usize, u64)>)
        ensures
            match r {
                Some((pos, ino)) => {
                    &&& self.directories@.contains_key(parent)
                    &&& pos < self.directories@[parent]@.len()
                    &&& find_named(entries_of(self@.directories, parent), name@, dirs_only) == Some(
                        pos as int,
                    )
                    &&& ino == self.directories@[parent]@[pos as int].ino
                    &&& ino == self@.directories[parent][pos as int].ino
                },
                None => find_named(entries_of(self@.directories, parent), name@, dirs_only) is None,
            },
    {
        match self.directories.get(&parent) {
            Some(entries) => {
                match find_entry(entries, name, dirs_only) {
                    Some(pos) => Some((pos, entries[pos].ino)),
                    None => None,
                }
            },
            None => {
                proof {
                    lemma_find_in_empty(name@, dirs_only);
                }
                None
            },
        }
    }

    /// Whether `create` or `mkdir` of `name` under `parent` is refused.
    fn check_new_entry(&self, parent: u64, name: &String) -> (r: Option<Errno>)
        ensures
            r == model::entry_refusal(self@, parent, name@),
    {
        let parent_is_dir = match self.inodes.get(&parent) {
            Some(inode) => inode.is_dir(),
            None => false,
        };
        if !parent_is_dir {
            return Some(Errno::ENOTDIR);
        }
        if self.locate(parent, name, false).is_some() {
            return Some(Errno::EEXIST);
        }
        None
    }

    /// Appends `entry` to the list of directory `ino`, which is made where
    /// it is missing.
    fn append_entry(&mut self, ino: u64, entry: DirEntry)
        ensures
            final(self)@ == (FsState {
                directories: old(self)@.directories.insert(
                    ino,
                    entries_of(old(self)@.directories, ino).push(entry@),
                ),
                ..old(self)@
            }),
            final(self).same_setup(old(self)),
    {
        let ghost m0 = self.directories@;
        let mut list: Vec<DirEntry> = match self.directories.remove(&ino) {
            Some(list) => list,
            None => Vec::new(),
        };
        proof {
            lemma_entries_push(list@, entry);
            assert(entries_view(list@) =~= entries_of(dirs_view(m0), ino));
        }
        list.push(entry);
        proof {
            lemma_dirs_insert(self.directories@, ino, list);
            lemma_dirs_remove(m0, ino);
            assert(dirs_view(m0).remove(ino).insert(ino, entries_view(list@)) =~= dirs_view(
                m0,
            ).insert(ino, entries_view(list@)));
        }
        self.directories.insert(ino, list);
    }

    /// Takes the entry at position `pos` out of the list of directory
    /// `ino`.
    fn take_entry(&mut self, ino: u64, pos: usize) -> (entry: DirEntry)
        requires
            old(self).directories@.contains_key(ino),
            pos < old(self).directories@[ino]@.len(),
        ensures
            entry@ == old(self)@.directories[ino][pos as int],
            final(self)@ == (FsState {
                directories: old(self)@.directories.insert(
                    ino,
                    old(self)@.directories[ino].remove(pos as int),
                ),
                ..old(self)@
            }),
            final(self).same_setup(old(self)),
    {
        let ghost m0 = self.directories@;
        let mut list: Vec<DirEntry> = match self.directories.remove(&ino) {
            Some(list) => list,
            None => Vec::new(),
        };
        proof {
            lemma_entries_remove(list@, pos as int);
        }
        let entry = list.remove(pos);
        proof {
            lemma_dirs_insert(self.directories@, ino, list);
            lemma_dirs_remove(m0, ino);
            assert(dirs_view(m0).remove(ino).insert(ino, entries_view(list@)) =~= dirs_view(
                m0,
            ).insert(ino, entries_view(list@)));
        }
        self.directories.insert(ino, list);
        entry
    }

    /// `lookup`: the attributes of the first entry named `name` in
    /// `parent`; `ENOENT` where there is none or its inode is gone.
    pub fn lookup(&self, parent: u64, name: &str) -> (r: Result<FileAttr, Errno>)
        ensures
            r == model::lookup(self@, parent, name@),
    {
        let key: String = name.to_owned();
        match self.locate(parent, &key, false) {
            Some((_, ino)) => {
                match self.inodes.get(&ino) {
                    Some(inode) => Ok(inode_to_attr(inode)),
                    None => Err(Errno::ENOENT),
                }
            },
            None => Err(Errno::ENOENT),
        }
    }

    /// `getattr`: the attributes of inode `ino`, or `ENOENT`.
    pub fn getattr(&self, ino: u64) -> (r: Result<FileAttr, Errno>)
        ensures
            r == model::getattr(self@, ino),
    {
        match self.inodes.get(&ino) {
            Some(inode) => Ok(inode_to_attr(inode)),
            None => Err(Errno::ENOENT),
        }
    }

    /// `access`: granted for every inode that exists, whatever the mask.
    pub fn access(&self, ino: u64, mask: i32) -> (r: Result<(), Errno>)
        ensures
            r == if self@.inodes.contains_key(ino) {
                Ok::<(), Errno>(())
            } else {
                Err::<(), Errno>(Errno::ENOENT)
            },
    {
        if self.inodes.contains_key(&ino) {
            Ok(())
        } else {
            Err(Errno::ENOENT)
        }
    }

    /// `open`: a new handle for inode `ino`, or `ENOENT`. Flags are not
    /// enforced.
    pub fn open(&mut self, ino: u64, flags: i32) -> (r: Result<u64, Errno>)
        requires
            model::open_in_range(old(self)@, ino),
        ensures
            final(self).same_setup(old(self)),
            final(self).wf() == old(self).wf(),
            (final(self)@, r) == model::open(old(self)@, ino),
    {
        if !self.inodes.contains_key(&ino) {
            return Err(Errno::ENOENT);
        }
        let fh = self.allocate_fh();
        self.open_files.insert(fh, ino);
        Ok(fh)
    }

    /// `opendir`: a new handle for directory `ino`; `ENOENT` where the
    /// inode is missing, `ENOTDIR` where it is no directory.
    pub fn opendir(&mut self, ino: u64, flags: i32) -> (r: Result<u64, Errno>)
        requires
            model::open_in_range(old(self)@, ino),
        ensures
            final(self).same_setup(old(self)),
            final(self).wf() == old(self).wf(),
            (final(self)@, r) == model::opendir(old(self)@, ino),
    {
        let is_dir = match self.inodes.get(&ino) {
            Some(inode) => inode.is_dir(),
            None => {
                return Err(Errno::ENOENT);
            },
        };
        if !is_dir {
            return Err(Errno::ENOTDIR);
        }
        let fh = self.allocate_fh();
        self.open_files.insert(fh, ino);
        Ok(fh)
    }

    /// `create` at instant `now`: makes the regular file `name` under
    /// `parent` and opens it. Refused with `ENOTDIR` where `parent` is not
    /// a directory, else with `EEXIST` where the name is taken.
    pub fn create_at(&mut self, parent: u64, name: &str, mode: u32, uid: u32, gid: u32, now: SystemTime) -> (r:
        Result<Created, Errno>)
        requires
            old(self).wf(),
            model::create_in_range(old(self)@, parent, name@),
        ensures
            final(self).wf(),
            final(self).same_setup(old(self)),
            (final(self)@, r) == model::create(old(self)@, parent, name@, mode, uid, gid, now),
    {
        let key: String = name.to_owned();
        match self.check_new_entry(parent, &key) {
            Some(e) => {
                return Err(e);
            },
            None => {},
        }
        let ghost s0 = self@;
        let ino = self.allocate_ino();
        let inode = INode::new_at(ino, FileType::RegularFile, (mode & 0xFFFF) as u16, uid, gid, now);
        let attr = inode_to_attr(&inode);
        self.inodes.insert(ino, inode);
        self.append_entry(parent, DirEntry::new(ino, key, FileType::RegularFile));
        let fh = self.allocate_fh();
        self.open_files.insert(fh, ino);
        self.mark_dirty();
        proof {
            let m = model::create(s0, parent, name@, mode, uid, gid, now).0;
            assert(self@.inodes =~= m.inodes);
            assert(self@.directories =~= m.directories);
            assert(self@.open_files =~= m.open_files);
        }
        Ok(Created { attr, generation: 0, fh, flags: 0 })
    }

    /// `create`, stamped with the current time.
    pub fn create(&mut self, parent: u64, name: &str, mode: u32, uid: u32, gid: u32) -> (r: Result<
        Created,
        Errno,
    >)
        requires
            old(self).wf(),
            model::create_in_range(old(self)@, parent, name@),
        ensures
            final(self).wf(),
            final(self).same_setup(old(self)),
            exists|now: SystemTime|
                (final(self)@, r) == model::create(old(self)@, parent, name@, mode, uid, gid, now),
    {
        let now = current_time();
        self.create_at(parent, name, mode, uid, gid, now)
    }

    /// `mkdir` at instant `now`: makes the directory `name` under `parent`
    /// with its `.` and `..` entries and two links, and gives the parent
    /// one more link. Refused with `ENOTDIR` where `parent` is not a
    /// directory, else with `EEXIST` where the name is taken.
    pub fn mkdir_at(&mut self, parent: u64, name: &str, mode: u32, uid: u32, gid: u32, now: SystemTime) -> (r:
        Result<FileAttr, Errno>)
        requires
            old(self).wf(),
            model::mkdir_in_range(old(self)@, parent, name@),
        ensures
            final(self).wf(),
            final(self).same_setup(old(self)),
            (final(self)@, r) == model::mkdir(old(self)@, parent, name@, mode, uid, gid, now),
    {
        let key: String = name.to_owned();
        match self.check_new_entry(parent, &key) {
            Some(e) => {
                return Err(e);
            },
            None => {},
        }
        let ghost s0 = self@;
        let ino = self.allocate_ino();
        let mut inode = INode::new_at(ino, FileType::Directory, (mode & 0xFFFF) as u16, uid, gid, now);
        inode.nlink = 2;
        let attr = inode_to_attr(&inode);
        self.inodes.insert(ino, inode);
        let list = dot_list(ino, parent);
        proof {
            lemma_dirs_insert(self.directories@, ino, list);
        }
        self.directories.insert(ino, list);
        self.append_entry(parent, DirEntry::new(ino, key, FileType::Directory));
        let found = match self.inodes.get(&parent) {
            Some(p) => Some(*p),
            None => None,
        };
        match found {
            Some(p) => {
                let mut p = p;
                p.nlink = p.nlink + 1;
                self.inodes.insert(parent, p);
            },
            None => {},
        }
        self.mark_dirty();
        proof {
            let m = model::mkdir(s0, parent, name@, mode, uid, gid, now).0;
            assert(self@.inodes =~= m.inodes);
            assert(self@.directories =~= m.directories);
        }
        Ok(attr)
    }

    /// `mkdir`, stamped with the current time.
    pub fn mkdir(&mut self, parent: u64, name: &str, mode: u32, uid: u32, gid: u32) -> (r: Result<
        FileAttr,
        Errno,
    >)
        requires
            old(self).wf(),
            model::mkdir_in_range(old(self)@, parent, name@),
        ensures
            final(self).wf(),
            final(self).same_setup(old(self)),
            exists|now: SystemTime|
                (final(self)@, r) == model::mkdir(old(self)@, parent, name@, mode, uid, gid, now),
    {
        let now = current_time();
        self.mkdir_at(parent, name, mode, uid, gid, now)
    }

    /// First half of a read of `size` bytes at `offset`: the physical
    /// blocks to fetch, in the order of the file. `ENOENT` where the inode
    /// is missing, `EISDIR` where it is no regular file.
    pub fn read_plan(&self, ino: u64, offset: u64, size: u32) -> (r: Result<Vec<u32>, Errno>)
        requires
            self.wf(),
        ensures
            match r {
                Ok(blocks) => model::read_plan(self@, ino, offset, size, self.block_size() as int)
                    == Ok::<Seq<u32>, Errno>(blocks@),
                Err(e) => model::read_plan(self@, ino, offset, size, self.block_size() as int)
                    == Err::<Seq<u32>, Errno>(e),
            },
    {
        let inode = match self.inodes.get(&ino) {
            Some(inode) => inode,
            None => {
                return Err(Errno::ENOENT);
            },
        };
        if !inode.is_file() {
            return Err(Errno::EISDIR);
        }
        let block_size: u64 = self.storage.bytes_per_block() as u64;
        let start: u64 = offset / block_size;
        let end: u128 = (offset as u128 + size as u128 + block_size as u128 - 1) / (
        block_size as u128);
        proof {
            lemma_mapped_clamp(*inode, start as int, end as int);
        }
        let mut blocks: Vec<u32> = Vec::new();
        if start >= 12 {
            return Ok(blocks);
        }
        let stop: u32 = if end > 12 { 12 } else { end as u32 };
        let mut idx: u32 = start as u32;
        if idx >= stop {
            return Ok(blocks);
        }
        while idx < stop
            invariant
                start <= idx <= stop <= 12,
                blocks@ == model::mapped_blocks(*inode, start as int, idx as int),
            decreases stop - idx,
        {
            match inode.get_block_number(idx) {
                Some(b) => {
                    blocks.push(b);
                },
                None => {},
            }
            idx += 1;
        }
        Ok(blocks)
    }

    /// Second half of a read: the answer, cut from the blocks that were
    /// fetched. A block that could not be read is `None` and contributes
    /// nothing.
    pub fn read_reply(&self, blocks: &Vec<Option<Vec<u8>>>, offset: u64, size: u32) -> (r: Vec<u8>)
        requires
            self.wf(),
        ensures
            r@ == model::read_reply(
                model::blocks_view(blocks@),
                offset,
                size,
                self.block_size() as int,
            ),
    {
        let ghost view = model::blocks_view(blocks@);
        let mut data: Vec<u8> = Vec::new();
        let mut i: usize = 0;
        while i < blocks.len()
            invariant
                i <= blocks@.len(),
                view == model::blocks_view(blocks@),
                data@ == model::concat_present(view.subrange(0, i as int)),
            decreases blocks@.len() - i,
        {
            proof {
                assert(view.subrange(0, i + 1).drop_last() =~= view.subrange(0, i as int));
            }
            match &blocks[i] {
                Some(b) => {
                    let ghost before = data@;
                    let mut j: usize = 0;
                    while j < b.len()
                        invariant
                            j <= b@.len(),
                            data@ == before + b@.subrange(0, j as int),
                        decreases b@.len() - j,
                    {
                        data.push(b[j]);
                        j += 1;
                        assert(data@ =~= before + b@.subrange(0, j as int));
                    }
                    assert(data@ =~= before + b@);
                },
                None => {},
            }
            i += 1;
        }
        assert(view.subrange(0, i as int) =~= view);
        let block_size: u64 = self.storage.bytes_per_block() as u64;
        let from: u64 = offset % block_size;
        let len: u64 = data.len() as u64;
        let mut out: Vec<u8> = Vec::new();
        if from >= len {
            return out;
        }
        let to: u64 = if from + (size as u64) < len { from + size as u64 } else { len };
        let mut k: usize = from as usize;
        while k < to as usize
            invariant
                from <= k <= to <= data@.len(),
                out@ == data@.subrange(from as int, k as int),
            decreases to - k,
        {
            out.push(data[k]);
            k += 1;
            assert(out@ =~= data@.subrange(from as int, k as int));
        }
        out
    }

    /// First half of a write of `len` bytes at `offset`: checks the inode,
    /// allocates a block for each unassigned logical block of the span, and
    /// lays out the storage work. `ENOENT` where the inode is missing,
    /// `EISDIR` where it is no regular file, `ENOSPC` where a logical block
    /// finds no free block or lies past the twelve blocks of a file.
    pub fn begin_write(&mut self, ino: u64, offset: u64, len: usize) -> (plan: WritePlan)
        requires
            old(self).wf(),
        ensures
            final(self).wf(),
            final(self).same_setup(old(self)),
            (final(self)@, plan@) == model::begin_write(
                old(self)@,
                ino,
                offset,
                len,
                old(self).block_size() as int,
            ),
            plan@.refusal is None ==> forall|j: int|
                0 <= j < plan@.steps.len() ==> {
                    &&& final(self)@.inodes[ino].block_at(
                        model::span_start(offset as int, old(self).block_size() as int) + j,
                    ) == Some(#[trigger] plan@.steps[j].block)
                    &&& plan@.steps[j].data_start + plan@.steps[j].len <= len
                    &&& plan@.steps[j].block_offset + plan@.steps[j].len <= old(self).block_size()
                },
    {
        let block_size: usize = self.storage.bytes_per_block();
        let ghost bs = block_size as int;
        let ghost s0 = self@;
        let found = match self.inodes.get(&ino) {
            Some(inode) => Some(*inode),
            None => None,
        };
        let inode0 = match found {
            Some(inode) => inode,
            None => {
                return WritePlan {
                    fresh_blocks: Vec::new(),
                    steps: Vec::new(),
                    refusal: Some(Errno::ENOENT),
                };
            },
        };
        if !inode0.is_file() {
            return WritePlan {
                fresh_blocks: Vec::new(),
                steps: Vec::new(),
                refusal: Some(Errno::EISDIR),
            };
        }
        proof {
            lemma_span_order(offset as int, len as int, bs);
        }
        let first: u64 = offset / (block_size as u64);
        let last: u128 = (offset as u128 + len as u128 + block_size as u128 - 1) / (
        block_size as u128);
        let ghost total = model::allocate_span(inode0, s0.block_bits, first as int, last as int);

        let mut inode = inode0;
        let mut fresh: Vec<u32> = Vec::new();
        let mut complete = true;
        let mut at: u64 = first;
        while (at as u128) < last && complete
            invariant
                first <= at <= last,
                self.wf(),
                self.same_setup(old(self)),
                self@ == (FsState { block_bits: self@.block_bits, ..s0 }),
                complete ==> ({
                    let rest = model::allocate_span(inode, self@.block_bits, at as int, last as int);
                    &&& total.inode == rest.inode
                    &&& total.bits == rest.bits
                    &&& total.complete == rest.complete
                    &&& total.fresh == fresh@ + rest.fresh
                }),
                !complete ==> ({
                    &&& total.inode == inode
                    &&& total.bits == self@.block_bits
                    &&& !total.complete
                    &&& total.fresh == fresh@
                }),
            decreases last - at + (if complete { 1int } else { 0int }),
        {
            if at >= 12 {
                proof {
                    assert(inode.block_at(at as int) is None);
                    assert(fresh@ + Seq::<u32>::empty() =~= fresh@);
                }
                complete = false;
            } else if inode.get_block_number(at as u32).is_none() {
                let ghost bits = self@.block_bits;
                proof {
                    lemma_lowest_clear(bits);
                }
                match self.allocate_block() {
                    Some(block) => {
                        let ghost before = inode;
                        inode.set_block_number(at as u32, block);
                        proof {
                            let rest_before = model::allocate_span(
                                before,
                                bits,
                                at as int,
                                last as int,
                            );
                            let rest = model::allocate_span(
                                inode,
                                self@.block_bits,
                                at + 1,
                                last as int,
                            );
                            assert(inode == before.with_block(at as int, block));
                            assert(rest_before.fresh == seq![block] + rest.fresh);
                            assert(fresh@.push(block) + rest.fresh =~= fresh@ + (seq![block]
                                + rest.fresh));
                        }
                        fresh.push(block);
                        at += 1;
                    },
                    None => {
                        proof {
                            assert(fresh@ + Seq::<u32>::empty() =~= fresh@);
                        }
                        complete = false;
                    },
                }
            } else {
                at += 1;
            }
        }
        proof {
            if complete {
                assert(fresh@ + Seq::<u32>::empty() =~= fresh@);
            }
            assert(self@.inodes.insert(ino, inode) == s0.inodes.insert(ino, total.inode));
        }
        self.inodes.insert(ino, inode);
        if !complete {
            return WritePlan { fresh_blocks: fresh, steps: Vec::new(), refusal: Some(Errno::ENOSPC) };
        }
        let mut steps: Vec<WriteStep> = Vec::new();
        let ghost all = model::write_steps(inode, offset as int, len as int, bs);
        if (first as u128) >= last {
            assert(steps@ =~= all);
            return WritePlan { fresh_blocks: fresh, steps, refusal: None };
        }
        proof {
            assert forall|k: int| first <= k < last implies (#[trigger] inode.block_at(k)) is Some by {
                model::lemma_span_mapped(inode0, s0.block_bits, first as int, last as int, k);
            }
            model::lemma_span_mapped(inode0, s0.block_bits, first as int, last as int, first as int);
            lemma_span_bounds(offset as int, len as int, bs);
        }
        let start: usize = first as usize;
        let end: usize = last as usize;
        let mut written: usize = 0;
        let mut idx: usize = start;
        let ghost mut base: int = start * bs;
        while idx < end
            invariant
                start <= idx <= end <= 12,
                0 < bs == block_size <= 125_000,
                offset + len <= 12 * bs,
                start == model::span_start(offset as int, bs),
                end == model::span_end(offset as int, len as int, bs),
                offset == start * bs + offset % (block_size as u64),
                base == idx * bs,
                written <= len,
                written == if idx == start {
                    0
                } else if base - offset < len {
                    base - offset
                } else {
                    len as int
                },
                idx > start ==> base - offset >= 0,
                all == model::write_steps(inode, offset as int, len as int, bs),
                steps@ == all.subrange(0, idx - start),
                forall|k: int| start <= k < end ==> (#[trigger] inode.block_at(k)) is Some,
                forall|j: int|
                    0 <= j < steps@.len() ==> {
                        &&& inode.block_at(start + j) == Some((#[trigger] steps@[j]).block)
                        &&& steps@[j].data_start + steps@[j].len <= len
                        &&& steps@[j].block_offset + steps@[j].len <= block_size
                    },
            decreases end - idx,
        {
            let block = match inode.get_block_number(idx as u32) {
                Some(b) => b,
                None => {
                    assert(false);
                    0
                },
            };
            let block_offset: usize = if idx == start {
                (offset % (block_size as u64)) as usize
            } else {
                0
            };
            let room: usize = block_size - block_offset;
            let left: usize = len - written;
            let step_len: usize = if room < left { room } else { left };
            let step = WriteStep { block, block_offset, data_start: written, len: step_len };
            proof {
                assert(base + bs == (idx + 1) * bs) by (nonlinear_arith)
                    requires
                        base == idx * bs,
                ;
                assert(step == model::write_step(inode, offset as int, len as int, bs, idx as int));
                assert(all[idx - start] == step);
                assert(steps@.push(step) =~= all.subrange(0, idx + 1 - start));
                base = base + bs;
            }
            steps.push(step);
            written = written + step_len;
            idx += 1;
        }
        proof {
            assert(steps@ =~= all);
        }
        WritePlan { fresh_blocks: fresh, steps, refusal: None }
    }

    /// The content of a block after one step of a write: the step's part of
    /// `data` laid over what was read of the block, or over zeros where it
    /// could not be read (`current` is `None`).
    pub fn splice(&self, step: &WriteStep, current: Option<Vec<u8>>, data: &[u8]) -> (r: Vec<u8>)
        requires
            step.data_start + step.len <= data@.len(),
            step.block_offset + step.len <= model::current_block(
                match current {
                    Some(c) => Some(c@),
                    None => None,
                },
                self.block_size() as int,
            ).len(),
        ensures
            r@ == model::spliced(
                model::current_block(
                    match current {
                        Some(c) => Some(c@),
                        None => None,
                    },
                    self.block_size() as int,
                ),
                step.block_offset as int,
                data@.subrange(step.data_start as int, step.data_start + step.len),
            ),
    {
        let mut block: Vec<u8> = match current {
            Some(c) => c,
            None => {
                let z: Vec<u8> = vec![0u8; self.storage.bytes_per_block()];
                assert(z@ =~= Seq::new(self.block_size(), |i: int| 0u8));
                z
            },
        };
        let ghost before = block@;
        let ghost chunk = data@.subrange(step.data_start as int, step.data_start + step.len);
        let block_len: usize = block.len();
        let data_len: usize = data.len();
        let mut i: usize = 0;
        while i < step.len
            invariant
                i <= step.len,
                block_len == before.len(),
                data_len == data@.len(),
                step.data_start + step.len <= data@.len(),
                step.block_offset + step.len <= before.len(),
                block@.len() == before.len(),
                chunk == data@.subrange(step.data_start as int, step.data_start + step.len),
                forall|j: int|
                    0 <= j < block@.len() ==> #[trigger] block@[j] == if step.block_offset <= j
                        < step.block_offset + i {
                        chunk[j - step.block_offset]
                    } else {
                        before[j]
                    },
            decreases step.len - i,
        {
            block[step.block_offset + i] = data[step.data_start + i];
            i += 1;
        }
        assert(block@ =~= model::spliced(before, step.block_offset as int, chunk));
        block
    }

    /// Second half of a write, at instant `now`: where the blocks were
    /// stored, the file grows to cover the write, its modification time is
    /// `now`, the tables are dirty and the answer is the number of bytes
    /// written; where they were not, nothing changes and the answer is an
    /// I/O error.
    pub fn finish_write_at(&mut self, ino: u64, offset: u64, len: usize, stored: bool, now: SystemTime) -> (r:
        Result<u32, Errno>)
        requires
            old(self).wf(),
            offset + len <= u64::MAX,
            len <= u32::MAX,
        ensures
            final(self).wf(),
            final(self).same_setup(old(self)),
            (final(self)@, r) == model::finish_write(old(self)@, ino, offset, len, stored, now),
    {
        if !stored {
            return Err(Errno::EIO);
        }
        let found = match self.inodes.get(&ino) {
            Some(inode) => Some(*inode),
            None => None,
        };
        let mut inode = match found {
            Some(inode) => inode,
            None => {
                return Err(Errno::ENOENT);
            },
        };
        let reach: u64 = offset + len as u64;
        if reach > inode.size {
            inode.size = reach;
        }
        inode.mtime = now;
        self.inodes.insert(ino, inode);
        self.mark_dirty();
        Ok(len as u32)
    }

    /// Second half of a write, stamped with the current time.
    pub fn finish_write(&mut self, ino: u64, offset: u64, len: usize, stored: bool) -> (r: Result<
        u32,
        Errno,
    >)
        requires
            old(self).wf(),
            offset + len <= u64::MAX,
            len <= u32::MAX,
        ensures
            final(self).wf(),
            final(self).same_setup(old(self)),
            exists|now: SystemTime|
                (final(self)@, r) == model::finish_write(old(self)@, ino, offset, len, stored, now),
    {
        let now = current_time();
        self.finish_write_at(ino, offset, len, stored, now)
    }

    /// `unlink`: removes the first entry named `name` from `parent` and
    /// takes a link from its inode. With its last link the inode gives up
    /// its blocks and leaves the table. `ENOENT` where there is no such
    /// entry.
    pub fn unlink(&mut self, parent: u64, name: &str) -> (r: Result<(), Errno>)
        requires
            old(self).wf(),
            model::unlink_in_range(old(self)@, parent, name@),
        ensures
            final(self).wf(),
            final(self).same_setup(old(self)),
            (final(self)@, r) == model::unlink(old(self)@, parent, name@),
    {
        let key: String = name.to_owned();
        let (pos, ino) = match self.locate(parent, &key, false) {
            Some(found) => found,
            None => {
                return Err(Errno::ENOENT);
            },
        };
        let ghost s0 = self@;
        let _ = self.take_entry(parent, pos);
        let found = match self.inodes.get(&ino) {
            Some(inode) => Some(*inode),
            None => None,
        };
        match found {
            Some(inode) => {
                let mut inode = inode;
                inode.nlink = inode.nlink - 1;
                if inode.nlink == 0 {
                    let ghost s1 = self@;
                    let mut i: u32 = 0;
                    while i < 12
                        invariant
                            i <= 12,
                            self.wf(),
                            self.same_setup(old(self)),
                            self@ == (FsState {
                                block_bits: model::release_blocks(s1.block_bits, inode, i as int),
                                ..s1
                            }),
                        decreases 12 - i,
                    {
                        match inode.get_block_number(i) {
                            Some(block) => {
                                self.free_block(block);
                            },
                            None => {},
                        }
                        i += 1;
                    }
                    self.inodes.remove(&ino);
                } else {
                    self.inodes.insert(ino, inode);
                }
            },
            None => {},
        }
        self.mark_dirty();
        proof {
            let m = model::unlink(s0, parent, name@).0;
            assert(self@.inodes =~= m.inodes);
            assert(self@.directories =~= m.directories);
        }
        Ok(())
    }

    /// `rmdir`: removes the first directory entry named `name` from
    /// `parent`, drops the directory's list and inode, and takes a link
    /// from the parent. `ENOENT` where there is no such directory entry,
    /// `ENOTEMPTY` where the directory's list has more than two entries.
    pub fn rmdir(&mut self, parent: u64, name: &str) -> (r: Result<(), Errno>)
        requires
            old(self).wf(),
            model::rmdir_in_range(old(self)@, parent, name@),
        ensures
            final(self).wf(),
            final(self).same_setup(old(self)),
            (final(self)@, r) == model::rmdir(old(self)@, parent, name@),
    {
        let key: String = name.to_owned();
        let (pos, target) = match self.locate(parent, &key, true) {
            Some(found) => found,
            None => {
                return Err(Errno::ENOENT);
            },
        };
        let not_empty = match self.directories.get(&target) {
            Some(children) => children.len() > 2,
            None => false,
        };
        if not_empty {
            return Err(Errno::ENOTEMPTY);
        }
        let ghost s0 = self@;
        let _ = self.take_entry(parent, pos);
        proof {
            lemma_dirs_remove(self.directories@, target);
        }
        self.directories.remove(&target);
        self.inodes.remove(&target);
        let found = match self.inodes.get(&parent) {
            Some(p) => Some(*p),
            None => None,
        };
        match found {
            Some(p) => {
                let mut p = p;
                p.nlink = p.nlink - 1;
                self.inodes.insert(parent, p);
            },
            None => {},
        }
        self.mark_dirty();
        proof {
            let m = model::rmdir(s0, parent, name@).0;
            assert(self@.inodes =~= m.inodes);
            assert(self@.directories =~= m.directories);
        }
        Ok(())
    }

    /// `rename`: moves the first entry named `name` from `parent` to the
    /// end of `newparent` under the name `newname`. `ENOENT` where there is
    /// no such entry. Nothing is checked at the destination.
    pub fn rename(&mut self, parent: u64, name: &str, newparent: u64, newname: &str) -> (r: Result<
        (),
        Errno,
    >)
        requires
            old(self).wf(),
        ensures
            final(self).wf(),
            final(self).same_setup(old(self)),
            (final(self)@, r) == model::rename(old(self)@, parent, name@, newparent, newname@),
    {
        let key: String = name.to_owned();
        let pos = match self.locate(parent, &key, false) {
            Some((pos, _)) => pos,
            None => {
                return Err(Errno::ENOENT);
            },
        };
        let ghost s0 = self@;
        let mut entry = self.take_entry(parent, pos);
        entry.name = newname.to_owned();
        self.append_entry(newparent, entry);
        self.mark_dirty();
        proof {
            let m = model::rename(s0, parent, name@, newparent, newname@).0;
            assert(self@.directories =~= m.directories);
        }
        Ok(())
    }

    /// `readdir`: the entries of directory `ino` from position `offset` on.
    /// The caller hands them to the reply buffer until it is full. A
    /// missing directory gives an empty listing.
    pub fn readdir(&self, ino: u64, offset: i64) -> (r: Vec<Listing>)
        ensures
            listing_view(r@) == model::readdir(self@, ino, offset),
    {
        let mut out: Vec<Listing> = Vec::new();
        let entries = match self.directories.get(&ino) {
            Some(entries) => entries,
            None => {
                assert(listing_view(out@) =~= model::readdir(self@, ino, offset));
                return out;
            },
        };
        if offset < 0 || (offset as u64) >= (entries.len() as u64) {
            assert(listing_view(out@) =~= model::readdir(self@, ino, offset));
            return out;
        }
        let first: usize = offset as usize;
        let ghost want = model::readdir(self@, ino, offset);
        let mut i: usize = first;
        while i < entries.len()
            invariant
                first <= i <= entries@.len(),
                first == offset,
                want == model::readdir(self@, ino, offset),
                self.directories@.contains_key(ino),
                self.directories@[ino] == *entries,
                listing_view(out@) == want.subrange(0, i - first),
            decreases entries@.len() - i,
        {
            let e = &entries[i];
            let line = Listing {
                ino: e.ino,
                offset: #[verifier::truncate] ((i + 1) as i64),
                kind: e.file_type,
                name: e.name.clone(),
            };
            proof {
                assert(line@ == want[i - first]);
                assert(listing_view(out@.push(line)) =~= listing_view(out@).push(line@));
                assert(want.subrange(0, i - first).push(want[i - first]) =~= want.subrange(
                    0,
                    i + 1 - first,
                ));
            }
            out.push(line);
            i += 1;
        }
        assert(listing_view(out@) =~= want);
        out
    }

    /// `statfs`: totals and free counts. Inodes in use are counted against
    /// the configured total, which must cover them.
    pub fn statfs(&self) -> (r: StatFs)
        requires
            self.wf(),
            self@.inodes.len() <= self.total_inodes(),
        ensures
            r == model::statfs(
                self@,
                self.total_blocks(),
                self.total_inodes(),
                self.block_size() as int,
            ),
    {
        let block_size: u32 = self.storage.bytes_per_block() as u32;
        let total: u32 = self.config.total_blocks;
        let mut free_blocks: u64 = 0;
        let mut i: u32 = 0;
        while i < total
            invariant
                i <= total,
                free_blocks == model::free_count(self@.block_bits, i as int),
                free_blocks <= i,
            decreases total - i,
        {
            if !self.block_bitmap.is_set(i as usize) {
                free_blocks += 1;
            }
            i += 1;
        }
        let used_inodes: u64 = self.inodes.len() as u64;
        let free_inodes: u64 = self.config.total_inodes as u64 - used_inodes;
        StatFs {
            blocks: total as u64,
            bfree: free_blocks,
            bavail: free_blocks,
            files: self.config.total_inodes as u64,
            ffree: free_inodes,
            bsize: block_size,
            namelen: NAME_MAX,
            frsize: block_size,
        }
    }

    /// `flush`: nothing to do.
    pub fn flush(&self, ino: u64, fh: u64) -> (r: Result<(), Errno>)
        ensures
            r == Ok::<(), Errno>(()),
    {
        Ok(())
    }

    /// `fsync`: `written` tells whether the snapshot that was due reached
    /// the disk (or none was due). If so the tables are clean; if not they
    /// stay dirty and the answer is an I/O error.
    pub fn fsync(&mut self, written: bool) -> (r: Result<(), Errno>)
        ensures
            final(self).same_setup(old(self)),
            final(self).wf() == old(self).wf(),
            (final(self)@, r) == model::fsync(old(self)@, written),
    {
        if !written {
            return Err(Errno::EIO);
        }
        self.dirty = false;
        Ok(())
    }

    /// `release`: as `fsync`, and then the handle `fh` is dropped. Where
    /// the snapshot was not written the handle stays.
    pub fn release(&mut self, fh: u64, written: bool) -> (r: Result<(), Errno>)
        ensures
            final(self).same_setup(old(self)),
            final(self).wf() == old(self).wf(),
            (final(self)@, r) == model::release(old(self)@, fh, written),
    {
        if !written {
            return Err(Errno::EIO);
        }
        self.dirty = false;
        self.open_files.remove(&fh);
        Ok(())
    }

    /// `releasedir`: the same as `release`.
    pub fn releasedir(&mut self, fh: u64, written: bool) -> (r: Result<(), Errno>)
        ensures
            final(self).same_setup(old(self)),
            final(self).wf() == old(self).wf(),
            (final(self)@, r) == model::release(old(self)@, fh, written),
    {
        self.release(fh, written)
    }

    /// Whether `open` and `opendir` of `ino` stay within the handle
    /// counter, as they require.
    pub fn can_open(&self, ino: u64) -> (r: bool)
        ensures
            r == model::open_in_range(self@, ino),
    {
        !self.inodes.contains_key(&ino) || self.next_fh < u64::MAX
    }

    /// Whether `create` of `name` under `parent` stays within its
    /// counters, as it requires.
    pub fn can_create(&self, parent: u64, name: &str) -> (r: bool)
        ensures
            r == model::create_in_range(self@, parent, name@),
    {
        let key: String = name.to_owned();
        if self.check_new_entry(parent, &key).is_some() {
            return true;
        }
        self.next_ino < u64::MAX && self.next_fh < u64::MAX
    }

    /// Whether `mkdir` of `name` under `parent` stays within its counters,
    /// as it requires.
    pub fn can_mkdir(&self, parent: u64, name: &str) -> (r: bool)
        ensures
            r == model::mkdir_in_range(self@, parent, name@),
    {
        let key: String = name.to_owned();
        if self.check_new_entry(parent, &key).is_some() {
            return true;
        }
        if self.next_ino == u64::MAX {
            return false;
        }
        if parent == self.next_ino {
            return true;
        }
        match self.inodes.get(&parent) {
            Some(p) => p.nlink < u32::MAX,
            None => true,
        }
    }

    /// Whether `rmdir` of `name` under `parent` stays within the link
    /// counter, as it requires.
    pub fn can_rmdir(&self, parent: u64, name: &str) -> (r: bool)
        ensures
            r == model::rmdir_in_range(self@, parent, name@),
    {
        let key: String = name.to_owned();
        let target = match self.locate(parent, &key, true) {
            Some((_, target)) => target,
            None => {
                return true;
            },
        };
        let not_empty = match self.directories.get(&target) {
            Some(children) => children.len() > 2,
            None => false,
        };
        if not_empty || parent == target {
            return true;
        }
        match self.inodes.get(&parent) {
            Some(p) => p.nlink > 0,
            None => true,
        }
    }

    /// Whether `unlink` of `name` under `parent` stays within the link
    /// counter, as it requires.
    pub fn can_unlink(&self, parent: u64, name: &str) -> (r: bool)
        ensures
            r == model::unlink_in_range(self@, parent, name@),
    {
        let key: String = name.to_owned();
        match self.locate(parent, &key, false) {
            Some((_, ino)) => match self.inodes.get(&ino) {
                Some(inode) => inode.nlink > 0,
                None => true,
            },
            None => true,
        }
    }

    /// Whether the configured number of inodes covers the inodes in use,
    /// as `statfs` requires.
    pub fn can_statfs(&self) -> (r: bool)
        ensures
            r == (self@.inodes.len() <= self.total_inodes()),
    {
        self.inodes.len() as u64 <= self.config.total_inodes as u64
    }
}

} // verus!
