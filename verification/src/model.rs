//! The namespace as a mathematical state machine.
//!
//! `FsState` is what the engine's tables hold, as maps and sequences. Each
//! operation is a function from a state and its arguments to the next state
//! and the answer. The executable engine is proved to compute exactly these
//! functions.

use crate::bitmap::{after_deallocate, lemma_lowest_clear, lowest_clear};
use crate::inode::{DirEntryView, FileType, INode};
use crate::types::{attr_of, Created, Errno, FileAttr, ListingView, StatFs, WritePlanView, WriteStep};
use crate::types::NAME_MAX;
use std::time::SystemTime;
use vstd::prelude::*;

verus! {

/// The tables of the filesystem.
pub struct FsState {
    /// Inode table.
    pub inodes: Map<u64, INode>,
    /// Directory lists, by directory inode.
    pub directories: Map<u64, Seq<DirEntryView>>,
    /// Open handles and the inode each stands for.
    pub open_files: Map<u64, u64>,
    /// Next handle to hand out.
    pub next_fh: u64,
    /// Next inode number to hand out.
    pub next_ino: u64,
    /// Block bitmap: `true` means allocated.
    pub block_bits: Seq<bool>,
    /// Inode bitmap: `true` means the number was handed out.
    pub inode_bits: Seq<bool>,
    /// Whether the tables differ from the last snapshot written.
    pub dirty: bool,
}

/// What a snapshot persists of the tables.
pub struct SnapshotView {
    pub inodes: Map<u64, INode>,
    pub directories: Map<u64, Seq<DirEntryView>>,
    pub block_bits: Seq<bool>,
    pub inode_bits: Seq<bool>,
    pub next_ino: u64,
}

/// The name of a directory's entry for itself.
pub open spec fn dot() -> Seq<char> {
    seq!['.']
}

/// The name of a directory's entry for its parent.
pub open spec fn dotdot() -> Seq<char> {
    seq!['.', '.']
}

/// The permission bits kept of a mode: its low 16 bits.
pub open spec fn mode_bits(mode: u32) -> u16 {
    (mode & 0xFFFF) as u16
}

/// `bits` with bit `i` set; an index past the end changes nothing.
pub open spec fn with_bit(bits: Seq<bool>, i: int) -> Seq<bool> {
    if 0 <= i < bits.len() {
        bits.update(i, true)
    } else {
        bits
    }
}

/// Block 0, where there is one, is allocated.
pub open spec fn superblock_reserved(bits: Seq<bool>) -> bool {
    bits.len() > 0 ==> bits[0]
}

/// The list of directory `ino`, empty where there is none.
pub open spec fn entries_of(dirs: Map<u64, Seq<DirEntryView>>, ino: u64) -> Seq<DirEntryView> {
    if dirs.contains_key(ino) {
        dirs[ino]
    } else {
        Seq::empty()
    }
}

/// The two entries every directory is created with.
pub open spec fn dot_entries(ino: u64, parent: u64) -> Seq<DirEntryView> {
    seq![
        DirEntryView { ino, name: dot(), file_type: FileType::Directory },
        DirEntryView { ino: parent, name: dotdot(), file_type: FileType::Directory },
    ]
}

/// `i` is the first entry of `entries` with the name `name`, of type
/// directory where `dirs_only` holds.
pub open spec fn is_first_named(
    entries: Seq<DirEntryView>,
    name: Seq<char>,
    dirs_only: bool,
    i: int,
) -> bool {
    &&& 0 <= i < entries.len()
    &&& matches_name(entries[i], name, dirs_only)
    &&& forall|j: int| 0 <= j < i ==> !matches_name(#[trigger] entries[j], name, dirs_only)
}

/// Whether `entry` has the name `name`, and is a directory where
/// `dirs_only` holds.
pub open spec fn matches_name(entry: DirEntryView, name: Seq<char>, dirs_only: bool) -> bool {
    entry.name == name && (dirs_only ==> entry.file_type == FileType::Directory)
}

/// Index of the first entry with the name `name` (and of type directory
/// where `dirs_only` holds), if there is one.
pub open spec fn find_named(entries: Seq<DirEntryView>, name: Seq<char>, dirs_only: bool) -> Option<
    int,
> {
    if exists|i: int| is_first_named(entries, name, dirs_only, i) {
        Some(choose|i: int| is_first_named(entries, name, dirs_only, i))
    } else {
        None
    }
}

/// `find_named` finds the first match, and finds none only where no entry
/// matches.
pub proof fn lemma_find_named(entries: Seq<DirEntryView>, name: Seq<char>, dirs_only: bool)
    ensures
        find_named(entries, name, dirs_only) is None <==> forall|j: int|
            0 <= j < entries.len() ==> !matches_name(#[trigger] entries[j], name, dirs_only),
        forall|i: int|
            is_first_named(entries, name, dirs_only, i) ==> find_named(entries, name, dirs_only)
                == Some(i),
        find_named(entries, name, dirs_only) matches Some(i) ==> is_first_named(
            entries,
            name,
            dirs_only,
            i,
        ),
{
    if exists|c: int| 0 <= c < entries.len() && matches_name(entries[c], name, dirs_only) {
        let c = choose|c: int| 0 <= c < entries.len() && matches_name(entries[c], name, dirs_only);
        lemma_has_first(entries, name, dirs_only, c);
    }
    assert forall|i: int| is_first_named(entries, name, dirs_only, i) implies find_named(
        entries,
        name,
        dirs_only,
    ) == Some(i) by {
        let w = choose|w: int| is_first_named(entries, name, dirs_only, w);
        if w < i {
            assert(!matches_name(entries[w], name, dirs_only));
        }
        if i < w {
            assert(!matches_name(entries[i], name, dirs_only));
        }
    }
}

proof fn lemma_has_first(entries: Seq<DirEntryView>, name: Seq<char>, dirs_only: bool, c: int)
    requires
        0 <= c < entries.len(),
        matches_name(entries[c], name, dirs_only),
    ensures
        exists|i: int| is_first_named(entries, name, dirs_only, i),
    decreases c,
{
    if forall|j: int| 0 <= j < c ==> !matches_name(#[trigger] entries[j], name, dirs_only) {
        assert(is_first_named(entries, name, dirs_only, c));
    } else {
        let d = choose|d: int| 0 <= d < c && matches_name(#[trigger] entries[d], name, dirs_only);
        lemma_has_first(entries, name, dirs_only, d);
    }
}

/// The tables of a freshly made filesystem: the root directory as inode 1
/// with its two entries, block 0 reserved, nothing open, nothing dirty.
pub open spec fn initial_state(total_blocks: u32, total_inodes: u32, now: SystemTime) -> FsState {
    FsState {
        inodes: Map::empty().insert(
            1u64,
            INode { nlink: 2, ..INode::fresh(1, FileType::Directory, 0o755, 0, 0, now) },
        ),
        directories: Map::empty().insert(1u64, dot_entries(1, 1)),
        open_files: Map::empty(),
        next_fh: 1,
        next_ino: 2,
        block_bits: with_bit(Seq::new(total_blocks as nat, |i: int| false), 0),
        inode_bits: Seq::new(total_inodes as nat, |i: int| false),
        dirty: false,
    }
}

/// What a snapshot of `s` holds.
pub open spec fn snapshot_of(s: FsState) -> SnapshotView {
    SnapshotView {
        inodes: s.inodes,
        directories: s.directories,
        block_bits: s.block_bits,
        inode_bits: s.inode_bits,
        next_ino: s.next_ino,
    }
}

/// The tables restored from a snapshot: block 0 is reserved whatever the
/// snapshot says, nothing is open, nothing dirty.
pub open spec fn restored(snap: SnapshotView) -> FsState {
    FsState {
        inodes: snap.inodes,
        directories: snap.directories,
        open_files: Map::empty(),
        next_fh: 1,
        next_ino: snap.next_ino,
        block_bits: with_bit(snap.block_bits, 0),
        inode_bits: snap.inode_bits,
        dirty: false,
    }
}

/// `lookup`: the attributes of the first entry named `name` in `parent`.
pub open spec fn lookup(s: FsState, parent: u64, name: Seq<char>) -> Result<FileAttr, Errno> {
    match find_named(entries_of(s.directories, parent), name, false) {
        Some(i) => {
            let ino = entries_of(s.directories, parent)[i].ino;
            if s.inodes.contains_key(ino) {
                Ok(attr_of(s.inodes[ino]))
            } else {
                Err(Errno::ENOENT)
            }
        },
        None => Err(Errno::ENOENT),
    }
}

/// `getattr` and `access`: whether the inode exists, and its attributes.
pub open spec fn getattr(s: FsState, ino: u64) -> Result<FileAttr, Errno> {
    if s.inodes.contains_key(ino) {
        Ok(attr_of(s.inodes[ino]))
    } else {
        Err(Errno::ENOENT)
    }
}

/// The tables after inode number `next_ino` was handed out.
pub open spec fn with_ino_taken(s: FsState) -> FsState {
    FsState {
        next_ino: (s.next_ino + 1) as u64,
        inode_bits: with_bit(s.inode_bits, s.next_ino as int),
        ..s
    }
}

/// The tables after the lowest free block, if any, was allocated.
pub open spec fn with_block_taken(s: FsState) -> FsState {
    FsState { block_bits: crate::bitmap::after_allocate(s.block_bits), ..s }
}

/// The tables after block `block` was released. Block 0 stays reserved.
pub open spec fn with_block_freed(s: FsState, block: u32) -> FsState {
    FsState { block_bits: after_deallocate(s.block_bits, block as int), ..s }
}

/// `s` after a new handle was mapped to `ino`.
pub open spec fn with_handle(s: FsState, ino: u64) -> FsState {
    FsState {
        open_files: s.open_files.insert(s.next_fh, ino),
        next_fh: (s.next_fh + 1) as u64,
        ..s
    }
}

/// `open`: a new handle for an existing inode.
pub open spec fn open(s: FsState, ino: u64) -> (FsState, Result<u64, Errno>) {
    if s.inodes.contains_key(ino) {
        (with_handle(s, ino), Ok(s.next_fh))
    } else {
        (s, Err(Errno::ENOENT))
    }
}

/// Whether `open` stays within the handle counter.
pub open spec fn open_in_range(s: FsState, ino: u64) -> bool {
    s.inodes.contains_key(ino) ==> s.next_fh < u64::MAX
}

/// `opendir`: a new handle for an existing directory.
pub open spec fn opendir(s: FsState, ino: u64) -> (FsState, Result<u64, Errno>) {
    if !s.inodes.contains_key(ino) {
        (s, Err(Errno::ENOENT))
    } else if s.inodes[ino].file_type != FileType::Directory {
        (s, Err(Errno::ENOTDIR))
    } else {
        (with_handle(s, ino), Ok(s.next_fh))
    }
}

/// Why `create` or `mkdir` of `name` under `parent` is refused, if it is.
pub open spec fn entry_refusal(s: FsState, parent: u64, name: Seq<char>) -> Option<Errno> {
    if !(s.inodes.contains_key(parent) && s.inodes[parent].file_type == FileType::Directory) {
        Some(Errno::ENOTDIR)
    } else if find_named(entries_of(s.directories, parent), name, false) is Some {
        Some(Errno::EEXIST)
    } else {
        None
    }
}

/// `create`: a new regular file named `name` under `parent`, opened.
pub open spec fn create(
    s: FsState,
    parent: u64,
    name: Seq<char>,
    mode: u32,
    uid: u32,
    gid: u32,
    now: SystemTime,
) -> (FsState, Result<Created, Errno>) {
    match entry_refusal(s, parent, name) {
        Some(e) => (s, Err(e)),
        None => {
            let ino = s.next_ino;
            let inode = INode::fresh(ino, FileType::RegularFile, mode_bits(mode), uid, gid, now);
            let entry = DirEntryView { ino, name, file_type: FileType::RegularFile };
            let next = FsState {
                inodes: s.inodes.insert(ino, inode),
                directories: s.directories.insert(
                    parent,
                    entries_of(s.directories, parent).push(entry),
                ),
                open_files: s.open_files.insert(s.next_fh, ino),
                next_fh: (s.next_fh + 1) as u64,
                next_ino: (ino + 1) as u64,
                block_bits: s.block_bits,
                inode_bits: with_bit(s.inode_bits, ino as int),
                dirty: true,
            };
            (next, Ok(Created { attr: attr_of(inode), generation: 0, fh: s.next_fh, flags: 0 }))
        },
    }
}

/// `mkdir`: a new directory named `name` under `parent`, with its two
/// entries; the parent gains one link.
pub open spec fn mkdir(
    s: FsState,
    parent: u64,
    name: Seq<char>,
    mode: u32,
    uid: u32,
    gid: u32,
    now: SystemTime,
) -> (FsState, Result<FileAttr, Errno>) {
    match entry_refusal(s, parent, name) {
        Some(e) => (s, Err(e)),
        None => {
            let ino = s.next_ino;
            let inode = INode {
                nlink: 2,
                ..INode::fresh(ino, FileType::Directory, mode_bits(mode), uid, gid, now)
            };
            let entry = DirEntryView { ino, name, file_type: FileType::Directory };
            let inodes1 = s.inodes.insert(ino, inode);
            let dirs1 = s.directories.insert(ino, dot_entries(ino, parent));
            let dirs2 = dirs1.insert(parent, entries_of(dirs1, parent).push(entry));
            let inodes2 = inodes1.insert(
                parent,
                INode { nlink: (inodes1[parent].nlink + 1) as u32, ..inodes1[parent] },
            );
            let next = FsState {
                inodes: inodes2,
                directories: dirs2,
                open_files: s.open_files,
                next_fh: s.next_fh,
                next_ino: (ino + 1) as u64,
                block_bits: s.block_bits,
                inode_bits: with_bit(s.inode_bits, ino as int),
                dirty: true,
            };
            (next, Ok(attr_of(inode)))
        },
    }
}

/// Whether `create` stays within its counters: where it is not refused, an
/// inode number and a handle are left to hand out.
pub open spec fn create_in_range(s: FsState, parent: u64, name: Seq<char>) -> bool {
    entry_refusal(s, parent, name) is None ==> s.next_ino < u64::MAX && s.next_fh < u64::MAX
}

/// Whether `mkdir` stays within the link counter: the parent, as it stands
/// once the new inode is in the table, can take one more link.
pub open spec fn mkdir_in_range(s: FsState, parent: u64, name: Seq<char>) -> bool {
    entry_refusal(s, parent, name) is None ==> {
        &&& s.next_ino < u64::MAX
        &&& (parent == s.next_ino || s.inodes[parent].nlink < u32::MAX)
    }
}

/// First logical block that a transfer at `offset` touches.
pub open spec fn span_start(offset: int, block_size: int) -> int {
    offset / block_size
}

/// One past the last logical block that a transfer of `len` bytes at
/// `offset` touches.
pub open spec fn span_end(offset: int, len: int, block_size: int) -> int {
    (offset + len + block_size - 1) / block_size
}

/// The blocks handed in for a read, as they appear in contracts.
pub open spec fn blocks_view(blocks: Seq<Option<Vec<u8>>>) -> Seq<Option<Seq<u8>>> {
    blocks.map_values(
        |b: Option<Vec<u8>>|
            match b {
                Some(v) => Some(v@),
                None => None,
            },
    )
}

/// The physical blocks that `inode` maps the logical blocks `start` to
/// `end - 1` to, in order; unmapped ones are left out.
pub open spec fn mapped_blocks(inode: INode, start: int, end: int) -> Seq<u32>
    decreases end - start,
{
    if end <= start {
        Seq::empty()
    } else {
        let rest = mapped_blocks(inode, start, end - 1);
        match inode.block_at(end - 1) {
            Some(b) => rest.push(b),
            None => rest,
        }
    }
}

/// `read`, first half: the blocks to fetch for `size` bytes at `offset`.
pub open spec fn read_plan(s: FsState, ino: u64, offset: u64, size: u32, block_size: int) -> Result<
    Seq<u32>,
    Errno,
> {
    if !s.inodes.contains_key(ino) {
        Err(Errno::ENOENT)
    } else if s.inodes[ino].file_type != FileType::RegularFile {
        Err(Errno::EISDIR)
    } else {
        Ok(
            mapped_blocks(
                s.inodes[ino],
                span_start(offset as int, block_size),
                span_end(offset as int, size as int, block_size),
            ),
        )
    }
}

/// The blocks that could be read, one after the other.
pub open spec fn concat_present(blocks: Seq<Option<Seq<u8>>>) -> Seq<u8>
    decreases blocks.len(),
{
    if blocks.len() == 0 {
        Seq::empty()
    } else {
        let rest = concat_present(blocks.drop_last());
        match blocks.last() {
            Some(b) => rest + b,
            None => rest,
        }
    }
}

/// `read`, second half: the bytes answered, cut from the fetched blocks.
/// A block that could not be read contributes nothing.
pub open spec fn read_reply(blocks: Seq<Option<Seq<u8>>>, offset: u64, size: u32, block_size: int) -> Seq<
    u8,
> {
    let data = concat_present(blocks);
    let from = offset as int % block_size;
    let to = if from + size < data.len() {
        from + size
    } else {
        data.len() as int
    };
    if from < data.len() {
        data.subrange(from, to)
    } else {
        Seq::empty()
    }
}

/// Outcome of allocating the unassigned blocks of a span.
pub struct SpanAllocation {
    pub inode: INode,
    pub bits: Seq<bool>,
    pub fresh: Seq<u32>,
    pub complete: bool,
}

/// Assigns a block to every unassigned logical block from `index` to
/// `end - 1`, lowest free block first. It stops, incomplete, at the first
/// logical block that finds the bitmap full or that lies past the direct
/// slots of an inode.
pub open spec fn allocate_span(inode: INode, bits: Seq<bool>, index: int, end: int) -> SpanAllocation
    decreases end - index,
{
    if index >= end {
        SpanAllocation { inode, bits, fresh: Seq::empty(), complete: true }
    } else if inode.block_at(index) is Some {
        allocate_span(inode, bits, index + 1, end)
    } else if index >= 12 {
        SpanAllocation { inode, bits, fresh: Seq::empty(), complete: false }
    } else {
        match lowest_clear(bits) {
            None => SpanAllocation { inode, bits, fresh: Seq::empty(), complete: false },
            Some(b) => {
                let rest = allocate_span(
                    inode.with_block(index, b as u32),
                    bits.update(b, true),
                    index + 1,
                    end,
                );
                SpanAllocation { fresh: seq![b as u32] + rest.fresh, ..rest }
            },
        }
    }
}

/// Where a span is allocated in full, the logical blocks before `index`
/// keep their mapping, every later one of the span is mapped, and the span
/// ends within the direct slots.
pub proof fn lemma_span_mapped(inode: INode, bits: Seq<bool>, index: int, end: int, k: int)
    requires
        0 <= index,
        bits.len() <= u32::MAX,
        allocate_span(inode, bits, index, end).complete,
        0 <= k < end,
    ensures
        k < index ==> allocate_span(inode, bits, index, end).inode.block_at(k)
            == inode.block_at(k),
        k >= index ==> allocate_span(inode, bits, index, end).inode.block_at(k) is Some,
        index < end ==> end <= 12,
    decreases end - index,
{
    broadcast use vstd::array::group_array_axioms;

    if index >= end {
    } else if inode.block_at(index) is Some {
        lemma_span_mapped(inode, bits, index + 1, end, k);
    } else if index >= 12 {
    } else {
        lemma_lowest_clear(bits);
        let b = lowest_clear(bits)->Some_0;
        let inode2 = inode.with_block(index, b as u32);
        assert(inode2.direct_blocks@ == inode.direct_blocks@.update(index, b as u32));
        lemma_span_mapped(inode2, bits.update(b, true), index + 1, end, k);
    }
}

/// The step of a write of `len` bytes at `offset` for logical block
/// `index`: the first block of the span is entered at the offset's place in
/// it, every later block at its start, and each step takes as much of the
/// data as the block has room for. The plan of a write holds steps only
/// for mapped blocks.
pub open spec fn write_step(inode: INode, offset: int, len: int, block_size: int, index: int) -> WriteStep {
    let first = index == span_start(offset, block_size);
    let block_offset = if first {
        offset % block_size
    } else {
        0
    };
    let data_start = if first {
        0
    } else if index * block_size - offset < len {
        index * block_size - offset
    } else {
        len
    };
    let room = block_size - block_offset;
    let left = len - data_start;
    WriteStep {
        block: match inode.block_at(index) {
            Some(b) => b,
            None => 0,
        },
        block_offset: block_offset as usize,
        data_start: data_start as usize,
        len: (if room < left {
            room
        } else {
            left
        }) as usize,
    }
}

/// The steps of a write, one for each logical block of its span.
pub open spec fn write_steps(inode: INode, offset: int, len: int, block_size: int) -> Seq<WriteStep> {
    let start = span_start(offset, block_size);
    let end = span_end(offset, len, block_size);
    Seq::new(
        (if end > start {
            end - start
        } else {
            0
        }) as nat,
        |j: int| write_step(inode, offset, len, block_size, start + j),
    )
}

/// `write`, first half: the blocks of the span are allocated and the
/// storage steps laid out. A write that finds no free block, or that
/// reaches past the twelve blocks of a file, is refused for want of space;
/// blocks allocated up to there stay allocated.
pub open spec fn begin_write(s: FsState, ino: u64, offset: u64, len: usize, block_size: int) -> (
    FsState,
    WritePlanView,
) {
    if !s.inodes.contains_key(ino) {
        (s, WritePlanView { fresh_blocks: Seq::empty(), steps: Seq::empty(), refusal: Some(Errno::ENOENT) })
    } else if s.inodes[ino].file_type != FileType::RegularFile {
        (s, WritePlanView { fresh_blocks: Seq::empty(), steps: Seq::empty(), refusal: Some(Errno::EISDIR) })
    } else {
        let a = allocate_span(
            s.inodes[ino],
            s.block_bits,
            span_start(offset as int, block_size),
            span_end(offset as int, len as int, block_size),
        );
        let next = FsState { inodes: s.inodes.insert(ino, a.inode), block_bits: a.bits, ..s };
        if a.complete {
            (
                next,
                WritePlanView {
                    fresh_blocks: a.fresh,
                    steps: write_steps(a.inode, offset as int, len as int, block_size),
                    refusal: None,
                },
            )
        } else {
            (
                next,
                WritePlanView {
                    fresh_blocks: a.fresh,
                    steps: Seq::empty(),
                    refusal: Some(Errno::ENOSPC),
                },
            )
        }
    }
}

/// The content a write starts from: what was read of the block, or zeros
/// where it could not be read.
pub open spec fn current_block(read: Option<Seq<u8>>, block_size: int) -> Seq<u8> {
    match read {
        Some(bytes) => bytes,
        None => Seq::new(block_size as nat, |i: int| 0u8),
    }
}

/// The content of a block after a step: `chunk` laid over `current` at
/// `block_offset`.
pub open spec fn spliced(current: Seq<u8>, block_offset: int, chunk: Seq<u8>) -> Seq<u8> {
    current.subrange(0, block_offset) + chunk + current.subrange(
        block_offset + chunk.len(),
        current.len() as int,
    )
}

/// What reading block `block` of `disk` gives, where `disk` holds the
/// content of every block that can be read.
pub open spec fn read_of(disk: Map<u32, Seq<u8>>, block: u32) -> Option<Seq<u8>> {
    if disk.contains_key(block) {
        Some(disk[block])
    } else {
        None
    }
}

/// What fetching `blocks` from `disk` gives, block by block.
pub open spec fn fetched(disk: Map<u32, Seq<u8>>, blocks: Seq<u32>) -> Seq<Option<Seq<u8>>> {
    blocks.map_values(|b: u32| read_of(disk, b))
}

/// The block contents after the steps of a write were carried out in
/// order: each step reads its block, lays its part of `data` over it and
/// stores the block.
pub open spec fn after_steps(
    disk: Map<u32, Seq<u8>>,
    steps: Seq<WriteStep>,
    data: Seq<u8>,
    block_size: int,
) -> Map<u32, Seq<u8>>
    decreases steps.len(),
{
    if steps.len() == 0 {
        disk
    } else {
        let before = after_steps(disk, steps.drop_last(), data, block_size);
        let step = steps.last();
        before.insert(
            step.block,
            spliced(
                current_block(read_of(before, step.block), block_size),
                step.block_offset as int,
                data.subrange(step.data_start as int, step.data_start + step.len),
            ),
        )
    }
}

/// `write`, second half: once the blocks are stored, the file grows to
/// cover the write, its modification time moves to `now`, and the tables
/// are dirty. Where storing failed, nothing changes.
pub open spec fn finish_write(
    s: FsState,
    ino: u64,
    offset: u64,
    len: usize,
    stored: bool,
    now: SystemTime,
) -> (FsState, Result<u32, Errno>) {
    if !stored {
        (s, Err(Errno::EIO))
    } else if !s.inodes.contains_key(ino) {
        (s, Err(Errno::ENOENT))
    } else {
        let old = s.inodes[ino];
        let size = if offset + len > old.size {
            (offset + len) as u64
        } else {
            old.size
        };
        (
            FsState {
                inodes: s.inodes.insert(ino, INode { size, mtime: now, ..old }),
                dirty: true,
                ..s
            },
            Ok(len as u32),
        )
    }
}

/// The block bitmap after the blocks in the first `n` direct slots of
/// `inode` were released. Block 0 is never released.
pub open spec fn release_blocks(bits: Seq<bool>, inode: INode, n: int) -> Seq<bool>
    decreases n,
{
    if n <= 0 {
        bits
    } else {
        let before = release_blocks(bits, inode, n - 1);
        match inode.block_at(n - 1) {
            Some(b) => after_deallocate(before, b as int),
            None => before,
        }
    }
}

/// The inode that `unlink` of `name` under `parent` takes a link from, if
/// the entry exists and its inode does.
pub open spec fn unlink_target(s: FsState, parent: u64, name: Seq<char>) -> Option<u64> {
    match find_named(entries_of(s.directories, parent), name, false) {
        Some(i) => {
            let ino = entries_of(s.directories, parent)[i].ino;
            if s.inodes.contains_key(ino) {
                Some(ino)
            } else {
                None
            }
        },
        None => None,
    }
}

/// Whether `unlink` stays within the link counter: the inode it takes a
/// link from has one.
pub open spec fn unlink_in_range(s: FsState, parent: u64, name: Seq<char>) -> bool {
    unlink_target(s, parent, name) matches Some(t) ==> s.inodes[t].nlink > 0
}

/// `unlink`: the first entry named `name` leaves `parent`; its inode loses
/// a link and, with the last one, its blocks and its place in the table.
pub open spec fn unlink(s: FsState, parent: u64, name: Seq<char>) -> (FsState, Result<(), Errno>) {
    match find_named(entries_of(s.directories, parent), name, false) {
        None => (s, Err(Errno::ENOENT)),
        Some(i) => {
            let ino = s.directories[parent][i].ino;
            let dirs = s.directories.insert(parent, s.directories[parent].remove(i));
            if !s.inodes.contains_key(ino) {
                (FsState { directories: dirs, dirty: true, ..s }, Ok(()))
            } else {
                let inode = INode { nlink: (s.inodes[ino].nlink - 1) as u32, ..s.inodes[ino] };
                if inode.nlink == 0 {
                    (
                        FsState {
                            directories: dirs,
                            inodes: s.inodes.remove(ino),
                            block_bits: release_blocks(s.block_bits, inode, 12),
                            dirty: true,
                            ..s
                        },
                        Ok(()),
                    )
                } else {
                    (
                        FsState {
                            directories: dirs,
                            inodes: s.inodes.insert(ino, inode),
                            dirty: true,
                            ..s
                        },
                        Ok(()),
                    )
                }
            }
        },
    }
}

/// The directory that `rmdir` of `name` under `parent` is about: the inode
/// of the first entry of that name and of type directory.
pub open spec fn rmdir_target(s: FsState, parent: u64, name: Seq<char>) -> Option<u64> {
    match find_named(entries_of(s.directories, parent), name, true) {
        Some(i) => Some(entries_of(s.directories, parent)[i].ino),
        None => None,
    }
}

/// Whether `rmdir` stays within the link counter: the parent, where it is
/// left in the table, has a link to give.
pub open spec fn rmdir_in_range(s: FsState, parent: u64, name: Seq<char>) -> bool {
    rmdir_target(s, parent, name) matches Some(t) ==> (s.inodes.contains_key(parent) && parent != t
        && !(s.directories.contains_key(t) && s.directories[t].len() > 2)
        ==> s.inodes[parent].nlink > 0)
}

/// `rmdir`: the first directory entry named `name` leaves `parent`, the
/// directory's list and inode are dropped, the parent loses a link. A
/// directory with more than its two entries is not removed.
pub open spec fn rmdir(s: FsState, parent: u64, name: Seq<char>) -> (FsState, Result<(), Errno>) {
    match find_named(entries_of(s.directories, parent), name, true) {
        None => (s, Err(Errno::ENOENT)),
        Some(i) => {
            let ino = s.directories[parent][i].ino;
            if s.directories.contains_key(ino) && s.directories[ino].len() > 2 {
                (s, Err(Errno::ENOTEMPTY))
            } else {
                let dirs = s.directories.insert(parent, s.directories[parent].remove(i)).remove(
                    ino,
                );
                let inodes1 = s.inodes.remove(ino);
                let inodes2 = if inodes1.contains_key(parent) {
                    inodes1.insert(
                        parent,
                        INode { nlink: (inodes1[parent].nlink - 1) as u32, ..inodes1[parent] },
                    )
                } else {
                    inodes1
                };
                (FsState { directories: dirs, inodes: inodes2, dirty: true, ..s }, Ok(()))
            }
        },
    }
}

/// `rename`: the first entry named `name` leaves `parent` and is appended
/// to `newparent` under the name `newname`. Nothing is checked at the
/// destination.
pub open spec fn rename(
    s: FsState,
    parent: u64,
    name: Seq<char>,
    newparent: u64,
    newname: Seq<char>,
) -> (FsState, Result<(), Errno>) {
    match find_named(entries_of(s.directories, parent), name, false) {
        None => (s, Err(Errno::ENOENT)),
        Some(i) => {
            let entry = s.directories[parent][i];
            let dirs1 = s.directories.insert(parent, s.directories[parent].remove(i));
            let moved = DirEntryView { name: newname, ..entry };
            let dirs2 = dirs1.insert(newparent, entries_of(dirs1, newparent).push(moved));
            (FsState { directories: dirs2, dirty: true, ..s }, Ok(()))
        },
    }
}

/// `readdir`: the entries of directory `ino` from position `offset` on,
/// each with the offset that follows it. A missing directory and an offset
/// outside the list give an empty listing.
pub open spec fn readdir(s: FsState, ino: u64, offset: i64) -> Seq<ListingView> {
    let entries = entries_of(s.directories, ino);
    if 0 <= offset < entries.len() {
        Seq::new(
            (entries.len() - offset) as nat,
            |k: int|
                ListingView {
                    ino: entries[offset + k].ino,
                    offset: (offset + k + 1) as i64,
                    kind: entries[offset + k].file_type,
                    name: entries[offset + k].name,
                },
        )
    } else {
        Seq::empty()
    }
}

/// Number of indices below `n` that `bits` does not show as allocated.
pub open spec fn free_count(bits: Seq<bool>, n: int) -> int
    decreases n,
{
    if n <= 0 {
        0
    } else {
        free_count(bits, n - 1) + if n - 1 < bits.len() && bits[n - 1] {
            0int
        } else {
            1int
        }
    }
}

/// `statfs`: totals and free counts.
pub open spec fn statfs(s: FsState, total_blocks: u32, total_inodes: u32, block_size: int) -> StatFs {
    StatFs {
        blocks: total_blocks as u64,
        bfree: free_count(s.block_bits, total_blocks as int) as u64,
        bavail: free_count(s.block_bits, total_blocks as int) as u64,
        files: total_inodes as u64,
        ffree: (total_inodes - s.inodes.len()) as u64,
        bsize: block_size as u32,
        namelen: NAME_MAX,
        frsize: block_size as u32,
    }
}

/// `fsync`: where the snapshot reached the disk (or none was due) the
/// tables are clean; where it did not, they stay as they are.
pub open spec fn fsync(s: FsState, written: bool) -> (FsState, Result<(), Errno>) {
    if written {
        (FsState { dirty: false, ..s }, Ok(()))
    } else {
        (s, Err(Errno::EIO))
    }
}

/// `release` and `releasedir`: as `fsync`, and then the handle is dropped.
pub open spec fn release(s: FsState, fh: u64, written: bool) -> (FsState, Result<(), Errno>) {
    if written {
        (FsState { dirty: false, open_files: s.open_files.remove(fh), ..s }, Ok(()))
    } else {
        (s, Err(Errno::EIO))
    }
}

} // verus!
