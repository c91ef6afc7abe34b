//! What holds of the namespace whatever operations run: block 0 stays
//! reserved, no block belongs to two files, a read answers with what was
//! written, directory link counts follow the directory lists, a snapshot
//! survives save and load unchanged, and `rmdir` refuses exactly the
//! directories that still have entries.

use crate::bitmap::{after_allocate, after_deallocate, lemma_lowest_clear, lowest_clear};
use crate::inode::{DirEntryView, FileType, INode};
use crate::model::{
    after_steps, allocate_span, begin_write, concat_present, create, create_in_range,
    current_block, dot, dot_entries, dotdot, entries_of, entry_refusal, fetched, find_named,
    finish_write, initial_state, lemma_find_named, lemma_span_mapped, mapped_blocks, mkdir,
    mkdir_in_range, open, open_in_range, opendir, read_of, read_plan, read_reply,
    release_blocks, rename, restored, rmdir, rmdir_in_range, rmdir_target, snapshot_of,
    span_end, span_start, spliced, superblock_reserved, unlink, unlink_in_range, write_step,
    write_steps, FsState, SnapshotView,
};
use crate::types::{Errno, WriteStep};
use std::time::SystemTime;
use vstd::prelude::*;

verus! {

/// Block reservation, bitmap level: with block 0 reserved, allocation never
/// hands out block 0, and neither allocation nor release frees it.
pub proof fn lemma_reserved_bits(bits: Seq<bool>, index: int)
    requires
        superblock_reserved(bits),
    ensures
        lowest_clear(bits) != Some(0int),
        superblock_reserved(after_allocate(bits)),
        superblock_reserved(after_deallocate(bits, index)),
{
    lemma_lowest_clear(bits);
}

proof fn lemma_span_keeps_reserved(inode: INode, bits: Seq<bool>, index: int, end: int)
    requires
        superblock_reserved(bits),
    ensures
        superblock_reserved(allocate_span(inode, bits, index, end).bits),
        allocate_span(inode, bits, index, end).bits.len() == bits.len(),
        !allocate_span(inode, bits, index, end).fresh.contains(0u32) || bits.len() > u32::MAX,
    decreases end - index,
{
    if index >= end {
    } else if inode.block_at(index) is Some {
        lemma_span_keeps_reserved(inode, bits, index + 1, end);
    } else if index >= 12 {
    } else {
        lemma_lowest_clear(bits);
        match lowest_clear(bits) {
            None => {},
            Some(b) => {
                let rest = allocate_span(
                    inode.with_block(index, b as u32),
                    bits.update(b, true),
                    index + 1,
                    end,
                );
                lemma_span_keeps_reserved(
                    inode.with_block(index, b as u32),
                    bits.update(b, true),
                    index + 1,
                    end,
                );
                if bits.len() <= u32::MAX {
                    let fresh = seq![b as u32] + rest.fresh;
                    if fresh.contains(0u32) {
                        let k = choose|k: int| 0 <= k < fresh.len() && fresh[k] == 0u32;
                        if k > 0 {
                            assert(rest.fresh[k - 1] == 0u32);
                        }
                    }
                }
            },
        }
    }
}

proof fn lemma_release_keeps_reserved(bits: Seq<bool>, inode: INode, n: int)
    requires
        superblock_reserved(bits),
    ensures
        superblock_reserved(release_blocks(bits, inode, n)),
        release_blocks(bits, inode, n).len() == bits.len(),
    decreases n,
{
    if n > 0 {
        lemma_release_keeps_reserved(bits, inode, n - 1);
    }
}

/// Block reservation: block 0 is reserved in a fresh filesystem that has
/// blocks and in every restored one, and the two operations that change
/// the block bitmap, `write` and `unlink`, keep it reserved; `write` never
/// allocates it.
pub proof fn lemma_superblock_reserved(
    s: FsState,
    snap: SnapshotView,
    total_blocks: u32,
    total_inodes: u32,
    now: SystemTime,
    ino: u64,
    offset: u64,
    len: usize,
    block_size: int,
    parent: u64,
    name: Seq<char>,
)
    requires
        superblock_reserved(s.block_bits),
        s.block_bits.len() <= u32::MAX,
    ensures
        superblock_reserved(initial_state(total_blocks, total_inodes, now).block_bits),
        total_blocks > 0 ==> initial_state(total_blocks, total_inodes, now).block_bits[0],
        superblock_reserved(restored(snap).block_bits),
        superblock_reserved(begin_write(s, ino, offset, len, block_size).0.block_bits),
        !begin_write(s, ino, offset, len, block_size).1.fresh_blocks.contains(0u32),
        superblock_reserved(unlink(s, parent, name).0.block_bits),
{
    if s.inodes.contains_key(ino) {
        lemma_span_keeps_reserved(
            s.inodes[ino],
            s.block_bits,
            crate::model::span_start(offset as int, block_size),
            crate::model::span_end(offset as int, len as int, block_size),
        );
    }
    match find_named(entries_of(s.directories, parent), name, false) {
        Some(i) => {
            let t = s.directories[parent][i].ino;
            if s.inodes.contains_key(t) {
                let inode = INode { nlink: (s.inodes[t].nlink - 1) as u32, ..s.inodes[t] };
                lemma_release_keeps_reserved(s.block_bits, inode, 12);
            }
        },
        None => {},
    }
}

/// `rmdir` answers "not empty" exactly when the directory it is about has
/// a list of more than two entries.
pub proof fn lemma_rmdir_not_empty(s: FsState, parent: u64, name: Seq<char>)
    ensures
        rmdir(s, parent, name).1 == Err::<(), Errno>(Errno::ENOTEMPTY) <==> (rmdir_target(
            s,
            parent,
            name,
        ) matches Some(t) && s.directories.contains_key(t) && s.directories[t].len() > 2),
        rmdir(s, parent, name).1 == Err::<(), Errno>(Errno::ENOENT) <==> rmdir_target(
            s,
            parent,
            name,
        ) is None,
{
    lemma_find_named(entries_of(s.directories, parent), name, true);
}

/// Snapshot idempotence: a snapshot taken after loading a snapshot is that
/// snapshot with block 0 reserved; taken after loading what a filesystem
/// saved, it is what the filesystem saved.
pub proof fn lemma_snapshot_idempotent(s: FsState, snap: SnapshotView)
    requires
        superblock_reserved(s.block_bits),
    ensures
        snapshot_of(restored(snapshot_of(s))) == snapshot_of(s),
        snapshot_of(restored(snapshot_of(restored(snap)))) == snapshot_of(restored(snap)),
{
    assert(restored(snapshot_of(s)).block_bits =~= s.block_bits);
    assert(restored(snapshot_of(restored(snap))).block_bits =~= restored(snap).block_bits);
}

/// Inode numbers and handles are handed out once: `create` and `mkdir`
/// take the next inode number, `create`, `open` and `opendir` the next
/// handle, and no operation moves a counter back.
pub proof fn lemma_counters_grow(
    s: FsState,
    parent: u64,
    name: Seq<char>,
    mode: u32,
    uid: u32,
    gid: u32,
    now: SystemTime,
    ino: u64,
)
    requires
        create_in_range(s, parent, name),
        mkdir_in_range(s, parent, name),
        open_in_range(s, ino),
    ensures
        create(s, parent, name, mode, uid, gid, now).1 matches Ok(c) ==> c.attr.ino == s.next_ino
            && c.fh == s.next_fh && create(s, parent, name, mode, uid, gid, now).0.next_ino
            == s.next_ino + 1 && create(s, parent, name, mode, uid, gid, now).0.next_fh == s.next_fh
            + 1,
        mkdir(s, parent, name, mode, uid, gid, now).1 matches Ok(a) ==> a.ino == s.next_ino
            && mkdir(s, parent, name, mode, uid, gid, now).0.next_ino == s.next_ino + 1,
        open(s, ino).1 matches Ok(fh) ==> fh == s.next_fh && open(s, ino).0.next_fh == s.next_fh
            + 1,
        opendir(s, ino).1 matches Ok(fh) ==> fh == s.next_fh && opendir(s, ino).0.next_fh
            == s.next_fh + 1,
        unlink(s, parent, name).0.next_ino == s.next_ino,
        rmdir(s, parent, name).0.next_ino == s.next_ino,
{
}

/// Block `block` is allocated and is not block 0.
pub open spec fn block_taken(bits: Seq<bool>, block: u32) -> bool {
    0 < block < bits.len() && bits[block as int]
}

/// The blocks that `inode` maps are allocated, and it maps none twice.
pub open spec fn inode_owns(inode: INode, bits: Seq<bool>) -> bool {
    &&& forall|k: int| (#[trigger] inode.block_at(k)) matches Some(b) ==> block_taken(bits, b)
    &&& forall|k: int, l: int|
        k != l && (#[trigger] inode.block_at(k)) is Some && (#[trigger] inode.block_at(l)) is Some
            ==> inode.block_at(k) != inode.block_at(l)
}

/// Every block that an inode maps is allocated, and no block is mapped by
/// two inodes or twice by one.
pub open spec fn blocks_owned(s: FsState) -> bool {
    &&& forall|i: u64| s.inodes.contains_key(i) ==> inode_owns(#[trigger] s.inodes[i], s.block_bits)
    &&& forall|i: u64, j: u64, k: int, l: int|
        i != j && s.inodes.contains_key(i) && s.inodes.contains_key(j) && (
        #[trigger] s.inodes[i].block_at(k)) is Some && (#[trigger] s.inodes[j].block_at(l)) is Some
            ==> s.inodes[i].block_at(k) != s.inodes[j].block_at(l)
}

proof fn lemma_span_owned(inode: INode, bits: Seq<bool>, index: int, end: int)
    requires
        0 <= index,
        bits.len() <= u32::MAX,
        superblock_reserved(bits),
        inode_owns(inode, bits),
    ensures
        inode_owns(allocate_span(inode, bits, index, end).inode, allocate_span(inode, bits, index, end).bits),
        allocate_span(inode, bits, index, end).bits.len() == bits.len(),
        forall|b: int|
            0 <= b < bits.len() && bits[b] ==> #[trigger] allocate_span(inode, bits, index, end).bits[b],
        forall|k: int|
            (#[trigger] allocate_span(inode, bits, index, end).inode.block_at(k)) matches Some(b)
                ==> inode.block_at(k) == Some(b) || (b < bits.len() && !bits[b as int]),
    decreases end - index,
{
    broadcast use vstd::array::group_array_axioms;

    if index >= end {
    } else if inode.block_at(index) is Some {
        lemma_span_owned(inode, bits, index + 1, end);
    } else if index >= 12 {
    } else {
        lemma_lowest_clear(bits);
        match lowest_clear(bits) {
            None => {},
            Some(b) => {
                let inode2 = inode.with_block(index, b as u32);
                let bits2 = bits.update(b, true);
                assert(inode2.direct_blocks@ == inode.direct_blocks@.update(index, b as u32));
                assert forall|k: int| (#[trigger] inode2.block_at(k)) is Some implies block_taken(
                    bits2,
                    inode2.block_at(k)->Some_0,
                ) by {
                    if k != index {
                        assert(inode2.block_at(k) == inode.block_at(k));
                    }
                }
                assert forall|k: int, l: int|
                    k != l && (#[trigger] inode2.block_at(k)) is Some && (#[trigger] inode2.block_at(
                        l,
                    )) is Some implies inode2.block_at(k) != inode2.block_at(l) by {
                    if k != index {
                        assert(inode2.block_at(k) == inode.block_at(k));
                    }
                    if l != index {
                        assert(inode2.block_at(l) == inode.block_at(l));
                    }
                }
                lemma_span_owned(inode2, bits2, index + 1, end);
                let a = allocate_span(inode, bits, index, end);
                assert forall|k: int| (#[trigger] a.inode.block_at(k)) is Some implies inode.block_at(
                    k,
                ) == a.inode.block_at(k) || (a.inode.block_at(k)->Some_0 < bits.len()
                    && !bits[a.inode.block_at(k)->Some_0 as int]) by {
                    if k != index {
                        assert(inode2.block_at(k) == inode.block_at(k));
                    }
                }
            },
        }
    }
}

proof fn lemma_release_bits(bits: Seq<bool>, inode: INode, n: int, b: int)
    requires
        0 <= b < bits.len(),
    ensures
        release_blocks(bits, inode, n).len() == bits.len(),
        release_blocks(bits, inode, n)[b] ==> bits[b],
        (forall|k: int| inode.block_at(k) != Some(b as u32)) ==> release_blocks(bits, inode, n)[b]
            == bits[b],
    decreases n,
{
    if n > 0 {
        lemma_release_bits(bits, inode, n - 1, b);
    }
}

/// Block ownership: a fresh filesystem owns its blocks, and every operation
/// keeps ownership. So no write touches a block of another file, and the
/// blocks that `unlink` releases belong to no file that stays.
pub proof fn lemma_blocks_owned(
    s: FsState,
    total_blocks: u32,
    total_inodes: u32,
    now: SystemTime,
    ino: u64,
    offset: u64,
    len: usize,
    block_size: int,
    stored: bool,
    parent: u64,
    name: Seq<char>,
    newparent: u64,
    newname: Seq<char>,
    mode: u32,
    uid: u32,
    gid: u32,
)
    requires
        0 < block_size,
        blocks_owned(s),
        superblock_reserved(s.block_bits),
        s.block_bits.len() <= u32::MAX,
    ensures
        blocks_owned(initial_state(total_blocks, total_inodes, now)),
        blocks_owned(begin_write(s, ino, offset, len, block_size).0),
        blocks_owned(finish_write(s, ino, offset, len, stored, now).0),
        blocks_owned(create(s, parent, name, mode, uid, gid, now).0),
        mkdir_in_range(s, parent, name) ==> blocks_owned(
            mkdir(s, parent, name, mode, uid, gid, now).0,
        ),
        unlink_in_range(s, parent, name) ==> blocks_owned(unlink(s, parent, name).0),
        rmdir_in_range(s, parent, name) ==> blocks_owned(rmdir(s, parent, name).0),
        blocks_owned(rename(s, parent, name, newparent, newname).0),
{
    broadcast use vstd::array::group_array_axioms;

    lemma_fresh_maps_nothing(initial_state(total_blocks, total_inodes, now).inodes[1]);
    lemma_owned_write(s, ino, offset, len, block_size);
    lemma_owned_finish(s, ino, offset, len, stored, now);
    lemma_owned_create(s, parent, name, mode, uid, gid, now);
    if mkdir_in_range(s, parent, name) {
        lemma_owned_mkdir(s, parent, name, mode, uid, gid, now);
    }
    if unlink_in_range(s, parent, name) {
        lemma_owned_unlink(s, parent, name);
    }
    if rmdir_in_range(s, parent, name) {
        lemma_owned_rmdir(s, parent, name);
    }
}

proof fn lemma_fresh_maps_nothing(inode: INode)
    requires
        inode.direct_blocks == vstd::array::spec_array_fill_for_copy_type::<u32, 12>(
            crate::inode::UNASSIGNED,
        ),
    ensures
        forall|k: int| (#[trigger] inode.block_at(k)) is None,
{
    broadcast use vstd::array::group_array_axioms;

}

proof fn lemma_owned_write(s: FsState, ino: u64, offset: u64, len: usize, block_size: int)
    requires
        0 < block_size,
        blocks_owned(s),
        superblock_reserved(s.block_bits),
        s.block_bits.len() <= u32::MAX,
    ensures
        blocks_owned(begin_write(s, ino, offset, len, block_size).0),
{
    let next = begin_write(s, ino, offset, len, block_size).0;
    if s.inodes.contains_key(ino) && s.inodes[ino].file_type == FileType::RegularFile {
        let start = span_start(offset as int, block_size);
        let end = span_end(offset as int, len as int, block_size);
        let a = allocate_span(s.inodes[ino], s.block_bits, start, end);
        vstd::arithmetic::div_mod::lemma_div_pos_is_pos(offset as int, block_size);
        lemma_span_owned(s.inodes[ino], s.block_bits, start, end);
        assert forall|i: u64| next.inodes.contains_key(i) implies inode_owns(
            #[trigger] next.inodes[i],
            next.block_bits,
        ) by {
            if i != ino {
                assert(inode_owns(s.inodes[i], s.block_bits));
                assert forall|k: int| (#[trigger] s.inodes[i].block_at(k)) is Some implies block_taken(
                    a.bits,
                    s.inodes[i].block_at(k)->Some_0,
                ) by {
                    assert(block_taken(s.block_bits, s.inodes[i].block_at(k)->Some_0));
                }
            }
        }
        assert forall|i: u64, j: u64, k: int, l: int|
            i != j && next.inodes.contains_key(i) && next.inodes.contains_key(j) && (
            #[trigger] next.inodes[i].block_at(k)) is Some && (#[trigger] next.inodes[j].block_at(
                l,
            )) is Some implies next.inodes[i].block_at(k) != next.inodes[j].block_at(l) by {
            if i == ino {
                assert(inode_owns(s.inodes[j], s.block_bits));
                assert(block_taken(s.block_bits, s.inodes[j].block_at(l)->Some_0));
                if s.inodes[ino].block_at(k) == a.inode.block_at(k) {
                    assert(s.inodes[i].block_at(k) != s.inodes[j].block_at(l));
                }
            } else if j == ino {
                assert(inode_owns(s.inodes[i], s.block_bits));
                assert(block_taken(s.block_bits, s.inodes[i].block_at(k)->Some_0));
                if s.inodes[ino].block_at(l) == a.inode.block_at(l) {
                    assert(s.inodes[i].block_at(k) != s.inodes[j].block_at(l));
                }
            } else {
                assert(s.inodes[i].block_at(k) != s.inodes[j].block_at(l));
            }
        }
    }
}

proof fn lemma_owned_finish(s: FsState, ino: u64, offset: u64, len: usize, stored: bool, now: SystemTime)
    requires
        blocks_owned(s),
    ensures
        blocks_owned(finish_write(s, ino, offset, len, stored, now).0),
{
    let next = finish_write(s, ino, offset, len, stored, now).0;
    if stored && s.inodes.contains_key(ino) {
        assert forall|i: u64| next.inodes.contains_key(i) implies inode_owns(
            #[trigger] next.inodes[i],
            next.block_bits,
        ) by {
            assert(inode_owns(s.inodes[i], s.block_bits));
            assert(next.inodes[i].direct_blocks == s.inodes[i].direct_blocks);
            assert forall|k: int| next.inodes[i].block_at(k) == s.inodes[i].block_at(k) by {}
        }
        assert forall|i: u64, j: u64, k: int, l: int|
            i != j && next.inodes.contains_key(i) && next.inodes.contains_key(j) && (
            #[trigger] next.inodes[i].block_at(k)) is Some && (#[trigger] next.inodes[j].block_at(
                l,
            )) is Some implies next.inodes[i].block_at(k) != next.inodes[j].block_at(l) by {
            assert(next.inodes[i].block_at(k) == s.inodes[i].block_at(k));
            assert(next.inodes[j].block_at(l) == s.inodes[j].block_at(l));
        }
    }
}

proof fn lemma_owned_create(
    s: FsState,
    parent: u64,
    name: Seq<char>,
    mode: u32,
    uid: u32,
    gid: u32,
    now: SystemTime,
)
    requires
        blocks_owned(s),
    ensures
        blocks_owned(create(s, parent, name, mode, uid, gid, now).0),
{
    let next = create(s, parent, name, mode, uid, gid, now).0;
    if entry_refusal(s, parent, name) is None {
        let ino = s.next_ino;
        lemma_fresh_maps_nothing(next.inodes[ino]);
        assert forall|i: u64| next.inodes.contains_key(i) implies inode_owns(
            #[trigger] next.inodes[i],
            next.block_bits,
        ) by {
            if i != ino {
                assert(inode_owns(s.inodes[i], s.block_bits));
            }
        }
        assert forall|i: u64, j: u64, k: int, l: int|
            i != j && next.inodes.contains_key(i) && next.inodes.contains_key(j) && (
            #[trigger] next.inodes[i].block_at(k)) is Some && (#[trigger] next.inodes[j].block_at(
                l,
            )) is Some implies next.inodes[i].block_at(k) != next.inodes[j].block_at(l) by {
            assert(i != ino && j != ino);
            assert(s.inodes[i].block_at(k) != s.inodes[j].block_at(l));
        }
    }
}

proof fn lemma_owned_mkdir(
    s: FsState,
    parent: u64,
    name: Seq<char>,
    mode: u32,
    uid: u32,
    gid: u32,
    now: SystemTime,
)
    requires
        blocks_owned(s),
        mkdir_in_range(s, parent, name),
    ensures
        blocks_owned(mkdir(s, parent, name, mode, uid, gid, now).0),
{
    let next = mkdir(s, parent, name, mode, uid, gid, now).0;
    if entry_refusal(s, parent, name) is None {
        let ino = s.next_ino;
        lemma_fresh_maps_nothing(next.inodes[ino]);
        assert forall|i: u64, k: int| next.inodes.contains_key(i) implies (#[trigger] next.inodes[i].block_at(
            k,
        )) == if i == ino {
            None
        } else {
            s.inodes[i].block_at(k)
        } by {
            if i != ino && i == parent {
                assert(next.inodes[i].direct_blocks == s.inodes[i].direct_blocks);
            }
        }
        assert forall|i: u64| next.inodes.contains_key(i) implies inode_owns(
            #[trigger] next.inodes[i],
            next.block_bits,
        ) by {
            if i != ino {
                assert(inode_owns(s.inodes[i], s.block_bits));
                assert forall|k: int| (#[trigger] next.inodes[i].block_at(k)) is Some implies block_taken(
                    next.block_bits,
                    next.inodes[i].block_at(k)->Some_0,
                ) by {
                    assert(next.inodes[i].block_at(k) == s.inodes[i].block_at(k));
                }
            }
        }
        assert forall|i: u64, j: u64, k: int, l: int|
            i != j && next.inodes.contains_key(i) && next.inodes.contains_key(j) && (
            #[trigger] next.inodes[i].block_at(k)) is Some && (#[trigger] next.inodes[j].block_at(
                l,
            )) is Some implies next.inodes[i].block_at(k) != next.inodes[j].block_at(l) by {
            assert(i != ino && j != ino);
            assert(s.inodes[i].block_at(k) != s.inodes[j].block_at(l));
        }
    }
}

proof fn lemma_owned_unlink(s: FsState, parent: u64, name: Seq<char>)
    requires
        blocks_owned(s),
        unlink_in_range(s, parent, name),
    ensures
        blocks_owned(unlink(s, parent, name).0),
{
    let next = unlink(s, parent, name).0;
    lemma_find_named(entries_of(s.directories, parent), name, false);
    match find_named(entries_of(s.directories, parent), name, false) {
        None => {},
        Some(pos) => {
            let t = s.directories[parent][pos].ino;
            if s.inodes.contains_key(t) {
                let inode = INode { nlink: (s.inodes[t].nlink - 1) as u32, ..s.inodes[t] };
                assert forall|k: int| inode.block_at(k) == s.inodes[t].block_at(k) by {}
                assert forall|i: u64, k: int| next.inodes.contains_key(i) implies (
                #[trigger] next.inodes[i].block_at(k)) == s.inodes[i].block_at(k) by {}
                assert forall|i: u64| next.inodes.contains_key(i) implies inode_owns(
                    #[trigger] next.inodes[i],
                    next.block_bits,
                ) by {
                    assert(inode_owns(s.inodes[i], s.block_bits));
                    if inode.nlink == 0 {
                        assert forall|k: int| (#[trigger] next.inodes[i].block_at(k)) is Some implies block_taken(
                            next.block_bits,
                            next.inodes[i].block_at(k)->Some_0,
                        ) by {
                            let b = s.inodes[i].block_at(k)->Some_0;
                            assert(block_taken(s.block_bits, b));
                            assert forall|l: int| inode.block_at(l) != Some(b) by {
                                if s.inodes[t].block_at(l) is Some {
                                    assert(s.inodes[i].block_at(k) != s.inodes[t].block_at(l));
                                }
                            }
                            lemma_release_bits(s.block_bits, inode, 12, b as int);
                        }
                    }
                }
                assert forall|i: u64, j: u64, k: int, l: int|
                    i != j && next.inodes.contains_key(i) && next.inodes.contains_key(j) && (
                    #[trigger] next.inodes[i].block_at(k)) is Some && (
                    #[trigger] next.inodes[j].block_at(l)) is Some implies next.inodes[i].block_at(k)
                    != next.inodes[j].block_at(l) by {
                    assert(s.inodes[i].block_at(k) != s.inodes[j].block_at(l));
                }
            }
        },
    }
}

proof fn lemma_owned_rmdir(s: FsState, parent: u64, name: Seq<char>)
    requires
        blocks_owned(s),
        rmdir_in_range(s, parent, name),
    ensures
        blocks_owned(rmdir(s, parent, name).0),
{
    let next = rmdir(s, parent, name).0;
    lemma_find_named(entries_of(s.directories, parent), name, true);
    match find_named(entries_of(s.directories, parent), name, true) {
        None => {},
        Some(pos) => {
            assert forall|i: u64, k: int| next.inodes.contains_key(i) implies (
            #[trigger] next.inodes[i].block_at(k)) == s.inodes[i].block_at(k) by {}
            assert forall|i: u64| next.inodes.contains_key(i) implies inode_owns(
                #[trigger] next.inodes[i],
                next.block_bits,
            ) by {
                assert(inode_owns(s.inodes[i], s.block_bits));
            }
            assert forall|i: u64, j: u64, k: int, l: int|
                i != j && next.inodes.contains_key(i) && next.inodes.contains_key(j) && (
                #[trigger] next.inodes[i].block_at(k)) is Some && (#[trigger] next.inodes[j].block_at(
                    l,
                )) is Some implies next.inodes[i].block_at(k) != next.inodes[j].block_at(l) by {
                assert(s.inodes[i].block_at(k) != s.inodes[j].block_at(l));
            }
        },
    }
}

proof fn lemma_mapped_in_full(inode: INode, start: int, end: int)
    requires
        start <= end,
        forall|k: int| start <= k < end ==> (#[trigger] inode.block_at(k)) is Some,
    ensures
        mapped_blocks(inode, start, end).len() == end - start,
        forall|j: int|
            0 <= j < end - start ==> #[trigger] mapped_blocks(inode, start, end)[j] == inode.block_at(
                start + j,
            )->Some_0,
    decreases end - start,
{
    if end > start {
        lemma_mapped_in_full(inode, start, end - 1);
        assert(inode.block_at(end - 1) is Some);
    }
}

proof fn lemma_steps_elsewhere(
    disk: Map<u32, Seq<u8>>,
    steps: Seq<WriteStep>,
    data: Seq<u8>,
    block_size: int,
    block: u32,
)
    requires
        forall|j: int| 0 <= j < steps.len() ==> (#[trigger] steps[j]).block != block,
    ensures
        read_of(after_steps(disk, steps, data, block_size), block) == read_of(disk, block),
    decreases steps.len(),
{
    if steps.len() > 0 {
        let front = steps.drop_last();
        assert forall|j: int| 0 <= j < front.len() implies (#[trigger] front[j]).block != block by {
            assert(front[j] == steps[j]);
        }
        lemma_steps_elsewhere(disk, front, data, block_size, block);
        assert(steps[steps.len() - 1].block != block);
    }
}

proof fn lemma_steps_written(
    disk: Map<u32, Seq<u8>>,
    steps: Seq<WriteStep>,
    data: Seq<u8>,
    block_size: int,
    j: int,
)
    requires
        0 <= j < steps.len(),
        forall|a: int, b: int|
            0 <= a < b < steps.len() ==> (#[trigger] steps[a]).block != (#[trigger] steps[b]).block,
    ensures
        read_of(after_steps(disk, steps, data, block_size), steps[j].block) == Some(
            spliced(
                current_block(read_of(disk, steps[j].block), block_size),
                steps[j].block_offset as int,
                data.subrange(steps[j].data_start as int, steps[j].data_start + steps[j].len),
            ),
        ),
    decreases steps.len(),
{
    let front = steps.drop_last();
    let last = steps.last();
    if j == steps.len() - 1 {
        assert forall|a: int| 0 <= a < front.len() implies (#[trigger] front[a]).block
            != last.block by {
            assert(front[a] == steps[a]);
            assert(steps[a].block != steps[steps.len() - 1].block);
        }
        lemma_steps_elsewhere(disk, front, data, block_size, last.block);
    } else {
        assert forall|a: int, b: int| 0 <= a < b < front.len() implies (#[trigger] front[a]).block
            != (#[trigger] front[b]).block by {
            assert(front[a] == steps[a] && front[b] == steps[b]);
        }
        lemma_steps_written(disk, front, data, block_size, j);
        assert(front[j] == steps[j]);
        assert(steps[j].block != steps[steps.len() - 1].block);
    }
}

proof fn lemma_concat_full(blocks: Seq<Option<Seq<u8>>>, block_size: int, j: int, i: int)
    requires
        0 < block_size,
        forall|k: int|
            0 <= k < blocks.len() ==> (#[trigger] blocks[k]) is Some && blocks[k]->Some_0.len()
                == block_size,
        0 <= j < blocks.len(),
        0 <= i < block_size,
    ensures
        concat_present(blocks).len() == blocks.len() * block_size,
        0 <= j * block_size + i < concat_present(blocks).len(),
        concat_present(blocks)[j * block_size + i] == blocks[j]->Some_0[i],
    decreases blocks.len(),
{
    let front = blocks.drop_last();
    let n = front.len() as int;
    assert forall|k: int| 0 <= k < front.len() implies (#[trigger] front[k]) is Some
        && front[k]->Some_0.len() == block_size by {
        assert(front[k] == blocks[k]);
    }
    assert(blocks[n] is Some);
    assert((n + 1) * block_size == n * block_size + block_size) by (nonlinear_arith);
    assert(0 <= j * block_size + i) by (nonlinear_arith)
        requires
            0 <= j,
            0 <= i,
            0 < block_size,
    ;
    if n > 0 {
        lemma_concat_full(front, block_size, if j < n { j } else { 0 }, i);
    } else {
        assert(concat_present(front).len() == 0);
        assert(n * block_size == 0) by (nonlinear_arith)
            requires
                n == 0,
        ;
    }
    if j < n {
        assert(front[j] == blocks[j]);
        assert(j * block_size + i < n * block_size) by (nonlinear_arith)
            requires
                0 <= j < n,
                0 <= i < block_size,
        ;
    }
}

/// Write, then read: where the blocks are owned, a write is laid out in
/// full, its steps are carried out on blocks of the block size and the
/// write is finished, a read of the same span answers with the data
/// written.
pub proof fn lemma_write_then_read(
    s: FsState,
    disk: Map<u32, Seq<u8>>,
    ino: u64,
    offset: u64,
    data: Seq<u8>,
    block_size: int,
    now: SystemTime,
)
    requires
        0 < block_size <= usize::MAX,
        s.block_bits.len() <= u32::MAX,
        superblock_reserved(s.block_bits),
        blocks_owned(s),
        data.len() <= u32::MAX,
        begin_write(s, ino, offset, data.len() as usize, block_size).1.refusal is None,
        forall|b: u32| disk.contains_key(b) ==> (#[trigger] disk[b]).len() == block_size,
    ensures
        ({
            let len = data.len() as usize;
            let (s1, plan) = begin_write(s, ino, offset, len, block_size);
            let s2 = finish_write(s1, ino, offset, len, true, now).0;
            let after = after_steps(disk, plan.steps, data, block_size);
            &&& read_plan(s2, ino, offset, len as u32, block_size) is Ok
            &&& read_reply(
                fetched(after, read_plan(s2, ino, offset, len as u32, block_size)->Ok_0),
                offset,
                len as u32,
                block_size,
            ) == data
        }),
{
    let len = data.len() as usize;
    let bs = block_size;
    let start = span_start(offset as int, bs);
    let end = span_end(offset as int, len as int, bs);
    let (s1, plan) = begin_write(s, ino, offset, len, bs);
    let a = allocate_span(s.inodes[ino], s.block_bits, start, end);
    let inode = a.inode;
    let s2 = finish_write(s1, ino, offset, len, true, now).0;
    let steps = plan.steps;
    let after = after_steps(disk, steps, data, bs);
    let from = offset as int % bs;
    assert(s2.inodes[ino].direct_blocks == inode.direct_blocks);
    lemma_span_keeps_links(s.inodes[ino], s.block_bits, start, end);
    vstd::arithmetic::div_mod::lemma_fundamental_div_mod(offset as int, bs);
    vstd::arithmetic::div_mod::lemma_fundamental_div_mod(offset + len + bs - 1, bs);
    vstd::arithmetic::div_mod::lemma_div_pos_is_pos(offset as int, bs);
    vstd::arithmetic::div_mod::lemma_div_is_ordered(offset as int, offset + len + bs - 1, bs);
    assert(bs * start == start * bs && bs * end == end * bs) by (nonlinear_arith);
    let n = end - start;
    assert(n * bs == end * bs - start * bs) by (nonlinear_arith)
        requires
            n == end - start,
    ;
    assert(from + len <= n * bs);
    if n == 0 {
        assert(len == 0);
        assert(mapped_blocks(s2.inodes[ino], start, end) =~= Seq::<u32>::empty());
        let got = fetched(after, Seq::<u32>::empty());
        assert(got =~= Seq::<Option<Seq<u8>>>::empty());
        assert(data =~= Seq::<u8>::empty());
    } else {
        assert forall|k: int| start <= k < end implies (#[trigger] s2.inodes[ino].block_at(k)) is Some by {
            lemma_span_mapped(s.inodes[ino], s.block_bits, start, end, k);
            assert(s2.inodes[ino].block_at(k) == inode.block_at(k));
        }
        lemma_span_mapped(s.inodes[ino], s.block_bits, start, end, start);
        lemma_mapped_in_full(s2.inodes[ino], start, end);
        let blocks = mapped_blocks(s2.inodes[ino], start, end);
        let got = fetched(after, blocks);
        assert(steps.len() == n);
        assert forall|j: int| 0 <= j < n implies blocks[j] == (#[trigger] steps[j]).block by {
            assert(steps[j] == write_step(inode, offset as int, len as int, bs, start + j));
            assert(s2.inodes[ino].block_at(start + j) == inode.block_at(start + j));
        }
        lemma_owned_write(s, ino, offset, len, bs);
        assert(inode_owns(s1.inodes[ino], s1.block_bits));
        assert forall|a: int, b: int| 0 <= a < b < steps.len() implies (#[trigger] steps[a]).block
            != (#[trigger] steps[b]).block by {
            assert(steps[a] == write_step(inode, offset as int, len as int, bs, start + a));
            assert(steps[b] == write_step(inode, offset as int, len as int, bs, start + b));
            assert(inode.block_at(start + a) is Some);
            assert(inode.block_at(start + b) is Some);
            assert(inode.block_at(start + a) != inode.block_at(start + b));
        }
        assert forall|j: int| 0 <= j < got.len() implies (#[trigger] got[j]) is Some
            && got[j]->Some_0.len() == bs by {
            lemma_steps_written(disk, steps, data, bs, j);
            lemma_step_fits(inode, offset as int, len as int, bs, j);
            assert(got[j] == read_of(after, blocks[j]));
            assert(blocks[j] == steps[j].block);
        }
        lemma_concat_full(got, bs, 0, 0);
        let all = concat_present(got);
        assert(all.len() == n * bs);
        let reply = read_reply(got, offset, len as u32, bs);
        assert(from < all.len()) by (nonlinear_arith)
            requires
                all.len() == n * bs,
                n >= 1,
                0 <= from < bs,
        ;
        assert(reply == all.subrange(from, from + len));
        assert forall|t: int| 0 <= t < len implies reply[t] == data[t] by {
            let p = from + t;
            let j = p / bs;
            let i = p % bs;
            vstd::arithmetic::div_mod::lemma_fundamental_div_mod(p, bs);
            vstd::arithmetic::div_mod::lemma_div_pos_is_pos(p, bs);
            assert(bs * j == j * bs) by (nonlinear_arith);
            assert(j < n) by (nonlinear_arith)
                requires
                    p < n * bs,
                    p == j * bs + i,
                    0 <= i,
                    0 < bs,
            ;
            lemma_concat_full(got, bs, j, i);
            assert(all[j * bs + i] == got[j]->Some_0[i]);
            lemma_steps_written(disk, steps, data, bs, j);
            lemma_step_fits(inode, offset as int, len as int, bs, j);
            assert(got[j] == read_of(after, blocks[j]));
            assert(blocks[j] == steps[j].block);
            let step = steps[j];
            assert(step == write_step(inode, offset as int, len as int, bs, start + j));
            assert((start + j) * bs == start * bs + j * bs) by (nonlinear_arith);
            let chunk = data.subrange(step.data_start as int, step.data_start + step.len);
            let cur = current_block(read_of(disk, step.block), bs);
            if j == 0 {
                assert(i == p);
            } else {
                assert(j * bs >= bs) by (nonlinear_arith)
                    requires
                        j >= 1,
                        0 < bs,
                ;
                assert(step.data_start == j * bs - from);
                assert(i == t - step.data_start);
            }
            assert(step.block_offset <= i < step.block_offset + step.len);
            assert(spliced(cur, step.block_offset as int, chunk)[i] == chunk[i - step.block_offset]);
        }
        assert(reply =~= data);
    }
}

/// A step of a write stays within its block and within the data.
proof fn lemma_step_fits(inode: INode, offset: int, len: int, block_size: int, j: int)
    requires
        0 < block_size,
        0 <= offset,
        0 <= len,
        0 <= j < span_end(offset, len, block_size) - span_start(offset, block_size),
        span_end(offset, len, block_size) <= 12,
        block_size <= usize::MAX,
        len <= usize::MAX,
    ensures
        ({
            let step = write_steps(inode, offset, len, block_size)[j];
            &&& step == write_step(
                inode,
                offset,
                len,
                block_size,
                span_start(offset, block_size) + j,
            )
            &&& 0 <= step.block_offset
            &&& step.block_offset + step.len <= block_size
            &&& step.data_start + step.len <= len
        }),
{
    let start = span_start(offset, block_size);
    vstd::arithmetic::div_mod::lemma_fundamental_div_mod(offset, block_size);
    vstd::arithmetic::div_mod::lemma_div_pos_is_pos(offset, block_size);
    assert(block_size * start == start * block_size) by (nonlinear_arith);
    assert((start + j) * block_size == start * block_size + j * block_size) by (nonlinear_arith);
    if j > 0 {
        assert(j * block_size >= block_size) by (nonlinear_arith)
            requires
                j >= 1,
                0 < block_size,
        ;
    }
}

/// Whether `entry` names a child directory: it is of type directory and is
/// neither `.` nor `..`.
pub open spec fn is_child_dir(entry: DirEntryView) -> bool {
    entry.file_type == FileType::Directory && entry.name != dot() && entry.name != dotdot()
}

/// Number of child directories that a directory list names.
pub open spec fn child_dirs(entries: Seq<DirEntryView>) -> int
    decreases entries.len(),
{
    if entries.len() == 0 {
        0
    } else {
        child_dirs(entries.drop_last()) + if is_child_dir(entries.last()) {
            1int
        } else {
            0int
        }
    }
}

/// Every directory inode has a list, and two links more than its list
/// names child directories.
pub open spec fn links_consistent(s: FsState) -> bool {
    forall|d: u64|
        #![trigger s.inodes[d]]
        s.inodes.contains_key(d) && s.inodes[d].file_type == FileType::Directory ==> {
            &&& s.directories.contains_key(d)
            &&& s.inodes[d].nlink == 2 + child_dirs(s.directories[d])
        }
}

proof fn lemma_child_dirs_push(entries: Seq<DirEntryView>, e: DirEntryView)
    ensures
        child_dirs(entries.push(e)) == child_dirs(entries) + if is_child_dir(e) {
            1int
        } else {
            0int
        },
        child_dirs(entries) >= 0,
    decreases entries.len(),
{
    assert(entries.push(e).drop_last() =~= entries);
    if entries.len() > 0 {
        lemma_child_dirs_push(entries.drop_last(), entries.last());
        assert(entries.drop_last().push(entries.last()) =~= entries);
    }
}

proof fn lemma_child_dirs_remove(entries: Seq<DirEntryView>, i: int)
    requires
        0 <= i < entries.len(),
    ensures
        child_dirs(entries.remove(i)) == child_dirs(entries) - if is_child_dir(entries[i]) {
            1int
        } else {
            0int
        },
    decreases entries.len(),
{
    if i == entries.len() - 1 {
        assert(entries.remove(i) =~= entries.drop_last());
    } else {
        let front = entries.drop_last();
        lemma_child_dirs_remove(front, i);
        assert(entries.remove(i) =~= front.remove(i).push(entries.last()));
        lemma_child_dirs_push(front.remove(i), entries.last());
    }
}

proof fn lemma_child_dirs_of_dots(ino: u64, parent: u64)
    ensures
        child_dirs(dot_entries(ino, parent)) == 0,
{
    let l = dot_entries(ino, parent);
    let none = Seq::<DirEntryView>::empty();
    assert(l =~= none.push(l[0]).push(l[1]));
    lemma_child_dirs_push(none, l[0]);
    lemma_child_dirs_push(none.push(l[0]), l[1]);
}

/// Link counts, fresh and restored: a fresh filesystem is consistent, and
/// a restored one is as consistent as what was saved.
pub proof fn lemma_links_initial(total_blocks: u32, total_inodes: u32, now: SystemTime, s: FsState)
    ensures
        links_consistent(initial_state(total_blocks, total_inodes, now)),
        links_consistent(restored(snapshot_of(s))) == links_consistent(s),
{
    lemma_child_dirs_of_dots(1, 1);
    let i = initial_state(total_blocks, total_inodes, now);
    assert(i.directories[1] == dot_entries(1, 1));
}

/// Link counts under `create`: a new file changes no directory's count.
pub proof fn lemma_links_create(
    s: FsState,
    parent: u64,
    name: Seq<char>,
    mode: u32,
    uid: u32,
    gid: u32,
    now: SystemTime,
)
    requires
        links_consistent(s),
    ensures
        links_consistent(create(s, parent, name, mode, uid, gid, now).0),
{
    let next = create(s, parent, name, mode, uid, gid, now).0;
    if entry_refusal(s, parent, name) is None {
        let ino = s.next_ino;
        let entry = DirEntryView { ino, name, file_type: FileType::RegularFile };
        lemma_child_dirs_push(entries_of(s.directories, parent), entry);
        assert forall|d: u64|
            #![trigger next.inodes[d]]
            next.inodes.contains_key(d) && next.inodes[d].file_type
                == FileType::Directory implies next.directories.contains_key(d)
            && next.inodes[d].nlink == 2 + child_dirs(next.directories[d]) by {
            assert(d != ino);
            assert(s.inodes.contains_key(d) && s.inodes[d] == next.inodes[d]);
        }
    }
}

/// Link counts under `mkdir`: the new directory starts with two links and
/// its parent gains the one that the new entry stands for. A directory made
/// under the name `.` or `..` is left out: an entry of such a name counts
/// as no child.
pub proof fn lemma_links_mkdir(
    s: FsState,
    parent: u64,
    name: Seq<char>,
    mode: u32,
    uid: u32,
    gid: u32,
    now: SystemTime,
)
    requires
        links_consistent(s),
        mkdir_in_range(s, parent, name),
        entry_refusal(s, parent, name) is None ==> name != dot() && name != dotdot(),
    ensures
        links_consistent(mkdir(s, parent, name, mode, uid, gid, now).0),
{
    let next = mkdir(s, parent, name, mode, uid, gid, now).0;
    if entry_refusal(s, parent, name) is None {
        let ino = s.next_ino;
        let entry = DirEntryView { ino, name, file_type: FileType::Directory };
        let dirs1 = s.directories.insert(ino, dot_entries(ino, parent));
        lemma_child_dirs_of_dots(ino, parent);
        lemma_child_dirs_push(entries_of(dirs1, parent), entry);
        assert forall|d: u64|
            #![trigger next.inodes[d]]
            next.inodes.contains_key(d) && next.inodes[d].file_type
                == FileType::Directory implies next.directories.contains_key(d)
            && next.inodes[d].nlink == 2 + child_dirs(next.directories[d]) by {
            if d == parent {
                if parent != ino {
                    assert(s.inodes[parent].file_type == FileType::Directory);
                    assert(s.directories.contains_key(parent));
                }
            } else if d == ino {
            } else {
                assert(s.inodes.contains_key(d) && s.inodes[d] == next.inodes[d]);
            }
        }
    }
}

/// Link counts under `rmdir`: the parent gives back the link of the entry
/// that leaves. A removal under the name `.` or `..` that leaves the parent
/// in the table is left out, as entries of these names count as no child.
pub proof fn lemma_links_rmdir(s: FsState, parent: u64, name: Seq<char>)
    requires
        links_consistent(s),
        rmdir_in_range(s, parent, name),
        rmdir(s, parent, name).1 is Ok && rmdir(s, parent, name).0.inodes.contains_key(parent)
            ==> name != dot() && name != dotdot(),
    ensures
        links_consistent(rmdir(s, parent, name).0),
{
    let next = rmdir(s, parent, name).0;
    lemma_find_named(entries_of(s.directories, parent), name, true);
    match find_named(entries_of(s.directories, parent), name, true) {
        None => {},
        Some(i) => {
            let t = s.directories[parent][i].ino;
            if !(s.directories.contains_key(t) && s.directories[t].len() > 2) {
                lemma_child_dirs_remove(s.directories[parent], i);
                assert forall|d: u64|
                    #![trigger next.inodes[d]]
                    next.inodes.contains_key(d) && next.inodes[d].file_type
                        == FileType::Directory implies next.directories.contains_key(d)
                    && next.inodes[d].nlink == 2 + child_dirs(next.directories[d]) by {
                    assert(d != t);
                    assert(s.inodes.contains_key(d));
                    assert(s.inodes[d].file_type == FileType::Directory);
                    if d == parent {
                        assert(is_child_dir(s.directories[parent][i]));
                    }
                }
            }
        },
    }
}

/// Link counts under `unlink`: consistent where the entry that leaves
/// names no child directory and its inode is no directory. An entry that
/// names a directory is left out: `unlink` takes no link from the parent.
pub proof fn lemma_links_unlink(s: FsState, parent: u64, name: Seq<char>)
    requires
        links_consistent(s),
        unlink_in_range(s, parent, name),
        find_named(entries_of(s.directories, parent), name, false) matches Some(i) ==> {
            let e = entries_of(s.directories, parent)[i];
            &&& s.inodes.contains_key(parent) && s.inodes[parent].file_type == FileType::Directory
                ==> !is_child_dir(e)
            &&& s.inodes.contains_key(e.ino) ==> s.inodes[e.ino].file_type != FileType::Directory
        },
    ensures
        links_consistent(unlink(s, parent, name).0),
{
    let next = unlink(s, parent, name).0;
    lemma_find_named(entries_of(s.directories, parent), name, false);
    match find_named(entries_of(s.directories, parent), name, false) {
        None => {},
        Some(i) => {
            let t = s.directories[parent][i].ino;
            lemma_child_dirs_remove(s.directories[parent], i);
            assert forall|d: u64|
                #![trigger next.inodes[d]]
                next.inodes.contains_key(d) && next.inodes[d].file_type
                    == FileType::Directory implies next.directories.contains_key(d)
                && next.inodes[d].nlink == 2 + child_dirs(next.directories[d]) by {
                assert(s.inodes.contains_key(d));
                if d == t {
                } else {
                    assert(s.inodes[d] == next.inodes[d]);
                }
            }
        },
    }
}

/// Link counts under `rename`: consistent where the entry names no child
/// directory before or after, or stays in its directory and names a child
/// directory before and after. A directory that moves to another parent is
/// left out: `rename` moves no link with it.
pub proof fn lemma_links_rename(
    s: FsState,
    parent: u64,
    name: Seq<char>,
    newparent: u64,
    newname: Seq<char>,
)
    requires
        links_consistent(s),
        find_named(entries_of(s.directories, parent), name, false) matches Some(i) ==> {
            let e = entries_of(s.directories, parent)[i];
            let moved = DirEntryView { name: newname, ..e };
            ||| !is_child_dir(e) && !is_child_dir(moved)
            ||| parent == newparent && is_child_dir(e) && is_child_dir(moved)
        },
    ensures
        links_consistent(rename(s, parent, name, newparent, newname).0),
{
    let next = rename(s, parent, name, newparent, newname).0;
    lemma_find_named(entries_of(s.directories, parent), name, false);
    match find_named(entries_of(s.directories, parent), name, false) {
        None => {},
        Some(i) => {
            let e = s.directories[parent][i];
            let moved = DirEntryView { name: newname, ..e };
            let dirs1 = s.directories.insert(parent, s.directories[parent].remove(i));
            lemma_child_dirs_remove(s.directories[parent], i);
            lemma_child_dirs_push(entries_of(dirs1, newparent), moved);
            assert forall|d: u64|
                #![trigger next.inodes[d]]
                next.inodes.contains_key(d) && next.inodes[d].file_type
                    == FileType::Directory implies next.directories.contains_key(d)
                && next.inodes[d].nlink == 2 + child_dirs(next.directories[d]) by {
                assert(s.inodes.contains_key(d));
                assert(s.directories.contains_key(d));
            }
        },
    }
}

proof fn lemma_span_keeps_links(inode: INode, bits: Seq<bool>, index: int, end: int)
    ensures
        allocate_span(inode, bits, index, end).inode.nlink == inode.nlink,
        allocate_span(inode, bits, index, end).inode.file_type == inode.file_type,
    decreases end - index,
{
    if index >= end {
    } else if inode.block_at(index) is Some {
        lemma_span_keeps_links(inode, bits, index + 1, end);
    } else if index >= 12 {
    } else {
        match lowest_clear(bits) {
            None => {},
            Some(b) => {
                lemma_span_keeps_links(
                    inode.with_block(index, b as u32),
                    bits.update(b, true),
                    index + 1,
                    end,
                );
            },
        }
    }
}

/// Link counts under `write`: neither half of a write changes them.
pub proof fn lemma_links_write(
    s: FsState,
    ino: u64,
    offset: u64,
    len: usize,
    block_size: int,
    stored: bool,
    now: SystemTime,
)
    requires
        links_consistent(s),
    ensures
        links_consistent(begin_write(s, ino, offset, len, block_size).0),
        links_consistent(finish_write(s, ino, offset, len, stored, now).0),
{
    let a = begin_write(s, ino, offset, len, block_size).0;
    let b = finish_write(s, ino, offset, len, stored, now).0;
    if s.inodes.contains_key(ino) {
        lemma_span_keeps_links(
            s.inodes[ino],
            s.block_bits,
            crate::model::span_start(offset as int, block_size),
            crate::model::span_end(offset as int, len as int, block_size),
        );
    }
    assert forall|d: u64|
        #![trigger a.inodes[d]]
        a.inodes.contains_key(d) && a.inodes[d].file_type
            == FileType::Directory implies a.directories.contains_key(d) && a.inodes[d].nlink == 2
        + child_dirs(a.directories[d]) by {
        assert(s.inodes.contains_key(d));
        assert(s.inodes[d].file_type == FileType::Directory);
    }
    assert forall|d: u64|
        #![trigger b.inodes[d]]
        b.inodes.contains_key(d) && b.inodes[d].file_type
            == FileType::Directory implies b.directories.contains_key(d) && b.inodes[d].nlink == 2
        + child_dirs(b.directories[d]) by {
        assert(s.inodes.contains_key(d));
        assert(s.inodes[d].file_type == FileType::Directory);
    }
}

} // verus!
