//! A compact bit array that tracks which blocks or inodes are in use.
//!
//! A set bit means "allocated". The bitmap is modelled as a `Seq<bool>` with
//! one entry for each tracked index; the packed bytes are the persistent
//! form.

use vstd::prelude::*;

verus! {

/// Whether bit `k` (counted from the least significant) is set in `byte`.
pub open spec fn bit_set(byte: u8, k: u8) -> bool {
    byte & (1u8 << k) != 0
}

/// Number of bytes that hold `size` bits.
pub open spec fn bytes_for(size: int) -> int {
    (size + 7) / 8
}

/// The bits that `bytes` hold for the indices below `size`, least
/// significant bit of each byte first.
pub open spec fn unpack(bytes: Seq<u8>, size: nat) -> Seq<bool> {
    Seq::new(size, |i: int| bit_set(bytes[i / 8], (i % 8) as u8))
}

/// `i` is a clear bit of `bits` and every bit below it is set.
pub open spec fn is_lowest_clear(bits: Seq<bool>, i: int) -> bool {
    &&& 0 <= i < bits.len()
    &&& !bits[i]
    &&& forall|j: int| 0 <= j < i ==> bits[j]
}

/// Every bit of `bits` is set.
pub open spec fn all_set(bits: Seq<bool>) -> bool {
    forall|j: int| 0 <= j < bits.len() ==> bits[j]
}

/// The lowest clear index of `bits`, if it has a clear bit.
pub open spec fn lowest_clear(bits: Seq<bool>) -> Option<int> {
    if exists|i: int| is_lowest_clear(bits, i) {
        Some(choose|i: int| is_lowest_clear(bits, i))
    } else {
        None
    }
}

/// `bits` after allocation: the lowest clear bit, if any, becomes set.
pub open spec fn after_allocate(bits: Seq<bool>) -> Seq<bool> {
    match lowest_clear(bits) {
        Some(i) => bits.update(i, true),
        None => bits,
    }
}

/// `bits` after deallocating `index`: index 0 and indices past the end are
/// left alone.
pub open spec fn after_deallocate(bits: Seq<bool>, index: int) -> Seq<bool> {
    if 0 < index < bits.len() {
        bits.update(index, false)
    } else {
        bits
    }
}

/// The bytes a bitmap of `size` bits is rebuilt from: `data` cut or padded
/// with `0xFF` to the needed length.
pub open spec fn normalized_bytes(data: Seq<u8>, size: nat) -> Seq<u8> {
    Seq::new(
        bytes_for(size as int) as nat,
        |i: int|
            if i < data.len() {
                data[i]
            } else {
                0xFFu8
            },
    )
}

proof fn lemma_set_bit(b: u8, k: u8, j: u8)
    requires
        k < 8,
        j < 8,
    ensures
        bit_set(b | (1u8 << k), j) == (j == k || bit_set(b, j)),
{
    assert((b | (1u8 << k)) & (1u8 << j) != 0 <==> (j == k || b & (1u8 << j) != 0)) by (bit_vector)
        requires
            k < 8,
            j < 8,
    ;
}

proof fn lemma_clear_bit(b: u8, k: u8, j: u8)
    requires
        k < 8,
        j < 8,
    ensures
        bit_set(b & !(1u8 << k), j) == (j != k && bit_set(b, j)),
{
    assert((b & !(1u8 << k)) & (1u8 << j) != 0 <==> (j != k && b & (1u8 << j) != 0))
        by (bit_vector)
        requires
            k < 8,
            j < 8,
    ;
}

/// A clear bit exists exactly when a lowest clear bit does, and the lowest
/// one is unique.
pub proof fn lemma_lowest_clear(bits: Seq<bool>)
    ensures
        lowest_clear(bits) is None <==> all_set(bits),
        forall|i: int| is_lowest_clear(bits, i) ==> lowest_clear(bits) == Some(i),
        lowest_clear(bits) matches Some(i) ==> is_lowest_clear(bits, i),
{
    if !all_set(bits) {
        let c = choose|c: int| 0 <= c < bits.len() && !bits[c];
        lemma_has_lowest(bits, c);
    }
    assert forall|i: int| is_lowest_clear(bits, i) implies lowest_clear(bits) == Some(i) by {
        let w = choose|w: int| is_lowest_clear(bits, w);
        if w < i {
            assert(bits[w]);
        }
        if i < w {
            assert(bits[i]);
        }
    }
}

proof fn lemma_has_lowest(bits: Seq<bool>, c: int)
    requires
        0 <= c < bits.len(),
        !bits[c],
    ensures
        exists|i: int| is_lowest_clear(bits, i),
    decreases c,
{
    if forall|j: int| 0 <= j < c ==> bits[j] {
        assert(is_lowest_clear(bits, c));
    } else {
        let d = choose|d: int| 0 <= d < c && !bits[d];
        lemma_has_lowest(bits, d);
    }
}

/// `bits` after the indices of `indices` were deallocated one after the
/// other.
pub open spec fn after_deallocate_all(bits: Seq<bool>, indices: Seq<int>) -> Seq<bool>
    decreases indices.len(),
{
    if indices.len() == 0 {
        bits
    } else {
        after_deallocate(after_deallocate_all(bits, indices.drop_last()), indices.last())
    }
}

/// The indices that `n` allocations in a row hand out, starting from
/// `bits`.
pub open spec fn allocated_by(bits: Seq<bool>, n: nat) -> Set<int>
    decreases n,
{
    if n == 0 {
        Set::empty()
    } else {
        match lowest_clear(bits) {
            Some(i) => allocated_by(after_allocate(bits), (n - 1) as nat).insert(i),
            None => Set::empty(),
        }
    }
}

proof fn lemma_after_deallocate_all(bits: Seq<bool>, indices: Seq<int>)
    ensures
        after_deallocate_all(bits, indices).len() == bits.len(),
        forall|j: int|
            0 <= j < bits.len() ==> #[trigger] after_deallocate_all(bits, indices)[j] == (bits[j]
                && !(j != 0 && indices.contains(j))),
    decreases indices.len(),
{
    if indices.len() > 0 {
        let front = indices.drop_last();
        lemma_after_deallocate_all(bits, front);
        assert forall|j: int| 0 <= j < bits.len() implies #[trigger] after_deallocate_all(
            bits,
            indices,
        )[j] == (bits[j] && !(j != 0 && indices.contains(j))) by {
            if indices.contains(j) {
                let k = choose|k: int| 0 <= k < indices.len() && indices[k] == j;
                if k < indices.len() - 1 {
                    assert(front[k] == j);
                }
            }
            if front.contains(j) {
                let k = choose|k: int| 0 <= k < front.len() && front[k] == j;
                assert(indices[k] == j);
            }
            if indices.last() == j {
                assert(indices[indices.len() - 1] == j);
            }
        }
    }
}

proof fn lemma_allocated_by(bits: Seq<bool>, wanted: Set<int>)
    requires
        wanted.finite(),
        forall|i: int| wanted.contains(i) ==> 0 <= i < bits.len() && !bits[i],
        forall|i: int, j: int|
            wanted.contains(i) && 0 <= j < bits.len() && !bits[j] && !wanted.contains(j) ==> i < j,
    ensures
        allocated_by(bits, wanted.len()) == wanted,
    decreases wanted.len(),
{
    broadcast use vstd::set::group_set_axioms;

    if wanted.len() == 0 {
        assert(wanted =~= Set::<int>::empty());
    } else {
        let w = wanted.choose();
        assert(wanted.contains(w));
        assert(!all_set(bits));
        lemma_lowest_clear(bits);
        let m = lowest_clear(bits)->Some_0;
        assert(is_lowest_clear(bits, m));
        if !wanted.contains(m) {
            assert(w < m);
            assert(bits[w]);
        }
        let rest = wanted.remove(m);
        let next = bits.update(m, true);
        assert(after_allocate(bits) == next);
        lemma_allocated_by(next, rest);
        assert(rest.insert(m) =~= wanted);
    }
}

/// Allocation after release: where a set of indices is deallocated and as
/// many allocations follow, the allocations hand out exactly that set.
/// This holds where the indices lie within the bitmap, index 0 is among
/// them only if it was free already, and no other free index lies below
/// one of them.
pub proof fn lemma_release_then_allocate(bits: Seq<bool>, indices: Seq<int>)
    requires
        indices.no_duplicates(),
        forall|k: int|
            0 <= k < indices.len() ==> 0 <= #[trigger] indices[k] < bits.len() && (indices[k] == 0
                ==> !bits[0]),
        forall|k: int, j: int|
            0 <= k < indices.len() && 0 <= j < bits.len() && !#[trigger] bits[j]
                && !indices.contains(j) ==> #[trigger] indices[k] < j,
    ensures
        allocated_by(after_deallocate_all(bits, indices), indices.len()) == indices.to_set(),
{
    broadcast use vstd::seq_lib::seq_to_set_is_finite;

    let freed = after_deallocate_all(bits, indices);
    let wanted = indices.to_set();
    lemma_after_deallocate_all(bits, indices);
    indices.unique_seq_to_set();
    assert forall|i: int| wanted.contains(i) implies 0 <= i < freed.len() && !freed[i] by {
        let k = choose|k: int| 0 <= k < indices.len() && indices[k] == i;
        assert(0 <= indices[k] < bits.len());
    }
    assert forall|i: int, j: int|
        wanted.contains(i) && 0 <= j < freed.len() && !freed[j] && !wanted.contains(
            j,
        ) implies i < j by {
        let k = choose|k: int| 0 <= k < indices.len() && indices[k] == i;
        assert(indices[k] < j);
    }
    lemma_allocated_by(freed, wanted);
}

pub struct Bitmap {
    bits: Vec<u8>,
    size: usize,
}

impl View for Bitmap {
    type V = Seq<bool>;

    /// One boolean for each tracked index: `true` means allocated.
    closed spec fn view(&self) -> Seq<bool> {
        unpack(self.bits@, self.size as nat)
    }
}

impl Clone for Bitmap {
    fn clone(&self) -> (r: Self)
        ensures
            r@ == self@,
            r.bytes() == self.bytes(),
    {
        proof {
            use_type_invariant(self);
        }
        let bits = self.bits.clone();
        assert(bits@ =~= self.bits@);
        Bitmap { bits, size: self.size }
    }
}

impl Bitmap {
    #[verifier::type_invariant]
    spec fn inv(self) -> bool {
        self.bits@.len() == bytes_for(self.size as int)
    }

    /// The packed bytes behind the bitmap.
    pub closed spec fn bytes(&self) -> Seq<u8> {
        self.bits@
    }

    /// A bitmap of `size` bits, all clear.
    pub fn new(size: usize) -> (r: Self)
        ensures
            r@ == Seq::new(size as nat, |i: int| false),
            r.bytes() == Seq::new(bytes_for(size as int) as nat, |i: int| 0u8),
    {
        let byte_size: usize = size / 8 + (if size % 8 == 0 { 0 } else { 1 });
        let bits: Vec<u8> = vec![0x00u8; byte_size];
        let r = Bitmap { bits, size };
        proof {
            assert forall|i: int| 0 <= i < size implies !bit_set(
                #[trigger] r.bits@[i / 8],
                (i % 8) as u8,
            ) by {
                let k = (i % 8) as u8;
                assert(0u8 & (1u8 << k) == 0) by (bit_vector);
            }
            assert(r@ =~= Seq::new(size as nat, |i: int| false));
            assert(r.bytes() =~= Seq::new(bytes_for(size as int) as nat, |i: int| 0u8));
        }
        r
    }

    /// Number of indices the bitmap tracks.
    pub fn size(&self) -> (r: usize)
        ensures
            r == self@.len(),
    {
        self.size
    }

    /// Whether bit `index` is set; an index past the end reads as clear.
    pub fn is_set(&self, index: usize) -> (r: bool)
        ensures
            r == (index < self@.len() && self@[index as int]),
    {
        proof {
            use_type_invariant(self);
        }
        if index >= self.size {
            return false;
        }
        let byte_idx: usize = index / 8;
        let bit_idx: u8 = (index % 8) as u8;
        (self.bits[byte_idx] & (1u8 << bit_idx)) != 0
    }

    /// Sets bit `index`; an index past the end changes nothing.
    pub fn set(&mut self, index: usize)
        ensures
            final(self)@ == if index < old(self)@.len() {
                old(self)@.update(index as int, true)
            } else {
                old(self)@
            },
    {
        proof {
            use_type_invariant(&*self);
        }
        if index >= self.size {
            return ;
        }
        let byte_idx: usize = index / 8;
        let bit_idx: u8 = (index % 8) as u8;
        let byte: u8 = self.bits[byte_idx];
        self.bits[byte_idx] = byte | (1u8 << bit_idx);
        proof {
            assert forall|i: int| 0 <= i < self.size implies self@[i] == old(self)@.update(
                index as int,
                true,
            )[i] by {
                if i / 8 == byte_idx as int {
                    lemma_set_bit(byte, bit_idx, (i % 8) as u8);
                }
            }
            assert(self@ =~= old(self)@.update(index as int, true));
        }
    }

    /// Clears bit `index`; an index past the end changes nothing.
    pub fn clear(&mut self, index: usize)
        ensures
            final(self)@ == if index < old(self)@.len() {
                old(self)@.update(index as int, false)
            } else {
                old(self)@
            },
    {
        proof {
            use_type_invariant(&*self);
        }
        if index >= self.size {
            return ;
        }
        let byte_idx: usize = index / 8;
        let bit_idx: u8 = (index % 8) as u8;
        let byte: u8 = self.bits[byte_idx];
        self.bits[byte_idx] = byte & !(1u8 << bit_idx);
        proof {
            assert forall|i: int| 0 <= i < self.size implies self@[i] == old(self)@.update(
                index as int,
                false,
            )[i] by {
                if i / 8 == byte_idx as int {
                    lemma_clear_bit(byte, bit_idx, (i % 8) as u8);
                }
            }
            assert(self@ =~= old(self)@.update(index as int, false));
        }
    }

    /// Allocates the lowest clear bit and returns its index, or `None` when
    /// every bit is set.
    pub fn allocate(&mut self) -> (r: Option<usize>)
        ensures
            match r {
                Some(i) => lowest_clear(old(self)@) == Some(i as int),
                None => lowest_clear(old(self)@) is None,
            },
            final(self)@ == after_allocate(old(self)@),
    {
        let mut i: usize = 0;
        while i < self.size
            invariant
                i <= self.size,
                self.size == self@.len(),
                *self == *old(self),
                forall|j: int| 0 <= j < i ==> self@[j],
            decreases self.size - i,
        {
            if !self.is_set(i) {
                proof {
                    assert(is_lowest_clear(self@, i as int));
                    lemma_lowest_clear(self@);
                }
                self.set(i);
                return Some(i);
            }
            i += 1;
        }
        proof {
            assert(all_set(self@));
            lemma_lowest_clear(self@);
        }
        None
    }

    /// Clears bit `index`, except that index 0 is never released.
    pub fn deallocate(&mut self, index: usize)
        ensures
            final(self)@ == after_deallocate(old(self)@, index as int),
    {
        if index != 0 {
            self.clear(index);
        }
    }

    /// The packed bytes, eight indices to a byte, lowest index in the least
    /// significant bit.
    pub fn as_bytes(&self) -> (r: &[u8])
        ensures
            r@ == self.bytes(),
            r@.len() == bytes_for(self@.len() as int),
            self@ == unpack(r@, self@.len()),
    {
        proof {
            use_type_invariant(self);
        }
        self.bits.as_slice()
    }

    /// Rebuilds a bitmap of `size` bits from packed bytes. Surplus bytes are
    /// dropped and missing ones read as `0xFF`.
    pub fn from_bytes(data: &[u8], size: usize) -> (r: Self)
        ensures
            r.bytes() == normalized_bytes(data@, size as nat),
            r@ == unpack(normalized_bytes(data@, size as nat), size as nat),
            data@.len() == bytes_for(size as int) ==> r.bytes() == data@,
    {
        let required: usize = size / 8 + (if size % 8 == 0 { 0 } else { 1 });
        let mut bits: Vec<u8> = Vec::new();
        let mut i: usize = 0;
        while i < required
            invariant
                i <= required,
                required == bytes_for(size as int),
                bits@ == normalized_bytes(data@, size as nat).subrange(0, i as int),
            decreases required - i,
        {
            let b: u8 = if i < data.len() { data[i] } else { 0xFFu8 };
            bits.push(b);
            i += 1;
            assert(bits@ =~= normalized_bytes(data@, size as nat).subrange(0, i as int));
        }
        assert(bits@ =~= normalized_bytes(data@, size as nat));
        assert(data@.len() == bytes_for(size as int) ==> normalized_bytes(data@, size as nat)
            =~= data@);
        Bitmap { bits, size }
    }
}

} // verus!
