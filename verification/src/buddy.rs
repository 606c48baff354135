//! The kernel heap's buddy allocator: a run of blocks that tiles the heap,
//! each free or used, split in halves to fit requests and merged back when
//! two neighbours of one size are both free.
use vstd::prelude::*;
use vstd::arithmetic::power2::{pow2, lemma_pow2_unfold, lemma_pow2_pos, lemma2_to64};
use crate::addr::{is_pow2, VirtAddr};

verus! {

/// The size of a block's header, in bytes.
pub const BLOCK_HEADER_SIZE: usize = 16;

/// The heap size that the allocator starts with, before rounding.
pub const INIT_HEAP_SIZE: usize = 524288;

/// The largest power of two that is at most `size`, or 0 when `size` is 0.
pub fn align_down_to_power_of_2(size: usize) -> (r: usize)
    requires
        size <= usize::MAX / 2 + 1,
    ensures
        size == 0 ==> r == 0,
        size >= 1 ==> is_pow2(r as int) && r <= size && size < 2 * r,
{
    let mut results: usize = 1;
    let ghost mut k: nat = 0;
    proof {
        lemma2_to64();
        assert(pow2(0) == 1);
    }
    while size > results
        invariant
            results == pow2(k),
            k < usize::BITS,
            size <= usize::MAX / 2 + 1,
            size >= 1 ==> results / 2 < size,
            size == 0 ==> k == 0,
        decreases usize::BITS - k,
    {
        proof {
            lemma_pow2_unfold(k + 1);
            lemma_pow2_pos(k);
            assert(usize::BITS == 32 || usize::BITS == 64);
            if k + 1 >= usize::BITS {
                lemma_pow2_at_bits(k);
                assert(false);
            }
        }
        results = results * 2;
        proof {
            k = k + 1;
        }
    }
    if results != size {
        proof {
            if size >= 1 {
                assert(k >= 1) by {
                    if k == 0 {
                        assert(results == 1);
                    }
                }
                lemma_pow2_unfold(k);
            }
        }
        results = results / 2;
        proof {
            if size >= 1 {
                assert(pow2((k - 1) as nat) == results);
                assert(is_pow2(results as int));
            }
        }
    } else {
        proof {
            assert(is_pow2(results as int));
        }
    }
    results
}

proof fn lemma_pow2_at_bits(k: nat)
    requires
        k + 1 >= usize::BITS,
        k < usize::BITS,
    ensures
        pow2(k) == usize::MAX / 2 + 1,
{
    lemma2_to64();
    vstd::arithmetic::power2::lemma2_to64_rest();
    assert(usize::BITS == 32 || usize::BITS == 64);
    if usize::BITS == 32 {
        assert(k == 31);
        assert(usize::MAX == 0xffff_ffff);
    } else {
        assert(k == 63);
        assert(usize::MAX == 0xffff_ffff_ffff_ffff);
    }
}

} // verus!

verus! {

/// A block of the heap: its header says whether it is free and its size,
/// header included.
#[derive(Clone, Copy, Debug, PartialEq, Eq, Structural)]
pub struct Block {
    pub free: bool,
    pub size: usize,
}

/// The bytes that a run of blocks spans.
pub open spec fn total(s: Seq<Block>) -> int
    decreases s.len(),
{
    if s.len() == 0 {
        0
    } else {
        total(s.drop_last()) + s.last().size
    }
}

/// Where block `i` starts, counted from the start of the heap.
pub open spec fn offset(s: Seq<Block>, i: int) -> int {
    total(s.take(i))
}

/// A block that can be handed out or split: a power of two larger than its header.
pub open spec fn block_ok(b: Block) -> bool {
    is_pow2(b.size as int) && b.size > BLOCK_HEADER_SIZE
}

/// Every block of the run is well formed.
pub open spec fn blocks_ok(s: Seq<Block>) -> bool {
    forall|i: int| 0 <= i < s.len() ==> block_ok(#[trigger] s[i])
}

pub proof fn lemma_total_concat(a: Seq<Block>, b: Seq<Block>)
    ensures
        total(a + b) == total(a) + total(b),
    decreases b.len(),
{
    if b.len() == 0 {
        assert(a + b =~= a);
    } else {
        lemma_total_concat(a, b.drop_last());
        assert((a + b).drop_last() =~= a + b.drop_last());
    }
}

pub proof fn lemma_total_nonneg(s: Seq<Block>)
    ensures
        total(s) >= 0,
    decreases s.len(),
{
    if s.len() > 0 {
        lemma_total_nonneg(s.drop_last());
    }
}

pub proof fn lemma_total_single(b: Block)
    ensures
        total(seq![b]) == b.size,
{
    assert(seq![b].drop_last() =~= Seq::<Block>::empty());
    assert(total(Seq::<Block>::empty()) == 0);
    assert(seq![b].last() == b);
}

/// The total of a run split at `i` is the sum of the parts.
pub proof fn lemma_total_split(s: Seq<Block>, i: int)
    requires
        0 <= i <= s.len(),
    ensures
        total(s) == total(s.take(i)) + total(s.skip(i)),
{
    lemma_total_concat(s.take(i), s.skip(i));
    assert(s.take(i) + s.skip(i) =~= s);
}

/// A block lies within the run: its start plus its size is at most the total.
pub proof fn lemma_offset_bounds(s: Seq<Block>, i: int)
    requires
        0 <= i < s.len(),
    ensures
        offset(s, i) + s[i].size == offset(s, i + 1),
        offset(s, i + 1) <= total(s),
        0 <= offset(s, i),
{
    assert(s.take(i + 1).drop_last() =~= s.take(i));
    lemma_total_split(s, i + 1);
    lemma_total_nonneg(s.skip(i + 1));
    lemma_total_nonneg(s.take(i));
}

/// Replacing blocks `i..j` by a run of the same total keeps the total and
/// every offset before `i`.
pub proof fn lemma_replace_total(s: Seq<Block>, i: int, j: int, mid: Seq<Block>)
    requires
        0 <= i <= j <= s.len(),
        total(mid) == total(s.subrange(i, j)),
    ensures
        total(s.subrange(0, i) + mid + s.subrange(j, s.len() as int)) == total(s),
{
    let a = s.subrange(0, i);
    let c = s.subrange(j, s.len() as int);
    lemma_total_concat(a + mid, c);
    lemma_total_concat(a, mid);
    lemma_total_concat(a, s.subrange(i, j));
    lemma_total_concat(a + s.subrange(i, j), c);
    assert(a + s.subrange(i, j) + c =~= s);
}

/// Halving block `i`: two free blocks of half its size.
pub open spec fn divide_spec(s: Seq<Block>, i: int) -> Seq<Block> {
    let half = Block { free: true, size: (s[i].size / 2) as usize };
    s.subrange(0, i) + seq![half, half] + s.subrange(i + 1, s.len() as int)
}

/// Block `i` can be halved for a request of `size` bytes: its half still holds
/// the request and is larger than a header.
pub open spec fn can_halve(b: Block, size: int) -> bool {
    b.size / 2 >= size && b.size / 2 > BLOCK_HEADER_SIZE
}

/// Halving block `i` for as long as its half still fits a request of `size` bytes.
pub open spec fn split_spec(s: Seq<Block>, i: int, size: int) -> Seq<Block>
    decreases s[i].size,
{
    if 0 <= i < s.len() && can_halve(s[i], size) {
        split_spec(divide_spec(s, i), i, size)
    } else {
        s
    }
}

} // verus!

verus! {

proof fn lemma_half_pow2(x: int)
    requires
        is_pow2(x),
        x > 1,
    ensures
        is_pow2(x / 2),
        (x / 2) * 2 == x,
{
    let k = choose|k: nat| k < usize::BITS && #[trigger] pow2(k) == x;
    if k == 0 {
        lemma2_to64();
        assert(pow2(0) == 1);
    }
    lemma_pow2_unfold(k);
    assert(pow2((k - 1) as nat) == x / 2);
}

proof fn lemma_double_pow2(x: int)
    requires
        is_pow2(x),
        2 * x <= usize::MAX,
    ensures
        is_pow2(2 * x),
{
    let k = choose|k: nat| k < usize::BITS && #[trigger] pow2(k) == x;
    lemma_pow2_unfold(k + 1);
    if k + 1 >= usize::BITS {
        lemma_pow2_at_bits(k);
    }
    assert(pow2(k + 1) == 2 * x);
}

proof fn lemma_divide_ok(s: Seq<Block>, i: int)
    requires
        blocks_ok(s),
        0 <= i < s.len(),
        s[i].size / 2 > BLOCK_HEADER_SIZE,
    ensures
        blocks_ok(divide_spec(s, i)),
        total(divide_spec(s, i)) == total(s),
        divide_spec(s, i).len() == s.len() + 1,
        divide_spec(s, i)[i].size == s[i].size / 2,
        forall|k: int| 0 <= k < i ==> #[trigger] divide_spec(s, i)[k] == s[k],
{
    let half = Block { free: true, size: (s[i].size / 2) as usize };
    assert(block_ok(s[i]));
    lemma_half_pow2(s[i].size as int);
    let mid = seq![half, half];
    assert(mid.drop_last() =~= seq![half]);
    lemma_total_single(half);
    assert(s.subrange(i, i + 1) =~= seq![s[i]]);
    lemma_total_single(s[i]);
    lemma_replace_total(s, i, i + 1, mid);
    let t = divide_spec(s, i);
    assert forall|k: int| 0 <= k < t.len() implies block_ok(#[trigger] t[k]) by {
        if k < i {
            assert(t[k] == s[k]);
        } else if k < i + 2 {
            assert(t[k] == half);
        } else {
            assert(t[k] == s[k - 1]);
        }
    }
}

/// The bytes that the heap spans.
pub open spec fn heap_len(s: Seq<Block>) -> int {
    total(s)
}

/// The heap: consecutive blocks starting at `heap_start`.
pub struct BuddyAllocator {
    pub heap_start: VirtAddr,
    pub heap_len: usize,
    pub blocks: Vec<Block>,
}

impl BuddyAllocator {
    /// The blocks tile the heap, every block is a power of two larger than a
    /// header, and the heap ends inside the address space.
    pub open spec fn wf(&self) -> bool {
        &&& self.blocks@.len() >= 1
        &&& blocks_ok(self.blocks@)
        &&& self.heap_len == total(self.blocks@)
        &&& self.heap_start.0 + total(self.blocks@) <= usize::MAX
    }

    fn divide_at(&mut self, i: usize)
        requires
            old(self).wf(),
            0 <= i < old(self).blocks@.len(),
            old(self).blocks@[i as int].size / 2 > BLOCK_HEADER_SIZE,
        ensures
            final(self).wf(),
            final(self).heap_start == old(self).heap_start,
            final(self).blocks@ == divide_spec(old(self).blocks@, i as int),
    {
        let ghost s = self.blocks@;
        proof {
            lemma_divide_ok(s, i as int);
        }
        let n = self.blocks.len();
        assert(i + 1 <= n);
        let mut b = self.blocks[i];
        let buddy = b.divide();
        self.blocks.set(i, b);
        self.blocks.insert(i + 1, buddy);
        assert(self.blocks@ =~= divide_spec(s, i as int));
    }

    /// Halves block `i` while its half still holds `size` bytes and is larger
    /// than a header; returns the index of the last buddy split off, or `i`
    /// when the block already fits.
    pub fn spilt_to_fit(&mut self, i: usize, size: usize) -> (r: usize)
        requires
            old(self).wf(),
            0 <= i < old(self).blocks@.len(),
        ensures
            final(self).wf(),
            final(self).heap_start == old(self).heap_start,
            final(self).blocks@ == split_spec(old(self).blocks@, i as int, size as int),
            r == (if can_halve(old(self).blocks@[i as int], size as int) { i + 1 } else { i as int }),
    {
        let ghost s0 = self.blocks@;
        let mut did = false;
        while self.blocks[i].size / 2 >= size && self.blocks[i].size / 2 > BLOCK_HEADER_SIZE
            invariant
                self.wf(),
                self.heap_start == old(self).heap_start,
                0 <= i < self.blocks@.len(),
                split_spec(self.blocks@, i as int, size as int) == split_spec(s0, i as int, size as int),
                did ==> can_halve(s0[i as int], size as int),
                did ==> i + 1 < self.blocks.len(),
                !did ==> self.blocks@ == s0,
            decreases self.blocks@[i as int].size,
        {
            let ghost before = self.blocks@;
            self.divide_at(i);
            did = true;
            proof {
                lemma_divide_ok(before, i as int);
                assert(split_spec(before, i as int, size as int) == split_spec(divide_spec(before, i as int), i as int, size as int));
            }
        }
        if did {
            i + 1
        } else {
            i
        }
    }
}

impl Block {
    /// Halves this block, marking it free; returns its right buddy, free and of the same size.
    pub fn divide(&mut self) -> (buddy: Block)
        ensures
            final(self).free,
            final(self).size == old(self).size / 2,
            buddy == *final(self),
    {
        self.free = true;
        self.size = self.size / 2;
        Block { free: true, size: self.size }
    }

    /// The bytes after the header, as (offset from the block's start, length).
    pub fn data(&self) -> (r: (usize, usize))
        requires
            self.size >= BLOCK_HEADER_SIZE,
        ensures
            r == (BLOCK_HEADER_SIZE, (self.size - BLOCK_HEADER_SIZE) as usize),
    {
        (BLOCK_HEADER_SIZE, self.size - BLOCK_HEADER_SIZE)
    }
}

} // verus!

verus! {

/// Block `b` is free and holds `size` bytes.
pub open spec fn fits_b(b: Block, size: int) -> bool {
    b.free && b.size >= size
}

/// `i` is the best fit for `size` bytes: the last of the smallest free blocks that hold them.
pub open spec fn is_best_fit(s: Seq<Block>, size: int, i: int) -> bool {
    &&& 0 <= i < s.len()
    &&& fits_b(s[i], size)
    &&& forall|k: int| 0 <= k < s.len() && fits_b(#[trigger] s[k], size) ==> s[k].size >= s[i].size
    &&& forall|k: int| i < k < s.len() && fits_b(#[trigger] s[k], size) ==> s[k].size > s[i].size
}

pub open spec fn best_fit(s: Seq<Block>, size: int) -> int {
    choose|i: int| is_best_fit(s, size, i)
}

/// Finding a free block for `size` bytes: the block that is handed back and the
/// blocks after it was split to fit. A heap of a single block is split and
/// handed back whatever its state.
pub open spec fn find_spec(s: Seq<Block>, size: int) -> (Option<int>, Seq<Block>) {
    if s.len() == 1 {
        (Some(if can_halve(s[0], size) { 1int } else { 0int }), split_spec(s, 0, size))
    } else if exists|i: int| is_best_fit(s, size, i) {
        let i = best_fit(s, size);
        (Some(i), split_spec(s, i, size))
    } else {
        (None, s)
    }
}

proof fn lemma_best_fit_unique(s: Seq<Block>, size: int, i: int)
    requires
        is_best_fit(s, size, i),
    ensures
        best_fit(s, size) == i,
{
    let j = best_fit(s, size);
    assert(is_best_fit(s, size, j));
    assert(s[j].size >= s[i].size);
    assert(s[i].size >= s[j].size);
    if j < i {
        assert(s[i].size > s[j].size);
    } else if i < j {
        assert(s[j].size > s[i].size);
    }
}

proof fn lemma_split_ok(s: Seq<Block>, i: int, size: int)
    requires
        blocks_ok(s),
        0 <= i < s.len(),
    ensures
        blocks_ok(split_spec(s, i, size)),
        total(split_spec(s, i, size)) == total(s),
        split_spec(s, i, size).len() >= s.len(),
        can_halve(s[i], size) ==> split_spec(s, i, size).len() > s.len(),
        split_spec(s, i, size)[i].size <= s[i].size,
        fits_b(s[i], size) ==> fits_b(split_spec(s, i, size)[i], size),
        forall|k: int| 0 <= k < i ==> #[trigger] split_spec(s, i, size)[k] == s[k],
    decreases s[i].size,
{
    if can_halve(s[i], size) {
        lemma_divide_ok(s, i);
        let d = divide_spec(s, i);
        lemma_split_ok(d, i, size);
        assert forall|k: int| 0 <= k < i implies #[trigger] split_spec(s, i, size)[k] == s[k] by {
            assert(d[k] == s[k]);
        }
    }
}

impl BuddyAllocator {
    /// Finds a free block for `size` bytes, best fit, and splits it to fit;
    /// returns its index.
    pub fn find_free_block(&mut self, size: usize) -> (r: Option<usize>)
        requires
            old(self).wf(),
        ensures
            final(self).wf(),
            final(self).heap_start == old(self).heap_start,
            (match r { Some(i) => Some(i as int), None => None::<int> }, final(self).blocks@)
                == find_spec(old(self).blocks@, size as int),
            final(self).heap_len == old(self).heap_len,
            r matches Some(i) ==> i < final(self).blocks@.len(),
    {
        let ghost s = self.blocks@;
        let n = self.blocks.len();
        if n == 1 {
            proof {
                lemma_split_ok(s, 0, size as int);
            }
            let r = self.spilt_to_fit(0, size);
            return Some(r);
        }
        let mut best: Option<usize> = None;
        let mut i: usize = 0;
        while i < n
            invariant
                s == self.blocks@,
                n == s.len(),
                0 <= i <= n,
                best matches Some(b) ==> {
                    &&& b < i
                    &&& fits_b(s[b as int], size as int)
                    &&& forall|k: int| 0 <= k < i && fits_b(#[trigger] s[k], size as int) ==> s[k].size >= s[b as int].size
                    &&& forall|k: int| b < k < i && fits_b(#[trigger] s[k], size as int) ==> s[k].size > s[b as int].size
                },
                best is None ==> forall|k: int| 0 <= k < i ==> !fits_b(#[trigger] s[k], size as int),
            decreases n - i,
        {
            let b = self.blocks[i];
            if b.free && b.size >= size {
                let better = match best {
                    None => true,
                    Some(j) => self.blocks[j].size >= b.size,
                };
                if better {
                    best = Some(i);
                }
            }
            i = i + 1;
        }
        match best {
            Some(j) => {
                proof {
                    assert(is_best_fit(s, size as int, j as int));
                    lemma_best_fit_unique(s, size as int, j as int);
                    lemma_split_ok(s, j as int, size as int);
                }
                self.spilt_to_fit(j, size);
                Some(j)
            },
            None => {
                proof {
                    assert(!exists|k: int| is_best_fit(s, size as int, k));
                }
                None
            },
        }
    }
}

} // verus!

verus! {

/// Neighbours `i` and `i + 1` are free and of one size.
pub open spec fn mergeable(s: Seq<Block>, i: int) -> bool {
    s[i].free && s[i + 1].free && s[i].size == s[i + 1].size
}

/// Merging block `i` with its neighbour: one free block of twice the size.
pub open spec fn merge_spec(s: Seq<Block>, i: int) -> Seq<Block> {
    s.subrange(0, i).push(Block { free: true, size: (2 * s[i].size) as usize }) + s.subrange(i + 2, s.len() as int)
}

/// One coalescing pass from block `i` on: whether anything merged, and the blocks after.
pub open spec fn pass_spec(s: Seq<Block>, i: int) -> (bool, Seq<Block>)
    decreases s.len() - i,
{
    if i < 0 || i + 1 >= s.len() {
        (false, s)
    } else if mergeable(s, i) {
        (true, pass_spec(merge_spec(s, i), i).1)
    } else {
        pass_spec(s, i + 1)
    }
}

/// Coalescing passes until one merges nothing.
pub open spec fn full_spec(s: Seq<Block>) -> Seq<Block>
    decreases s.len(),
{
    let (c, t) = pass_spec(s, 0);
    if c {
        proof {
            lemma_pass_shrinks(s, 0);
        }
        full_spec(t)
    } else {
        s
    }
}

/// No two neighbouring blocks are free and of one size.
pub open spec fn fully_coalesced(s: Seq<Block>) -> bool {
    forall|i: int| 0 <= i < s.len() - 1 ==> !#[trigger] mergeable(s, i)
}

pub proof fn lemma_pass_shrinks(s: Seq<Block>, i: int)
    ensures
        pass_spec(s, i).1.len() <= s.len(),
        pass_spec(s, i).0 ==> pass_spec(s, i).1.len() < s.len(),
    decreases s.len() - i,
{
    if i < 0 || i + 1 >= s.len() {
    } else if mergeable(s, i) {
        lemma_pass_shrinks(merge_spec(s, i), i);
    } else {
        lemma_pass_shrinks(s, i + 1);
    }
}

proof fn lemma_pass_false(s: Seq<Block>, i: int)
    requires
        0 <= i,
        !pass_spec(s, i).0,
    ensures
        pass_spec(s, i).1 == s,
        forall|k: int| i <= k < s.len() - 1 ==> !#[trigger] mergeable(s, k),
    decreases s.len() - i,
{
    if i + 1 >= s.len() {
    } else {
        lemma_pass_false(s, i + 1);
    }
}

proof fn lemma_merge_ok(s: Seq<Block>, i: int)
    requires
        blocks_ok(s),
        0 <= i < s.len() - 1,
        mergeable(s, i),
        total(s) <= usize::MAX,
    ensures
        blocks_ok(merge_spec(s, i)),
        total(merge_spec(s, i)) == total(s),
        merge_spec(s, i).len() == s.len() - 1,
        2 * s[i].size <= usize::MAX,
{
    let m = Block { free: true, size: (2 * s[i].size) as usize };
    let two = s.subrange(i, i + 2);
    assert(two =~= seq![s[i], s[i + 1]]);
    assert(two.drop_last() =~= seq![s[i]]);
    lemma_total_single(s[i]);
    assert(total(two) == 2 * s[i].size);
    lemma_total_split(s, i);
    assert(s.skip(i) =~= two + s.subrange(i + 2, s.len() as int));
    lemma_total_concat(two, s.subrange(i + 2, s.len() as int));
    lemma_total_nonneg(s.take(i));
    lemma_total_nonneg(s.subrange(i + 2, s.len() as int));
    assert(2 * s[i].size <= usize::MAX);
    assert(block_ok(s[i]));
    lemma_double_pow2(s[i].size as int);
    lemma_total_single(m);
    lemma_replace_total(s, i, i + 2, seq![m]);
    assert(s.subrange(0, i) + seq![m] + s.subrange(i + 2, s.len() as int) =~= merge_spec(s, i));
    let t = merge_spec(s, i);
    assert forall|k: int| 0 <= k < t.len() implies block_ok(#[trigger] t[k]) by {
        if k < i {
            assert(t[k] == s[k]);
        } else if k == i {
            assert(t[k] == m);
        } else {
            assert(t[k] == s[k + 1]);
        }
    }
}

proof fn lemma_pass_ok(s: Seq<Block>, i: int)
    requires
        blocks_ok(s),
        total(s) <= usize::MAX,
        s.len() >= 1,
    ensures
        blocks_ok(pass_spec(s, i).1),
        total(pass_spec(s, i).1) == total(s),
        pass_spec(s, i).1.len() >= 1,
    decreases s.len() - i,
{
    if i < 0 || i + 1 >= s.len() {
    } else if mergeable(s, i) {
        lemma_merge_ok(s, i);
        lemma_pass_ok(merge_spec(s, i), i);
    } else {
        lemma_pass_ok(s, i + 1);
    }
}

proof fn lemma_full_ok(s: Seq<Block>)
    requires
        blocks_ok(s),
        total(s) <= usize::MAX,
        s.len() >= 1,
    ensures
        blocks_ok(full_spec(s)),
        total(full_spec(s)) == total(s),
        full_spec(s).len() >= 1,
        fully_coalesced(full_spec(s)),
    decreases s.len(),
{
    let (c, t) = pass_spec(s, 0);
    lemma_pass_ok(s, 0);
    if c {
        lemma_pass_shrinks(s, 0);
        lemma_full_ok(t);
    } else {
        lemma_pass_false(s, 0);
    }
}

impl BuddyAllocator {
    /// One coalescing pass over the heap; returns whether anything merged.
    fn coalescence_buddies(&mut self) -> (r: bool)
        requires
            old(self).wf(),
        ensures
            final(self).wf(),
            final(self).heap_start == old(self).heap_start,
            (r, final(self).blocks@) == pass_spec(old(self).blocks@, 0),
            final(self).heap_len == old(self).heap_len,
    {
        let ghost s0 = self.blocks@;
        let mut results = false;
        let mut i: usize = 0;
        proof {
            lemma_pass_ok(s0, 0);
        }
        while i + 1 < self.blocks.len()
            invariant
                self.wf(),
                self.heap_start == old(self).heap_start,
                self.heap_len == old(self).heap_len,
                i < self.blocks.len(),
                pass_spec(self.blocks@, i as int).1 == pass_spec(s0, 0).1,
                results || pass_spec(self.blocks@, i as int).0 == pass_spec(s0, 0).0,
                results ==> pass_spec(s0, 0).0,
            decreases self.blocks@.len() - i,
        {
            let a = self.blocks[i];
            let b = self.blocks[i + 1];
            if a.free && b.free && a.size == b.size {
                let ghost before = self.blocks@;
                proof {
                    lemma_merge_ok(before, i as int);
                }
                self.blocks.remove(i + 1);
                self.blocks.set(i, Block { free: true, size: a.size * 2 });
                assert(self.blocks@ =~= merge_spec(before, i as int));
                results = true;
            } else {
                i = i + 1;
            }
        }
        results
    }

    /// Coalescing passes until nothing merges.
    fn coalescence_buddies_full(&mut self)
        requires
            old(self).wf(),
        ensures
            final(self).wf(),
            final(self).heap_start == old(self).heap_start,
            final(self).blocks@ == full_spec(old(self).blocks@),
            final(self).heap_len == old(self).heap_len,
    {
        let ghost s0 = self.blocks@;
        loop
            invariant
                self.wf(),
                self.heap_start == old(self).heap_start,
                full_spec(self.blocks@) == full_spec(s0),
                s0 == old(self).blocks@,
                self.heap_len == old(self).heap_len,
            decreases self.blocks@.len(),
        {
            let ghost before = self.blocks@;
            let merged = self.coalescence_buddies();
            proof {
                lemma_pass_shrinks(before, 0);
            }
            if !merged {
                proof {
                    lemma_pass_false(before, 0);
                    assert(full_spec(before) == before);
                }
                return;
            }
            proof {
                assert(full_spec(before) == full_spec(pass_spec(before, 0).1));
            }
        }
    }
}

} // verus!

verus! {

/// The first power of two, doubling up from `p`, that is at least `x`.
pub open spec fn npow2_from(x: int, p: int) -> int
    decreases (if x - p > 0 { x - p } else { 0 }),
{
    if p >= x || p <= 0 {
        p
    } else {
        npow2_from(x, 2 * p)
    }
}

/// The smallest power of two that is at least `x` (1 for 0).
pub open spec fn npow2_spec(x: int) -> int {
    npow2_from(x, 1)
}

proof fn lemma_npow2_from(x: int, p: int)
    requires
        is_pow2(p),
        x <= usize::MAX / 2 + 1,
        p <= usize::MAX / 2 + 1,
    ensures
        is_pow2(npow2_from(x, p)),
        npow2_from(x, p) >= x,
        npow2_from(x, p) >= p,
        npow2_from(x, p) == p || npow2_from(x, p) < 2 * x,
        npow2_from(x, p) <= usize::MAX / 2 + 1 || npow2_from(x, p) == p,
    decreases (if x - p > 0 { x - p } else { 0 }),
{
    let k = choose|k: nat| k < usize::BITS && #[trigger] pow2(k) == p;
    lemma_pow2_pos(k);
    if p < x {
        lemma_pow2_unfold(k + 1);
        if k + 1 >= usize::BITS {
            lemma_pow2_at_bits(k);
        }
        lemma_pow2_le_half(k);
        assert(is_pow2(2 * p)) by {
            assert(pow2(k + 1) == 2 * p);
        }
        lemma_npow2_from(x, 2 * p);
    }
}

proof fn lemma_pow2_le_half(k: nat)
    requires
        k + 1 < usize::BITS,
    ensures
        pow2(k + 1) <= usize::MAX / 2 + 1,
{
    let top = (usize::BITS - 1) as nat;
    lemma_pow2_at_bits(top);
    if k + 1 < top {
        vstd::arithmetic::power2::lemma_pow2_strictly_increases(k + 1, top);
    }
}

/// The smallest power of two that is at least `x`.
pub fn next_power_of_two(x: usize) -> (r: usize)
    requires
        x <= usize::MAX / 2 + 1,
    ensures
        r == npow2_spec(x as int),
        is_pow2(r as int),
        r >= x,
        r == 1 || r < 2 * x,
{
    proof {
        lemma2_to64();
        assert(pow2(0) == 1);
        lemma_npow2_from(x as int, 1);
    }
    let mut r: usize = 1;
    while r < x
        invariant
            is_pow2(r as int),
            r <= usize::MAX / 2 + 1,
            x <= usize::MAX / 2 + 1,
            npow2_from(x as int, r as int) == npow2_spec(x as int),
        decreases usize::MAX - r,
    {
        proof {
            lemma_npow2_from(x as int, r as int);
            let k = choose|k: nat| k < usize::BITS && #[trigger] pow2(k) == r;
            lemma_pow2_unfold(k + 1);
            if k + 1 >= usize::BITS {
                lemma_pow2_at_bits(k);
            }
            lemma_pow2_le_half(k);
            assert(pow2(k + 1) == 2 * r);
            lemma_pow2_pos(k);
        }
        r = r * 2;
    }
    r
}

/// The block size for a request of `size` bytes: header included, rounded up
/// to a power of two.
pub fn actual_size(size: usize) -> (r: usize)
    requires
        size + BLOCK_HEADER_SIZE <= usize::MAX / 2 + 1,
    ensures
        r == npow2_spec(size + BLOCK_HEADER_SIZE),
        is_pow2(r as int),
        r >= size + BLOCK_HEADER_SIZE,
        r < 2 * (size + BLOCK_HEADER_SIZE),
{
    next_power_of_two(size + BLOCK_HEADER_SIZE)
}

} // verus!

verus! {

/// The size of the free block that the heap grows by for a request of `size`
/// bytes when it spans `heap_len` bytes: the larger of the two, rounded up to
/// a page, to a power of two and to a multiple of the header size.
pub open spec fn expand_size(heap_len: int, size: int) -> int {
    let m = if size > heap_len { size } else { heap_len };
    crate::addr::align_up_spec(npow2_spec(crate::addr::align_up_spec(m, 4096)), 16)
}

/// The first block index that an allocation of `size` bytes hands out, and the
/// blocks before it is marked used: a best fit, else a best fit after full
/// coalescing, else the fresh block that the heap grows by.
pub open spec fn alloc_spec(s: Seq<Block>, size: int) -> (int, Seq<Block>) {
    let (f1, s1) = find_spec(s, size);
    if f1 is Some {
        (f1->0, s1)
    } else {
        let s2 = full_spec(s);
        let (f2, s3) = find_spec(s2, size);
        if f2 is Some {
            (f2->0, s3)
        } else {
            let s4 = s2.push(Block { free: true, size: expand_size(total(s2), size) as usize });
            let (f3, s5) = find_spec(s4, size);
            (f3->0, s5)
        }
    }
}

proof fn lemma_best_exists(s: Seq<Block>, size: int, j: int)
    requires
        0 <= j < s.len(),
        fits_b(s[j], size),
    ensures
        exists|i: int| is_best_fit(s, size, i),
{
    lemma_first_fitting(s, size, j, 0);
}

proof fn lemma_first_fitting(s: Seq<Block>, size: int, j: int, k: int)
    requires
        0 <= k <= j < s.len(),
        fits_b(s[j], size),
        forall|m: int| 0 <= m < k ==> !fits_b(#[trigger] s[m], size),
    ensures
        exists|i: int| is_best_fit(s, size, i),
    decreases j - k,
{
    if fits_b(s[k], size) {
        lemma_best_exists_from(s, size, k, k + 1);
    } else {
        lemma_first_fitting(s, size, j, k + 1);
    }
}

proof fn lemma_best_exists_from(s: Seq<Block>, size: int, b: int, k: int)
    requires
        0 <= b < k <= s.len(),
        fits_b(s[b], size),
        forall|m: int| 0 <= m < k && fits_b(#[trigger] s[m], size) ==> s[m].size >= s[b].size,
        forall|m: int| b < m < k && fits_b(#[trigger] s[m], size) ==> s[m].size > s[b].size,
    ensures
        exists|i: int| is_best_fit(s, size, i),
    decreases s.len() - k,
{
    if k == s.len() {
        assert(is_best_fit(s, size, b));
    } else if fits_b(s[k], size) && s[k].size <= s[b].size {
        lemma_best_exists_from(s, size, k, k + 1);
    } else {
        lemma_best_exists_from(s, size, b, k + 1);
    }
}

impl BuddyAllocator {
    /// A heap at `heap_start` of one free block of the initial size.
    pub fn create(heap_start: VirtAddr) -> (r: Self)
        requires
            heap_start.0 + INIT_HEAP_SIZE <= usize::MAX,
        ensures
            r.wf(),
            r.heap_start == heap_start,
            r.blocks@.len() == 1,
            r.blocks@[0].free,
            r.blocks@[0].size <= INIT_HEAP_SIZE < 2 * r.blocks@[0].size,
    {
        let size = align_down_to_power_of_2(INIT_HEAP_SIZE);
        proof {
            assert(size > BLOCK_HEADER_SIZE);
        }
        let mut blocks = Vec::new();
        blocks.push(Block { free: true, size });
        proof {
            lemma_total_single(Block { free: true, size });
            assert(blocks@ =~= seq![Block { free: true, size }]);
        }
        BuddyAllocator { heap_start, heap_len: size, blocks }
    }

    /// Where the heap starts.
    pub fn heap_start(&self) -> (r: VirtAddr)
        ensures
            r == self.heap_start,
    {
        self.heap_start
    }

    /// Where the heap ends.
    pub fn heap_end(&self) -> (r: VirtAddr)
        requires
            self.wf(),
        ensures
            r.0 == self.heap_start.0 + total(self.blocks@),
    {
        self.heap_start.add(self.heap_len)
    }

    /// The block after block `i`, if any.
    pub fn next(&self, i: usize) -> (r: Option<usize>)
        requires
            self.wf(),
            i < self.blocks@.len(),
        ensures
            r == (if i + 1 < self.blocks@.len() { Some((i + 1) as usize) } else { None::<usize> }),
    {
        if i < self.blocks.len() - 1 {
            Some(i + 1)
        } else {
            None
        }
    }

    /// Where block `i` starts, counted from the start of the heap.
    pub fn block_offset(&self, i: usize) -> (r: usize)
        requires
            self.wf(),
            i < self.blocks@.len(),
        ensures
            r == offset(self.blocks@, i as int),
            r + self.blocks@[i as int].size <= total(self.blocks@),
    {
        let ghost s = self.blocks@;
        let mut acc: usize = 0;
        let mut j: usize = 0;
        proof {
            assert(s.take(0) =~= Seq::<Block>::empty());
            assert(total(Seq::<Block>::empty()) == 0);
        }
        while j < i
            invariant
                s == self.blocks@,
                self.wf(),
                0 <= j <= i < s.len(),
                acc == offset(s, j as int),
            decreases i - j,
        {
            proof {
                lemma_offset_bounds(s, j as int);
                lemma_offset_bounds(s, i as int);
                if j + 1 < i {
                    lemma_offset_mono(s, j as int + 1, i as int);
                }
            }
            acc = acc + self.blocks[j].size;
            j = j + 1;
        }
        proof {
            lemma_offset_bounds(s, i as int);
        }
        acc
    }

    /// Appends a free block of `size` bytes at the end of the heap.
    pub fn reserve_free(&mut self, size: usize) -> (r: usize)
        requires
            old(self).wf(),
            block_ok(Block { free: true, size }),
            old(self).heap_start.0 + total(old(self).blocks@) + size <= usize::MAX,
        ensures
            final(self).wf(),
            final(self).heap_start == old(self).heap_start,
            final(self).blocks@ == old(self).blocks@.push(Block { free: true, size }),
            r == old(self).blocks@.len(),
    {
        let ghost s = self.blocks@;
        let r = self.blocks.len();
        self.blocks.push(Block { free: true, size });
        proof {
            assert(self.blocks@.drop_last() =~= s);
            assert forall|k: int| 0 <= k < self.blocks@.len() implies block_ok(#[trigger] self.blocks@[k]) by {
                if k < s.len() {
                    assert(self.blocks@[k] == s[k]);
                }
            }
        }
        self.heap_len = self.heap_len + size;
        r
    }
}

proof fn lemma_offset_mono(s: Seq<Block>, a: int, b: int)
    requires
        0 <= a <= b <= s.len(),
    ensures
        offset(s, a) <= offset(s, b),
    decreases b - a,
{
    if a < b {
        lemma_offset_bounds(s, b - 1);
        lemma_offset_mono(s, a, b - 1);
    }
}

} // verus!

verus! {

proof fn lemma_pow2_mult16(p: int)
    requires
        is_pow2(p),
        p >= 16,
    ensures
        crate::addr::align_up_spec(p, 16) == p,
{
    let k = choose|k: nat| k < usize::BITS && #[trigger] pow2(k) == p;
    lemma2_to64();
    if k < 4 {
        assert(pow2(0) == 1 && pow2(1) == 2 && pow2(2) == 4 && pow2(3) == 8);
        assert(k == 0 || k == 1 || k == 2 || k == 3);
    }
    vstd::arithmetic::power2::lemma_pow2_adds(4, (k - 4) as nat);
    assert(pow2(4) == 16);
    let q = pow2((k - 4) as nat) as int;
    assert(p == 16 * q);
    assert(((16 * q + 15) / 16) * 16 == 16 * q) by (nonlinear_arith);
}

impl BuddyAllocator {
    /// Grows the heap by one free block of [`expand_size`] bytes; returns its index.
    pub fn expand_heap_by(&mut self, size: usize) -> (r: Option<usize>)
        requires
            old(self).wf(),
            old(self).heap_start.0 + 3 * total(old(self).blocks@) + 2 * size + 8192 <= usize::MAX,
            size + 8192 <= usize::MAX / 2,
        ensures
            final(self).wf(),
            final(self).heap_start == old(self).heap_start,
            final(self).blocks@ == old(self).blocks@.push(Block { free: true,
                size: expand_size(total(old(self).blocks@), size as int) as usize }),
            expand_size(total(old(self).blocks@), size as int) >= size,
            expand_size(total(old(self).blocks@), size as int) <= usize::MAX,
            r == Some(old(self).blocks@.len() as usize),
    {
        let m = if size > self.heap_len { size } else { self.heap_len };
        proof {
            lemma_total_nonneg(self.blocks@);
            assert(self.blocks@[0].size > BLOCK_HEADER_SIZE);
            lemma_offset_bounds(self.blocks@, 0);
            lemma_offset_mono(self.blocks@, 1, self.blocks@.len() as int);
            assert(self.blocks@.take(self.blocks@.len() as int) =~= self.blocks@);
        }
        let a = crate::addr::to_next_page(m);
        let p = next_power_of_two(a);
        proof {
            lemma_pow2_mult16(p as int);
        }
        let e = crate::addr::align_up(p, BLOCK_HEADER_SIZE);
        proof {
            lemma2_to64();
            assert(is_pow2(16)) by {
                assert(pow2(4) == 16);
            }
        }
        let r = self.reserve_free(e);
        Some(r)
    }

    /// Allocates room for `req` bytes: returns the address just past the
    /// header of the block handed out, and the bytes the block holds after it.
    pub fn allocmut(&mut self, req: usize) -> (r: Option<(VirtAddr, usize)>)
        requires
            old(self).wf(),
            old(self).heap_start.0 + 4 * (total(old(self).blocks@) + req) + 32768 <= usize::MAX,
        ensures
            final(self).wf(),
            final(self).heap_start == old(self).heap_start,
            ({
                let size = npow2_spec(req + BLOCK_HEADER_SIZE);
                let (i, t) = alloc_spec(old(self).blocks@, size);
                &&& 0 <= i < t.len()
                &&& final(self).blocks@ == t.update(i, Block { free: false, size: t[i].size })
                &&& r == Some((VirtAddr((old(self).heap_start.0 + offset(t, i) + BLOCK_HEADER_SIZE) as usize),
                    (t[i].size - BLOCK_HEADER_SIZE) as usize))
            }),
    {
        let ghost s = self.blocks@;
        proof {
            lemma_total_nonneg(s);
        }
        let size = actual_size(req);
        let mut found = self.find_free_block(size);
        let ghost mut t = self.blocks@;
        if found.is_none() {
            proof {
                assert(find_spec(s, size as int).0 is None);
            }
            self.coalescence_buddies_full();
            let ghost s2 = self.blocks@;
            found = self.find_free_block(size);
            proof {
                t = self.blocks@;
            }
            if found.is_none() {
                proof {
                    assert(find_spec(s2, size as int).0 is None);
                    assert(find_spec(s2, size as int).1 == s2);
                }
                let e = self.expand_heap_by(size);
                let ghost s4 = self.blocks@;
                proof {
                    let last = (s4.len() - 1) as int;
                    assert(s4[last].free && s4[last].size >= size);
                    lemma_best_exists(s4, size as int, last);
                }
                found = self.find_free_block(size);
                proof {
                    t = self.blocks@;
                }
            }
        }
        match found {
            Some(i) => {
                let ghost ti = t;
                let b = self.blocks[i];
                let off = self.block_offset(i);
                proof {
                    assert(b.size > BLOCK_HEADER_SIZE);
                }
                let mut used = b;
                used.free = false;
                self.blocks.set(i, used);
                proof {
                    assert(block_ok(used));
                    assert forall|k: int| 0 <= k < self.blocks@.len() implies block_ok(#[trigger] self.blocks@[k]) by {
                        if k != i as int {
                            assert(self.blocks@[k] == ti[k]);
                        }
                    }
                    lemma_total_same_sizes(ti, self.blocks@);
                    lemma_offset_same_sizes(ti, self.blocks@, i as int);
                }
                let (hdr, len) = used.data();
                Some((self.heap_start.add(off + hdr), len))
            },
            None => {
                proof {
                    assert(false);
                }
                None
            },
        }
    }
}

/// Two runs whose blocks have the same sizes, in order.
pub open spec fn same_sizes(a: Seq<Block>, b: Seq<Block>) -> bool {
    a.len() == b.len() && forall|k: int| 0 <= k < a.len() ==> #[trigger] a[k].size == b[k].size
}

proof fn lemma_total_same_sizes(a: Seq<Block>, b: Seq<Block>)
    requires
        same_sizes(a, b),
    ensures
        total(a) == total(b),
    decreases a.len(),
{
    if a.len() > 0 {
        assert(same_sizes(a.drop_last(), b.drop_last()));
        lemma_total_same_sizes(a.drop_last(), b.drop_last());
        assert(a.last().size == b[b.len() - 1].size);
    }
}

proof fn lemma_offset_same_sizes(a: Seq<Block>, b: Seq<Block>, i: int)
    requires
        same_sizes(a, b),
        0 <= i <= a.len(),
    ensures
        offset(a, i) == offset(b, i),
{
    assert(same_sizes(a.take(i), b.take(i)));
    lemma_total_same_sizes(a.take(i), b.take(i));
}

} // verus!

verus! {

/// `i` is the block whose data starts `d` bytes into the heap.
pub open spec fn is_block_with_data(s: Seq<Block>, d: int, i: int) -> bool {
    0 <= i < s.len() && offset(s, i) + BLOCK_HEADER_SIZE == d
}

/// `i` is the block whose data starts at address `p` of a heap at `heap_start`.
pub open spec fn holds_data_at(s: Seq<Block>, heap_start: int, p: int, i: int) -> bool {
    is_block_with_data(s, p - heap_start, i)
}

pub open spec fn block_with_data(s: Seq<Block>, d: int) -> int {
    choose|i: int| is_block_with_data(s, d, i)
}

proof fn lemma_offsets_increase(s: Seq<Block>, a: int, b: int)
    requires
        blocks_ok(s),
        0 <= a < b < s.len(),
    ensures
        offset(s, a) < offset(s, b),
{
    lemma_offset_bounds(s, a);
    lemma_offset_mono(s, a + 1, b);
    assert(block_ok(s[a]));
}

proof fn lemma_block_with_data_unique(s: Seq<Block>, d: int, i: int)
    requires
        blocks_ok(s),
        is_block_with_data(s, d, i),
    ensures
        block_with_data(s, d) == i,
{
    let j = block_with_data(s, d);
    assert(is_block_with_data(s, d, j));
    if j < i {
        lemma_offsets_increase(s, j, i);
    } else if i < j {
        lemma_offsets_increase(s, i, j);
    }
}

impl BuddyAllocator {
    /// Frees the block whose data starts at `ptr` and coalesces the heap fully.
    pub fn deallocmut(&mut self, ptr: VirtAddr)
        requires
            old(self).wf(),
            exists|i: int| #[trigger] holds_data_at(old(self).blocks@, old(self).heap_start.0 as int, ptr.0 as int, i),
        ensures
            final(self).wf(),
            final(self).heap_start == old(self).heap_start,
            ({
                let s = old(self).blocks@;
                let i = block_with_data(s, ptr.0 - old(self).heap_start.0);
                final(self).blocks@ == full_spec(s.update(i, Block { free: true, size: s[i].size }))
            }),
            fully_coalesced(final(self).blocks@),
            total(final(self).blocks@) == total(old(self).blocks@),
    {
        let ghost s = self.blocks@;
        let ghost d = ptr.0 - self.heap_start.0;
        let ghost w = choose|i: int| #[trigger] holds_data_at(s, self.heap_start.0 as int, ptr.0 as int, i);
        proof {
            lemma_block_with_data_unique(s, d, w);
            lemma_offset_bounds(s, w);
        }
        let n = self.blocks.len();
        let mut acc: usize = 0;
        let mut j: usize = 0;
        proof {
            assert(s.take(0) =~= Seq::<Block>::empty());
            assert(total(Seq::<Block>::empty()) == 0);
        }
        while j < n
            invariant
                s == self.blocks@,
                self.wf(),
                n == s.len(),
                0 <= j <= w,
                is_block_with_data(s, d, w),
                d == ptr.0 - self.heap_start.0,
                acc == offset(s, j as int),
            ensures
                0 <= j <= w,
                acc == offset(s, j as int),
                self.heap_start.0 + acc + BLOCK_HEADER_SIZE == ptr.0,
            decreases n - j,
        {
            proof {
                lemma_offset_mono(s, j as int, w);
            }
            if self.heap_start.0 + acc + BLOCK_HEADER_SIZE == ptr.0 {
                break;
            }
            proof {
                if (j as int) == w {
                    assert(false);
                }
                lemma_offset_bounds(s, j as int);
                lemma_offset_mono(s, j as int + 1, w);
            }
            acc = acc + self.blocks[j].size;
            j = j + 1;
        }
        proof {
            if (j as int) < w {
                lemma_offsets_increase(s, j as int, w);
            }
            assert(j as int == w);
        }
        let b = self.blocks[j];
        self.blocks.set(j, Block { free: true, size: b.size });
        proof {
            let u = self.blocks@;
            assert(u == s.update(w, Block { free: true, size: s[w].size }));
            assert(same_sizes(s, u));
            lemma_total_same_sizes(s, u);
            assert forall|k: int| 0 <= k < u.len() implies block_ok(#[trigger] u[k]) by {
                if k != j as int {
                    assert(u[k] == s[k]);
                }
            }
            lemma_full_ok(u);
        }
        self.coalescence_buddies_full();
    }
}

} // verus!
