//! A page table as the memory manager sees it: which page is backed by which
//! frame, with which entry flags; and the mapping steps that back a region
//! of the virtual memory manager with frames, or take them away again.
//! Pages and frames are named by their start addresses.
use crate::addr::{VirtAddr, PAGE_SIZE};
use crate::paging::{MapToError, PageEntryFlags, PendingUnmaps};
use std::collections::HashMap;
use vstd::prelude::*;

verus! {

broadcast use vstd::std_specs::hash::group_hash_axioms;

/// A page table: the frame and entry flags behind each mapped page.
pub struct PageTable {
    pub entries: HashMap<u64, (u64, PageEntryFlags)>,
}

/// The mapping `m` after the `n` pages from `a` are backed, one after the
/// other, by frames taken from the end of `pool`: what comes back (running
/// out of frames, or a page already mapped, which uses up its frame), the
/// mapping after, and the frames left.
pub open spec fn alloc_map_spec(
    m: Map<u64, (u64, PageEntryFlags)>,
    pool: Seq<u64>,
    a: int,
    n: int,
    flags: PageEntryFlags,
) -> (Result<(), MapToError>, Map<u64, (u64, PageEntryFlags)>, Seq<u64>)
    decreases n,
{
    if n <= 0 {
        (Ok(()), m, pool)
    } else if pool.len() == 0 {
        (Err(MapToError::FrameAllocationFailed), m, pool)
    } else if m.contains_key(a as u64) {
        (Err(MapToError::AlreadyMapped), m, pool.drop_last())
    } else {
        alloc_map_spec(m.insert(a as u64, (pool.last(), flags)), pool.drop_last(), a + PAGE_SIZE, n - 1, flags)
    }
}

/// The mapping `m` after the pages from `a` on are backed, in order, by the
/// frames `frames` from index `i`.
pub open spec fn contiguous_spec(
    m: Map<u64, (u64, PageEntryFlags)>,
    frames: Seq<u64>,
    i: int,
    a: int,
    flags: PageEntryFlags,
) -> (Result<(), MapToError>, Map<u64, (u64, PageEntryFlags)>)
    decreases frames.len() - i,
{
    if i < 0 || i >= frames.len() {
        (Ok(()), m)
    } else if m.contains_key(a as u64) {
        (Err(MapToError::AlreadyMapped), m)
    } else {
        contiguous_spec(m.insert(a as u64, (frames[i], flags)), frames, i + 1, a + PAGE_SIZE, flags)
    }
}

/// The `k`-th page from `a`.
pub open spec fn page_addr(a: int, k: int) -> u64 {
    (a + k * PAGE_SIZE) as u64
}

/// `p` lies outside the `n` pages from `a`.
pub open spec fn outside(p: u64, a: int, n: int) -> bool {
    p < a || p >= a + n * PAGE_SIZE
}

/// None of the `n` pages from `a` is mapped in `m`.
pub open spec fn pages_unmapped(m: Map<u64, (u64, PageEntryFlags)>, a: int, n: int) -> bool {
    forall|k: int| 0 <= k < n ==> !(#[trigger] m.contains_key(page_addr(a, k)))
}

/// `m2` agrees with `m` on every address outside the `n` pages from `a`.
pub open spec fn same_outside(m: Map<u64, (u64, PageEntryFlags)>, m2: Map<u64, (u64, PageEntryFlags)>, a: int, n: int)
    -> bool {
    forall|p: u64|
        outside(p, a, n) ==> ((#[trigger] m2.contains_key(p)) == m.contains_key(p) && (m.contains_key(p) ==> m2[p]
            == m[p]))
}

/// The mapping `m` without the `n` pages from `a`, and the frames that were
/// behind those of them that were mapped, in page order.
pub open spec fn unmapped_spec(m: Map<u64, (u64, PageEntryFlags)>, a: int, n: int) -> (
    Map<u64, (u64, PageEntryFlags)>,
    Seq<u64>,
)
    decreases n,
{
    if n <= 0 {
        (m, Seq::empty())
    } else {
        let rest = unmapped_spec(m.remove(a as u64), a + PAGE_SIZE, n - 1);
        if m.contains_key(a as u64) {
            (rest.0, seq![m[a as u64].0] + rest.1)
        } else {
            rest
        }
    }
}

proof fn lemma_page_step(a: int, k: int)
    requires
        0 <= a,
        1 <= k,
    ensures
        page_addr(a, k) == page_addr(a + PAGE_SIZE, k - 1),
        a + k * PAGE_SIZE >= a + PAGE_SIZE,
{
    assert(a + k * PAGE_SIZE == a + PAGE_SIZE + (k - 1) * PAGE_SIZE) by (nonlinear_arith);
}

proof fn lemma_page_distinct(a: int, k: int, n: int)
    requires
        0 <= a,
        1 <= k < n,
        a + n * PAGE_SIZE <= u64::MAX,
    ensures
        page_addr(a, k) != page_addr(a, 0),
        a + PAGE_SIZE <= a + k * PAGE_SIZE < a + n * PAGE_SIZE,
{
    assert(a + PAGE_SIZE <= a + k * PAGE_SIZE < a + n * PAGE_SIZE) by (nonlinear_arith)
        requires
            1 <= k < n,
    ;
}

/// Backing `n` pages succeeds only with at least `n` frames in the pool.
pub proof fn lemma_alloc_map_needs(
    m: Map<u64, (u64, PageEntryFlags)>,
    pool: Seq<u64>,
    a: int,
    n: int,
    flags: PageEntryFlags,
)
    requires
        0 <= n,
        alloc_map_spec(m, pool, a, n, flags).0 is Ok,
    ensures
        pool.len() >= n,
    decreases n,
{
    if n > 0 {
        lemma_alloc_map_needs(m.insert(a as u64, (pool.last(), flags)), pool.drop_last(), a + PAGE_SIZE, n - 1, flags);
    }
}

/// With the `n` pages from `a` unmapped, backing them from a pool of at
/// least `n` frames succeeds: page `k` gets the `k`-th frame from the end of
/// the pool, with `flags`; the rest of the mapping is kept, and the first
/// `len - n` frames are left.
#[verifier::spinoff_prover]
pub proof fn lemma_alloc_map_backs(
    m: Map<u64, (u64, PageEntryFlags)>,
    pool: Seq<u64>,
    a: int,
    n: int,
    flags: PageEntryFlags,
)
    requires
        0 <= a,
        0 <= n <= pool.len(),
        a + n * PAGE_SIZE <= u64::MAX,
        pages_unmapped(m, a, n),
    ensures
        ({
            let s = alloc_map_spec(m, pool, a, n, flags);
            &&& s.0 is Ok
            &&& s.2 =~= pool.subrange(0, pool.len() - n)
            &&& forall|k: int|
                0 <= k < n ==> (#[trigger] s.1.contains_key(page_addr(a, k)) && s.1[page_addr(a, k)] == (
                    pool[pool.len() - 1 - k],
                    flags,
                ))
            &&& same_outside(m, s.1, a, n)
        }),
    decreases n,
{
    if n > 0 {
        assert(!m.contains_key(page_addr(a, 0)));
        assert(page_addr(a, 0) == a as u64);
        let m2 = m.insert(a as u64, (pool.last(), flags));
        assert(a + PAGE_SIZE + (n - 1) * PAGE_SIZE == a + n * PAGE_SIZE) by (nonlinear_arith);
        assert forall|k: int| 0 <= k < n - 1 implies !(#[trigger] m2.contains_key(page_addr(a + PAGE_SIZE, k))) by {
            lemma_page_step(a, k + 1);
            lemma_page_distinct(a, k + 1, n);
            assert(!m.contains_key(page_addr(a, k + 1)));
        }
        lemma_alloc_map_backs(m2, pool.drop_last(), a + PAGE_SIZE, n - 1, flags);
        let s = alloc_map_spec(m, pool, a, n, flags);
        let t = alloc_map_spec(m2, pool.drop_last(), a + PAGE_SIZE, n - 1, flags);
        assert(s == t);
        assert forall|k: int| 0 <= k < n implies (#[trigger] s.1.contains_key(page_addr(a, k)) && s.1[page_addr(a, k)]
            == (pool[pool.len() - 1 - k], flags)) by {
            if k == 0 {
                assert(page_addr(a, k) == a as u64);
                assert(outside(a as u64, a + PAGE_SIZE, n - 1));
                assert(t.1.contains_key(a as u64) == m2.contains_key(a as u64));
                assert(t.1[a as u64] == m2[a as u64]);
                assert(m2[a as u64] == (pool[pool.len() - 1], flags));
            } else {
                lemma_page_step(a, k);
                let q = page_addr(a + PAGE_SIZE, k - 1);
                assert(0 <= k - 1 < n - 1);
                assert(t.1.contains_key(q));
                assert(t.1[q] == (pool.drop_last()[pool.drop_last().len() - 1 - (k - 1)], flags));
                let d = pool.drop_last();
                assert(d[d.len() - 1 - (k - 1)] == pool[pool.len() - 1 - k]);
            }
        }
        assert forall|p: u64| outside(p, a, n) implies ((#[trigger] s.1.contains_key(p)) == m.contains_key(p) && (
        m.contains_key(p) ==> s.1[p] == m[p])) by {
            assert(outside(p, a + PAGE_SIZE, n - 1));
            assert(p != a as u64);
            assert(t.1.contains_key(p) == m2.contains_key(p));
            assert(m2.contains_key(p) ==> t.1[p] == m2[p]);
        }
    }
}

/// With the pages unmapped, mapping the frames from index `i` on to the
/// pages from `b` succeeds: the page `k` after `b` gets frame `i + k`, with
/// `flags`, and the rest of the mapping is kept.
#[verifier::spinoff_prover]
pub proof fn lemma_contiguous_backs(
    m: Map<u64, (u64, PageEntryFlags)>,
    frames: Seq<u64>,
    i: int,
    b: int,
    flags: PageEntryFlags,
)
    requires
        0 <= b,
        0 <= i <= frames.len(),
        b + (frames.len() - i) * PAGE_SIZE <= u64::MAX,
        pages_unmapped(m, b, frames.len() - i),
    ensures
        ({
            let s = contiguous_spec(m, frames, i, b, flags);
            let n = frames.len() - i;
            &&& s.0 is Ok
            &&& forall|k: int|
                0 <= k < n ==> (#[trigger] s.1.contains_key(page_addr(b, k)) && s.1[page_addr(b, k)] == (
                    frames[i + k],
                    flags,
                ))
            &&& same_outside(m, s.1, b, n)
        }),
    decreases frames.len() - i,
{
    let n = frames.len() - i;
    if n > 0 {
        assert(!m.contains_key(page_addr(b, 0)));
        assert(page_addr(b, 0) == b as u64);
        let m2 = m.insert(b as u64, (frames[i], flags));
        assert(b + PAGE_SIZE + (n - 1) * PAGE_SIZE == b + n * PAGE_SIZE) by (nonlinear_arith);
        assert forall|k: int| 0 <= k < n - 1 implies !(#[trigger] m2.contains_key(page_addr(b + PAGE_SIZE, k))) by {
            lemma_page_step(b, k + 1);
            lemma_page_distinct(b, k + 1, n);
            assert(!m.contains_key(page_addr(b, k + 1)));
        }
        lemma_contiguous_backs(m2, frames, i + 1, b + PAGE_SIZE, flags);
        let s = contiguous_spec(m, frames, i, b, flags);
        let t = contiguous_spec(m2, frames, i + 1, b + PAGE_SIZE, flags);
        assert(s == t);
        assert forall|k: int| 0 <= k < n implies (#[trigger] s.1.contains_key(page_addr(b, k)) && s.1[page_addr(b, k)]
            == (frames[i + k], flags)) by {
            if k == 0 {
                assert(page_addr(b, k) == b as u64);
                assert(outside(b as u64, b + PAGE_SIZE, n - 1));
                assert(t.1.contains_key(b as u64) == m2.contains_key(b as u64));
                assert(t.1[b as u64] == m2[b as u64]);
            } else {
                lemma_page_step(b, k);
                let q = page_addr(b + PAGE_SIZE, k - 1);
                assert(0 <= k - 1 < n - 1);
                assert(t.1.contains_key(q));
                assert(t.1[q] == (frames[i + 1 + (k - 1)], flags));
                assert(i + 1 + (k - 1) == i + k);
            }
        }
        assert forall|p: u64| outside(p, b, n) implies ((#[trigger] s.1.contains_key(p)) == m.contains_key(p) && (
        m.contains_key(p) ==> s.1[p] == m[p])) by {
            assert(outside(p, b + PAGE_SIZE, n - 1));
            assert(p != b as u64);
            assert(t.1.contains_key(p) == m2.contains_key(p));
            assert(m2.contains_key(p) ==> t.1[p] == m2[p]);
        }
    }
}

/// The `n` frames taken from the end of `pool`, last first.
pub open spec fn taken_frames(pool: Seq<u64>, n: int) -> Seq<u64> {
    Seq::new(n as nat, |k: int| pool[pool.len() - 1 - k])
}

/// Backing pages does not touch an address outside them: removing it first
/// or afterwards comes to the same.
proof fn lemma_alloc_map_remove(
    m: Map<u64, (u64, PageEntryFlags)>,
    pool: Seq<u64>,
    b: int,
    n: int,
    flags: PageEntryFlags,
    p: u64,
)
    requires
        0 <= b,
        0 <= n,
        b + n * PAGE_SIZE <= u64::MAX,
        outside(p, b, n),
    ensures
        ({
            let s = alloc_map_spec(m, pool, b, n, flags);
            let t = alloc_map_spec(m.remove(p), pool, b, n, flags);
            t.0 == s.0 && t.1 == s.1.remove(p) && t.2 == s.2
        }),
    decreases n,
{
    if n > 0 && pool.len() > 0 {
        assert(p != b as u64);
        assert(b + PAGE_SIZE + (n - 1) * PAGE_SIZE == b + n * PAGE_SIZE) by (nonlinear_arith);
        assert(outside(p, b + PAGE_SIZE, n - 1));
        let v = (pool.last(), flags);
        assert(m.remove(p).insert(b as u64, v) =~= m.insert(b as u64, v).remove(p));
        lemma_alloc_map_remove(m.insert(b as u64, v), pool.drop_last(), b + PAGE_SIZE, n - 1, flags, p);
    }
}

/// Backing `n` unmapped pages with frames from `pool` and then unmapping
/// them gives the mapping back, and hands back the frames in page order:
/// the last of the pool first. With the frames left in the pool, they make
/// up the pool again.
pub proof fn law_unmap_undoes_alloc_map(
    m: Map<u64, (u64, PageEntryFlags)>,
    pool: Seq<u64>,
    a: int,
    n: int,
    flags: PageEntryFlags,
)
    requires
        0 <= a,
        0 <= n <= pool.len(),
        a + n * PAGE_SIZE <= u64::MAX,
        pages_unmapped(m, a, n),
    ensures
        ({
            let s = alloc_map_spec(m, pool, a, n, flags);
            let u = unmapped_spec(s.1, a, n);
            &&& s.0 is Ok
            &&& u.0 == m
            &&& u.1 == taken_frames(pool, n)
            &&& s.2 + u.1.reverse() == pool
        }),
    decreases n,
{
    lemma_alloc_map_backs(m, pool, a, n, flags);
    let s = alloc_map_spec(m, pool, a, n, flags);
    let u = unmapped_spec(s.1, a, n);
    if n == 0 {
        assert(u.1 =~= taken_frames(pool, n));
        assert(s.2 + u.1.reverse() =~= pool);
    } else {
        let v = (pool.last(), flags);
        let m2 = m.insert(a as u64, v);
        let q = pool.drop_last();
        assert(page_addr(a, 0) == a as u64);
        assert(!m.contains_key(a as u64));
        assert(a + PAGE_SIZE + (n - 1) * PAGE_SIZE == a + n * PAGE_SIZE) by (nonlinear_arith);
        assert forall|k: int| 0 <= k < n - 1 implies !(#[trigger] m.contains_key(page_addr(a + PAGE_SIZE, k))) by {
            lemma_page_step(a, k + 1);
            assert(!m.contains_key(page_addr(a, k + 1)));
        }
        law_unmap_undoes_alloc_map(m, q, a + PAGE_SIZE, n - 1, flags);
        assert(outside(a as u64, a + PAGE_SIZE, n - 1));
        lemma_alloc_map_remove(m2, q, a + PAGE_SIZE, n - 1, flags, a as u64);
        assert(m2.remove(a as u64) =~= m);
        let big = alloc_map_spec(m2, q, a + PAGE_SIZE, n - 1, flags);
        assert(s == big);
        assert(s.1.contains_key(a as u64) && s.1[a as u64] == v) by {
            assert(s.1.contains_key(page_addr(a, 0)));
        }
        let rest = unmapped_spec(s.1.remove(a as u64), a + PAGE_SIZE, n - 1);
        assert(s.1.remove(a as u64) == alloc_map_spec(m, q, a + PAGE_SIZE, n - 1, flags).1);
        assert(u == (rest.0, seq![pool.last()] + rest.1));
        assert(u.1 =~= taken_frames(pool, n)) by {
            assert forall|k: int| 0 <= k < n implies #[trigger] u.1[k] == pool[pool.len() - 1 - k] by {
                if k > 0 {
                    assert(rest.1[k - 1] == q[q.len() - 1 - (k - 1)]);
                }
            }
        }
        assert(s.2 =~= pool.subrange(0, pool.len() - n));
        assert(s.2 + u.1.reverse() =~= pool) by {
            assert forall|j: int| 0 <= j < pool.len() implies #[trigger] (s.2 + u.1.reverse())[j] == pool[j] by {
                if j >= pool.len() - n {
                    let k = n - 1 - (j - (pool.len() - n));
                    assert(u.1.reverse()[j - (pool.len() - n)] == u.1[k]);
                }
            }
        }
    }
}

impl PageTable {
    /// The frame and flags behind each mapped page.
    pub open spec fn mapping(&self) -> Map<u64, (u64, PageEntryFlags)> {
        self.entries@
    }

    /// A table that maps nothing.
    pub fn new() -> (r: Self)
        ensures
            r.mapping() == Map::<u64, (u64, PageEntryFlags)>::empty(),
    {
        PageTable { entries: HashMap::new() }
    }

    /// The frame behind `page`, if it is mapped.
    pub fn get_frame_of(&self, page: u64) -> (r: Option<u64>)
        ensures
            r == (if self.mapping().contains_key(page) { Some(self.mapping()[page].0) } else { None::<u64> }),
    {
        match self.entries.get(&page) {
            Some(e) => Some(e.0),
            None => None,
        }
    }

    /// Maps `page` to `frame` with `flags`; `AlreadyMapped` when the page is
    /// mapped already, and then nothing changes.
    pub fn map_to(&mut self, page: u64, frame: u64, flags: PageEntryFlags) -> (r: Result<(), MapToError>)
        ensures
            old(self).mapping().contains_key(page) ==> r == Err::<(), MapToError>(MapToError::AlreadyMapped)
                && final(self).mapping() == old(self).mapping(),
            !old(self).mapping().contains_key(page) ==> r is Ok && final(self).mapping() == old(
                self,
            ).mapping().insert(page, (frame, flags)),
    {
        if self.entries.contains_key(&page) {
            return Err(MapToError::AlreadyMapped);
        }
        self.entries.insert(page, (frame, flags));
        Ok(())
    }

    /// Unmaps `page`, handing back the frame that was behind it, if any.
    pub fn unmap_page(&mut self, page: u64) -> (r: Option<u64>)
        ensures
            r == (if old(self).mapping().contains_key(page) { Some(old(self).mapping()[page].0) } else { None::<u64> }),
            final(self).mapping() == old(self).mapping().remove(page),
    {
        match self.entries.remove(&page) {
            Some(e) => Some(e.0),
            None => None,
        }
    }

    /// Backs the `count` pages from `start` with fresh frames taken from the
    /// end of `frames`, one page after the other, with `flags`; a page
    /// already mapped stops it (its frame is used up), and so does running
    /// out of frames. Pages mapped before the failure stay mapped.
    pub fn alloc_map(&mut self, frames: &mut Vec<u64>, start: VirtAddr, count: usize, flags: PageEntryFlags)
        -> (r: Result<(), MapToError>)
        requires
            start.0 + count * PAGE_SIZE <= usize::MAX,
        ensures
            ({
                let s = alloc_map_spec(old(self).mapping(), old(frames)@, start.0 as int, count as int, flags);
                r == s.0 && final(self).mapping() == s.1 && final(frames)@ == s.2
            }),
    {
        let ghost want = alloc_map_spec(self.mapping(), frames@, start.0 as int, count as int, flags);
        let mut page = start.0;
        let mut k: usize = 0;
        while k < count
            invariant
                k <= count,
                start.0 + count * PAGE_SIZE <= usize::MAX,
                page == start.0 + k * PAGE_SIZE,
                alloc_map_spec(self.mapping(), frames@, page as int, (count - k) as int, flags) == want,
                want == alloc_map_spec(old(self).mapping(), old(frames)@, start.0 as int, count as int, flags),
            decreases count - k,
        {
            let frame = match frames.pop() {
                Some(f) => f,
                None => return Err(MapToError::FrameAllocationFailed),
            };
            match self.map_to(page as u64, frame, flags) {
                Ok(()) => {},
                Err(e) => return Err(e),
            }
            assert(page + PAGE_SIZE <= start.0 + count * PAGE_SIZE) by (nonlinear_arith)
                requires
                    page == start.0 + k * PAGE_SIZE,
                    k < count,
            ;
            k = k + 1;
            page = page + PAGE_SIZE;
        }
        Ok(())
    }

    /// Maps the pages from `start` on, in order, to the frames `frames`, all
    /// of them, with `flags`; a page already mapped stops it.
    pub fn map_contiguous_to_frames(&mut self, start: VirtAddr, frames: &Vec<u64>, flags: PageEntryFlags) -> (r:
        Result<(), MapToError>)
        requires
            start.0 + frames@.len() * PAGE_SIZE <= usize::MAX,
        ensures
            ({
                let s = contiguous_spec(old(self).mapping(), frames@, 0, start.0 as int, flags);
                r == s.0 && final(self).mapping() == s.1
            }),
    {
        let ghost want = contiguous_spec(self.mapping(), frames@, 0, start.0 as int, flags);
        let n = frames.len();
        let mut page = start.0;
        let mut i: usize = 0;
        while i < n
            invariant
                i <= n == frames@.len(),
                start.0 + n * PAGE_SIZE <= usize::MAX,
                page == start.0 + i * PAGE_SIZE,
                contiguous_spec(self.mapping(), frames@, i as int, page as int, flags) == want,
                want == contiguous_spec(old(self).mapping(), frames@, 0, start.0 as int, flags),
            decreases n - i,
        {
            match self.map_to(page as u64, frames[i], flags) {
                Ok(()) => {},
                Err(e) => return Err(e),
            }
            assert(page + PAGE_SIZE <= start.0 + n * PAGE_SIZE) by (nonlinear_arith)
                requires
                    page == start.0 + i * PAGE_SIZE,
                    i < n,
            ;
            i = i + 1;
            page = page + PAGE_SIZE;
        }
        Ok(())
    }

    /// Unmaps the `count` pages from `start`; the frames behind them are
    /// recorded in `pending` to be given back when `dealloc` is set, and the
    /// pages are added to the range to flush. Pages not mapped are passed
    /// over.
    pub fn unmap_pages(&mut self, pending: &mut PendingUnmaps, start: VirtAddr, count: usize, dealloc: bool)
        requires
            start.0 + count * PAGE_SIZE <= usize::MAX,
        ensures
            ({
                let s = unmapped_spec(old(self).mapping(), start.0 as int, count as int);
                &&& final(self).mapping() == s.0
                &&& final(pending).frames@ == (if dealloc { old(pending).frames@ + s.1 } else { old(pending).frames@ })
                &&& final(pending).unmap_range == crate::paging::widened(
                    old(pending).unmap_range,
                    start,
                    VirtAddr((start.0 + count * PAGE_SIZE) as usize),
                )
            }),
    {
        let ghost want = unmapped_spec(self.mapping(), start.0 as int, count as int);
        let ghost f0 = pending.frames@;
        let ghost r0 = pending.unmap_range;
        let mut page = start.0;
        let mut k: usize = 0;
        while k < count
            invariant
                k <= count,
                start.0 + count * PAGE_SIZE <= usize::MAX,
                page == start.0 + k * PAGE_SIZE,
                pending.unmap_range == r0,
                ({
                    let rest = unmapped_spec(self.mapping(), page as int, (count - k) as int);
                    &&& rest.0 == want.0
                    &&& (if dealloc { pending.frames@ + rest.1 } else { pending.frames@ }) == (if dealloc {
                        f0 + want.1
                    } else {
                        f0
                    })
                }),
            decreases count - k,
        {
            let ghost before = pending.frames@;
            let ghost m = self.mapping();
            let frame = self.unmap_page(page as u64);
            if dealloc {
                match frame {
                    Some(f) => {
                        pending.on_each_unmap(f);
                    },
                    None => {},
                }
            }
            proof {
                let rest = unmapped_spec(m.remove(page as u64), page + PAGE_SIZE, (count - k - 1) as int);
                if dealloc && m.contains_key(page as u64) {
                    assert(before.push(m[page as u64].0) + rest.1 =~= before + (seq![m[page as u64].0] + rest.1));
                }
            }
            assert(page + PAGE_SIZE <= start.0 + count * PAGE_SIZE) by (nonlinear_arith)
                requires
                    page == start.0 + k * PAGE_SIZE,
                    k < count,
            ;
            k = k + 1;
            page = page + PAGE_SIZE;
        }
        assert(unmapped_spec(self.mapping(), page as int, 0).1 =~= Seq::<u64>::empty());
        proof {
            if dealloc {
                assert(pending.frames@ + Seq::<u64>::empty() =~= pending.frames@);
            }
        }
        pending.after_unmap(start, VirtAddr(page));
    }
}

} // verus!
