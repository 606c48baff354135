//! Pages, page ranges and the flags and errors of page table operations.
use vstd::prelude::*;
use crate::addr::{VirtAddr, PAGE_SIZE, align_down_spec};
use crate::errors::ErrorStatus;

verus! {

/// A virtual page, named by its start address.
#[derive(Clone, Copy, Debug, PartialEq, Eq, Structural, PartialOrd, Ord)]
pub struct Page {
    pub start_address: VirtAddr,
}

impl Page {
    /// The page starts on a page boundary.
    pub open spec fn wf(self) -> bool {
        (self.start_address.0 as int) % (PAGE_SIZE as int) == 0
    }

    /// The page that contains `address`.
    pub fn containing(address: VirtAddr) -> (r: Self)
        ensures
            r.start_address.0 == align_down_spec(address.0 as int, PAGE_SIZE as int),
            r.wf(),
            r.start_address.0 <= address.0 < r.start_address.0 + PAGE_SIZE,
    {
        let r = Page { start_address: address.to_previous_page() };
        proof {
            let x = address.0 as int;
            assert((x / 4096) * 4096 <= x && x < (x / 4096) * 4096 + 4096) by (nonlinear_arith);
            assert(((x / 4096) * 4096) % 4096 == 0) by (nonlinear_arith);
        }
        r
    }

    /// The start address of the page.
    pub fn addr(&self) -> (r: VirtAddr)
        ensures
            r == self.start_address,
    {
        self.start_address
    }

    /// The page right after this one.
    pub fn next(&self) -> (r: Self)
        requires
            self.start_address.0 + PAGE_SIZE <= usize::MAX,
        ensures
            r.start_address.0 == self.start_address.0 + PAGE_SIZE,
            self.wf() ==> r.wf(),
    {
        Page { start_address: self.start_address.add(PAGE_SIZE) }
    }

    /// The pages from `start` up to, not including, `end`.
    pub fn iter_pages(start: Page, end: Page) -> (r: IterPage)
        requires
            start.start_address.0 <= end.start_address.0,
        ensures
            r.start == start,
            r.end == end,
    {
        IterPage { start, end }
    }
}

/// The pages from `start` up to, not including, `end`, in ascending order.
#[derive(Clone, Copy, Debug)]
pub struct IterPage {
    pub start: Page,
    pub end: Page,
}

impl IterPage {
    /// Both ends are page-aligned and in order.
    pub open spec fn wf(self) -> bool {
        self.start.wf() && self.end.wf() && self.start.start_address.0 <= self.end.start_address.0
    }

    /// How many pages are left.
    pub open spec fn remaining(self) -> nat {
        ((self.end.start_address.0 - self.start.start_address.0) / (PAGE_SIZE as int)) as nat
    }

    /// The next page to be handed out.
    pub fn current(&self) -> (r: Page)
        ensures
            r == self.start,
    {
        self.start
    }

    /// The first page past the range.
    pub fn end(&self) -> (r: Page)
        ensures
            r == self.end,
    {
        self.end
    }

    /// The address of the next page to be handed out.
    pub fn current_addr(&self) -> (r: VirtAddr)
        ensures
            r == self.start.start_address,
    {
        self.start.start_address
    }

    /// The address one page after the end page.
    pub fn end_addr(&self) -> (r: VirtAddr)
        requires
            self.end.start_address.0 + PAGE_SIZE <= usize::MAX,
        ensures
            r.0 == self.end.start_address.0 + PAGE_SIZE,
    {
        self.end.start_address.add(PAGE_SIZE)
    }

    /// Hands out the next page of the range, or `None` when it is exhausted.
    pub fn next(&mut self) -> (r: Option<Page>)
        requires
            old(self).wf(),
        ensures
            final(self).wf(),
            final(self).end == old(self).end,
            old(self).start.start_address.0 < old(self).end.start_address.0 ==> {
                &&& r == Some(old(self).start)
                &&& final(self).start.start_address.0 == old(self).start.start_address.0 + PAGE_SIZE
                &&& final(self).remaining() + 1 == old(self).remaining()
            },
            old(self).start.start_address.0 >= old(self).end.start_address.0 ==> {
                &&& r is None
                &&& final(self).start == old(self).start
            },
    {
        if self.start.start_address.0 < self.end.start_address.0 {
            let page = self.start;
            proof {
                let s = self.start.start_address.0 as int;
                let e = self.end.start_address.0 as int;
                assert(s + 4096 <= e) by (nonlinear_arith)
                    requires s % 4096 == 0, e % 4096 == 0, s < e;
                assert((e - s) / 4096 == (e - (s + 4096)) / 4096 + 1) by (nonlinear_arith)
                    requires s + 4096 <= e;
            }
            self.start = self.start.next();
            Some(page)
        } else {
            None
        }
    }
}

/// Flags of a page table entry.
#[derive(Clone, Copy, Debug, PartialEq, Eq, Structural)]
pub struct PageEntryFlags(pub u64);

impl PageEntryFlags {
    pub const WRITE: u64 = 1;
    pub const USER_ACCESSIBLE: u64 = 2;
    pub const DISABLE_EXEC: u64 = 4;
    pub const DEVICE_UNCACHEABLE: u64 = 8;
    pub const FRAMEBUFFER_CACHED: u64 = 16;

    /// No flag set.
    pub fn empty() -> (r: Self)
        ensures
            r.0 == 0,
    {
        PageEntryFlags(0)
    }

    /// Sets the bits of `bits`.
    pub fn insert(&mut self, bits: u64)
        ensures
            final(self).0 == old(self).0 | bits,
    {
        self.0 = self.0 | bits;
    }

    /// Whether every bit of `bits` is set.
    pub fn contains(&self, bits: u64) -> (r: bool)
        ensures
            r == (self.0 & bits == bits),
    {
        self.0 & bits == bits
    }
}

/// An error of a page table operation.
#[derive(Clone, Copy, Debug, PartialEq, Eq, Structural)]
pub enum MapToError {
    FrameAllocationFailed,
    AlreadyMapped,
    NotMapped,
    Other,
}

impl MapToError {
    /// The ABI error status for this error.
    pub fn into_err(self) -> (r: ErrorStatus)
        ensures
            r == match self {
                MapToError::AlreadyMapped => ErrorStatus::MMapError,
                MapToError::FrameAllocationFailed => ErrorStatus::OutOfMemory,
                MapToError::NotMapped => ErrorStatus::MMapError,
                MapToError::Other => ErrorStatus::Generic,
            },
    {
        match self {
            MapToError::AlreadyMapped => ErrorStatus::MMapError,
            MapToError::FrameAllocationFailed => ErrorStatus::OutOfMemory,
            MapToError::NotMapped => ErrorStatus::MMapError,
            MapToError::Other => ErrorStatus::Generic,
        }
    }
}

} // verus!

verus! {

/// A piece of a copy into memory that one page table maps: the page it
/// lands in, where in the page, where in the source it starts, and how many
/// bytes it takes.
#[derive(Clone, Copy, Debug, PartialEq, Eq, Structural)]
pub struct CopyChunk {
    pub page: VirtAddr,
    pub offset: usize,
    pub from: usize,
    pub len: usize,
}

/// The chunks of a copy of `to_copy` more bytes to `addr + copied`, from
/// step `i` of at most `n`: a step copies to the end of its page or what is
/// left, starting mid-page only at the first step, and the copy stops at
/// the first step that copies nothing.
pub open spec fn chunks_from(addr: int, copied: int, to_copy: int, i: int, n: int) -> Seq<(int, int, int, int)>
    decreases n - i,
{
    if i >= n {
        Seq::empty()
    } else {
        let page = align_down_spec(addr + copied, PAGE_SIZE as int);
        let diff = if i == 0 { addr - page } else { 0 };
        let w = if to_copy + diff >= PAGE_SIZE { PAGE_SIZE - diff } else { to_copy };
        if w == 0 {
            Seq::empty()
        } else {
            seq![(page, diff, copied, w)] + chunks_from(addr, copied + w, to_copy - w, i + 1, n)
        }
    }
}

/// The number of steps of a copy of `len` bytes: one more than the pages
/// the bytes fill.
pub open spec fn copy_steps(len: int) -> int {
    (len + PAGE_SIZE - 1) / (PAGE_SIZE as int) + 1
}

/// The chunks of a copy of `len` bytes to `addr`.
pub open spec fn copy_plan_spec(addr: int, len: int) -> Seq<(int, int, int, int)> {
    chunks_from(addr, 0, len, 0, copy_steps(len))
}

/// The chunks as plain numbers.
pub open spec fn chunk_views(v: Seq<CopyChunk>) -> Seq<(int, int, int, int)> {
    Seq::new(v.len(), |k: int| (v[k].page.0 as int, v[k].offset as int, v[k].from as int, v[k].len as int))
}

/// The pieces of a copy of `len` bytes to `addr` in memory that a page
/// table maps: the caller finds each page's frame and copies the piece there.
pub fn copy_plan(addr: VirtAddr, len: usize) -> (r: Vec<CopyChunk>)
    requires
        addr.0 + len + PAGE_SIZE <= usize::MAX,
    ensures
        chunk_views(r@) == copy_plan_spec(addr.0 as int, len as int),
{
    let pages_required = (len + PAGE_SIZE - 1) / PAGE_SIZE + 1;
    let ghost n = copy_steps(len as int);
    let mut out: Vec<CopyChunk> = Vec::new();
    let mut copied: usize = 0;
    let mut to_copy: usize = len;
    let mut i: usize = 0;
    while i < pages_required
        invariant
            pages_required == n,
            addr.0 + len + PAGE_SIZE <= usize::MAX,
            copied + to_copy == len,
            i == 0 ==> copied == 0,
            0 <= i <= pages_required,
            chunk_views(out@) + chunks_from(addr.0 as int, copied as int, to_copy as int, i as int, n)
                == copy_plan_spec(addr.0 as int, len as int),
        decreases pages_required - i,
    {
        let page = VirtAddr(addr.0 + copied).to_previous_page();
        let diff = if i == 0 {
            addr.0 - page.0
        } else {
            0
        };
        proof {
            let x = (addr.0 + copied) as int;
            assert((x / 4096) * 4096 <= x && x - (x / 4096) * 4096 < 4096) by (nonlinear_arith);
        }
        let will_copy = if to_copy + diff >= PAGE_SIZE {
            PAGE_SIZE - diff
        } else {
            to_copy
        };
        if will_copy == 0 {
            assert(chunk_views(out@) =~= copy_plan_spec(addr.0 as int, len as int));
            return out;
        }
        let ghost before = out@;
        out.push(CopyChunk { page, offset: diff, from: copied, len: will_copy });
        proof {
            assert(chunk_views(out@) =~= chunk_views(before).push(
                (page.0 as int, diff as int, copied as int, will_copy as int),
            ));
            let rest = chunks_from(addr.0 as int, copied as int, to_copy as int, i as int, n);
            assert(rest == seq![(page.0 as int, diff as int, copied as int, will_copy as int)] + chunks_from(
                addr.0 as int,
                copied + will_copy,
                to_copy - will_copy,
                i + 1,
                n,
            ));
            assert(chunk_views(out@) + chunks_from(addr.0 as int, copied + will_copy, to_copy - will_copy, i + 1, n)
                =~= chunk_views(before) + rest);
        }
        copied = copied + will_copy;
        to_copy = to_copy - will_copy;
        i = i + 1;
    }
    assert(chunk_views(out@) =~= copy_plan_spec(addr.0 as int, len as int));
    out
}

/// One piece of a copy within a page table: the source page and the place
/// in it, the destination page and the place in it, and how many bytes.
#[derive(Clone, Copy, Debug, PartialEq, Eq, Structural)]
pub struct CopyWithinChunk {
    pub src_page: VirtAddr,
    pub src_offset: usize,
    pub dest_page: VirtAddr,
    pub dest_offset: usize,
    pub len: usize,
}

/// Where in the page `page` a copy of `[start, end)` starts and how many
/// bytes of it the page holds: from `start` to the end of its page (or of
/// the copy, when the copy is shorter) on the first page, up to `end` on the
/// page where `end` falls, and the whole page otherwise.
pub open spec fn within_page(page: int, start: int, end: int) -> (int, int) {
    if page == align_down_spec(start, PAGE_SIZE as int) {
        let offset = start - page;
        let to_next_page = PAGE_SIZE - offset;
        let to_end = end - start;
        (offset, if to_next_page < to_end { to_next_page } else { to_end })
    } else if page == align_down_spec(end, PAGE_SIZE as int) {
        (0, end - page)
    } else {
        (0, PAGE_SIZE as int)
    }
}

/// The number of pages a copy of `size` bytes from or to `a` steps through:
/// from the page of `a` up to, and including, the page of `a + size`.
pub open spec fn within_pages(a: int, size: int) -> int {
    (align_down_spec(a + size + PAGE_SIZE, PAGE_SIZE as int) - align_down_spec(a, PAGE_SIZE as int)) / (PAGE_SIZE as int)
}

/// The pieces of a copy of `size` bytes from `src` to `dest` within one page
/// table: the source and destination pages are stepped through together,
/// as many as the shorter of the two runs; each piece takes the source
/// page's share of the copy, from the source page's place to the
/// destination page's place.
pub open spec fn copy_within_spec(src: int, dest: int, size: int) -> Seq<(int, int, int, int, int)> {
    let ns = within_pages(src, size);
    let nd = within_pages(dest, size);
    let n = if ns < nd { ns } else { nd };
    Seq::new(
        n as nat,
        |k: int|
            {
                let sp = align_down_spec(src, PAGE_SIZE as int) + k * PAGE_SIZE;
                let dp = align_down_spec(dest, PAGE_SIZE as int) + k * PAGE_SIZE;
                let s = within_page(sp, src, src + size);
                let d = within_page(dp, dest, dest + size);
                (sp, s.0, dp, d.0, s.1)
            },
    )
}

/// The pieces as plain numbers.
pub open spec fn within_views(v: Seq<CopyWithinChunk>) -> Seq<(int, int, int, int, int)> {
    Seq::new(
        v.len(),
        |k: int|
            (
                v[k].src_page.0 as int,
                v[k].src_offset as int,
                v[k].dest_page.0 as int,
                v[k].dest_offset as int,
                v[k].len as int,
            ),
    )
}

/// Where in `page` a copy of `[start, end)` starts, and how many bytes of
/// it the page holds.
fn calc_within(page: usize, start: usize, end: usize) -> (r: (usize, usize))
    requires
        start <= end,
        align_down_spec(start as int, PAGE_SIZE as int) <= page,
        page == align_down_spec(end as int, PAGE_SIZE as int) ==> page <= end,
    ensures
        (r.0 as int, r.1 as int) == within_page(page as int, start as int, end as int),
{
    let first = VirtAddr(start).to_previous_page();
    let last = VirtAddr(end).to_previous_page();
    proof {
        let x = start as int;
        assert((x / 4096) * 4096 <= x && x - (x / 4096) * 4096 < 4096) by (nonlinear_arith);
    }
    if page == first.0 {
        let offset_within = start - page;
        let to_next_page = PAGE_SIZE - offset_within;
        let to_end = end - start;
        (offset_within, if to_next_page < to_end { to_next_page } else { to_end })
    } else if page == last.0 {
        (0, end - page)
    } else {
        (0, PAGE_SIZE)
    }
}

/// The pieces of a copy of `size` bytes from `src` to `dest` in memory that
/// one page table maps: the caller finds each page's frame and copies the
/// piece.
pub fn copy_within_plan(src: VirtAddr, dest: VirtAddr, size: usize) -> (r: Vec<CopyWithinChunk>)
    requires
        src.0 + size + PAGE_SIZE <= usize::MAX,
        dest.0 + size + PAGE_SIZE <= usize::MAX,
    ensures
        within_views(r@) == copy_within_spec(src.0 as int, dest.0 as int, size as int),
{
    let end_src = src.0 + size;
    let end_dest = dest.0 + size;
    let src_first = src.to_previous_page();
    let src_last = VirtAddr(end_src + PAGE_SIZE).to_previous_page();
    let dest_first = dest.to_previous_page();
    let dest_last = VirtAddr(end_dest + PAGE_SIZE).to_previous_page();
    proof {
        let a = src.0 as int;
        let b = (end_src + PAGE_SIZE) as int;
        let c = dest.0 as int;
        let d = (end_dest + PAGE_SIZE) as int;
        assert((a / 4096) * 4096 <= a && (b / 4096) * 4096 <= b && (c / 4096) * 4096 <= c && (d / 4096) * 4096
            <= d) by (nonlinear_arith);
        assert((a / 4096) * 4096 <= (b / 4096) * 4096 && (c / 4096) * 4096 <= (d / 4096) * 4096) by (nonlinear_arith)
            requires
                a <= b,
                c <= d,
        ;
    }
    let ns = (src_last.0 - src_first.0) / PAGE_SIZE;
    let nd = (dest_last.0 - dest_first.0) / PAGE_SIZE;
    let n = if ns < nd { ns } else { nd };
    let ghost want = copy_within_spec(src.0 as int, dest.0 as int, size as int);
    let mut out: Vec<CopyWithinChunk> = Vec::new();
    let mut k: usize = 0;
    let mut sp = src_first.0;
    let mut dp = dest_first.0;
    while k < n
        invariant
            0 <= k <= n,
            n == want.len(),
            n <= ns,
            n <= nd,
            ns == (src_last.0 - src_first.0) / 4096,
            nd == (dest_last.0 - dest_first.0) / 4096,
            src_first.0 <= src_last.0 <= usize::MAX,
            dest_first.0 <= dest_last.0 <= usize::MAX,
            src_first.0 == align_down_spec(src.0 as int, 4096),
            dest_first.0 == align_down_spec(dest.0 as int, 4096),
            src_first.0 <= src.0,
            dest_first.0 <= dest.0,
            end_src == src.0 + size,
            end_dest == dest.0 + size,
            k < n ==> sp == src_first.0 + k * 4096,
            k < n ==> dp == dest_first.0 + k * 4096,
            want == copy_within_spec(src.0 as int, dest.0 as int, size as int),
            within_views(out@) == want.subrange(0, k as int),
            out@.len() == k,
        decreases n - k,
    {
        proof {
            assert(sp + 4096 <= src_last.0 && dp + 4096 <= dest_last.0) by (nonlinear_arith)
                requires
                    k < n,
                    n <= ns,
                    n <= nd,
                    ns == (src_last.0 - src_first.0) / 4096,
                    nd == (dest_last.0 - dest_first.0) / 4096,
                    src_first.0 <= src_last.0,
                    dest_first.0 <= dest_last.0,
                    sp == src_first.0 + k * 4096,
                    dp == dest_first.0 + k * 4096,
            ;
        }
        let (s_off, len) = calc_within(sp, src.0, end_src);
        let (d_off, _) = calc_within(dp, dest.0, end_dest);
        let ghost before = out@;
        out.push(CopyWithinChunk { src_page: VirtAddr(sp), src_offset: s_off, dest_page: VirtAddr(dp), dest_offset: d_off, len });
        proof {
            assert(want[k as int] == (sp as int, s_off as int, dp as int, d_off as int, len as int));
            assert forall|j: int| 0 <= j < k + 1 implies #[trigger] within_views(out@)[j] == want[j] by {
                if j < k {
                    assert(within_views(before)[j] == want.subrange(0, k as int)[j]);
                    assert(out@[j] == before[j]);
                }
            }
            assert(within_views(out@) =~= want.subrange(0, k + 1));
        }
        k = k + 1;
        if k < n {
            sp = sp + PAGE_SIZE;
            dp = dp + PAGE_SIZE;
        }
    }
    assert(want.subrange(0, n as int) =~= want);
    out
}

} // verus!

verus! {

/// The chunks `q` copy the bytes `[c, c + t)` of the source in order, each
/// a non-empty piece that stays inside one page and lands at `addr` plus
/// its place in the source.
pub open spec fn chunks_cover(q: Seq<(int, int, int, int)>, addr: int, c: int, t: int) -> bool
    decreases q.len(),
{
    if q.len() == 0 {
        t == 0
    } else {
        let h = q[0];
        &&& h.2 == c
        &&& 0 < h.3 <= t
        &&& 0 <= h.1
        &&& h.1 + h.3 <= PAGE_SIZE
        &&& h.0 % (PAGE_SIZE as int) == 0
        &&& h.0 + h.1 == addr + c
        &&& chunks_cover(q.drop_first(), addr, c + h.3, t - h.3)
    }
}

proof fn lemma_later_chunks_cover(addr: int, c: int, t: int, i: int, n: int)
    requires
        i >= 1,
        addr + c >= 0,
        t >= 0,
        t == 0 || (addr + c) % (PAGE_SIZE as int) == 0,
        n - i >= (t + PAGE_SIZE - 1) / (PAGE_SIZE as int),
    ensures
        chunks_cover(chunks_from(addr, c, t, i, n), addr, c, t),
    decreases n - i,
{
    let q = chunks_from(addr, c, t, i, n);
    if i >= n {
        assert(t == 0) by (nonlinear_arith)
            requires
                t >= 0,
                0 >= (t + 4095) / 4096;
    } else if t > 0 {
        let x = addr + c;
        assert(align_down_spec(x, 4096) == x) by (nonlinear_arith)
            requires
                x >= 0,
                x % 4096 == 0;
        let w = if t >= 4096 { 4096 } else { t };
        assert(n - (i + 1) >= (t - w + 4095) / 4096) by (nonlinear_arith)
            requires
                n - i >= (t + 4095) / 4096,
                t > 0,
                w == (if t >= 4096 { 4096 } else { t });
        assert((x + w) % 4096 == 0 || t - w == 0) by (nonlinear_arith)
            requires
                x % 4096 == 0,
                w == (if t >= 4096 { 4096 } else { t });
        lemma_later_chunks_cover(addr, c + w, t - w, i + 1, n);
        assert(q.drop_first() =~= chunks_from(addr, c + w, t - w, i + 1, n));
    }
}

/// A copy into mapped memory copies every byte of the source exactly once,
/// in order, in pieces that never cross a page: the chunks of `copy_plan`
/// cover `[0, len)`, each landing at `addr` plus its place in the source.
pub proof fn law_copy_plan_covers(addr: usize, len: usize)
    ensures
        chunks_cover(copy_plan_spec(addr as int, len as int), addr as int, 0, len as int),
{
    let a = addr as int;
    let t = len as int;
    let n = copy_steps(t);
    let q = copy_plan_spec(a, t);
    let page = align_down_spec(a, 4096);
    assert(page <= a && a - page < 4096 && page % 4096 == 0) by (nonlinear_arith)
        requires
            a >= 0,
            page == (a / 4096) * 4096;
    let diff = a - page;
    assert(n >= 1) by (nonlinear_arith)
        requires
            n == (t + 4095) / 4096 + 1,
            t >= 0;
    if t > 0 {
        let w = if t + diff >= 4096 { 4096 - diff } else { t };
        assert(n - 1 >= (t - w + 4095) / 4096) by (nonlinear_arith)
            requires
                n == (t + 4095) / 4096 + 1,
                0 < w <= t;
        assert((a + w) % 4096 == 0 || t - w == 0) by (nonlinear_arith)
            requires
                a - page < 4096,
                page % 4096 == 0,
                diff == a - page,
                w == (if t + diff >= 4096 { 4096 - diff } else { t });
        lemma_later_chunks_cover(a, w, t - w, 1, n);
        assert(q.drop_first() =~= chunks_from(a, w, t - w, 1, n));
    }
}

/// The range of pages touched so far, widened by the pages from
/// `start_page` to `end_page`.
pub open spec fn widened(r: Option<(VirtAddr, VirtAddr)>, start_page: VirtAddr, end_page: VirtAddr) -> Option<
    (VirtAddr, VirtAddr),
> {
    match r {
        None => Some((start_page, end_page)),
        Some((a, b)) => Some(
            (if start_page.0 < a.0 { start_page } else { a }, if end_page.0 > b.0 { end_page } else { b }),
        ),
    }
}

/// The work that unmapping leaves for the end of a page-table operation: the
/// range of pages (first and last) whose translations must be flushed, and
/// the frames to give back once they are.
pub struct PendingUnmaps {
    pub unmap_range: Option<(VirtAddr, VirtAddr)>,
    pub frames: Vec<u64>,
}

impl PendingUnmaps {
    /// Nothing pending.
    pub fn new() -> (r: Self)
        ensures
            r.unmap_range is None,
            r.frames@ == Seq::<u64>::empty(),
    {
        PendingUnmaps { unmap_range: None, frames: Vec::new() }
    }

    /// Records the frame of a page just unmapped, to be given back later.
    pub fn on_each_unmap(&mut self, frame: u64)
        ensures
            final(self).frames@ == old(self).frames@.push(frame),
            final(self).unmap_range == old(self).unmap_range,
    {
        self.frames.push(frame);
    }

    /// Widens the range to flush by the pages from `start_page` to `end_page`.
    pub fn after_unmap(&mut self, start_page: VirtAddr, end_page: VirtAddr)
        ensures
            final(self).unmap_range == widened(old(self).unmap_range, start_page, end_page),
            final(self).frames@ == old(self).frames@,
    {
        match self.unmap_range {
            Some((start, end)) => {
                let s = if start_page.0 < start.0 { start_page } else { start };
                let e = if end_page.0 > end.0 { end_page } else { end };
                self.unmap_range = Some((s, e));
            },
            None => {
                self.unmap_range = Some((start_page, end_page));
            },
        }
    }

    /// What finishing the operation does, when anything was unmapped: flush
    /// the pages from the first up to the one past the last, then give back
    /// the recorded frames; `None` when nothing was unmapped.
    pub fn apply(&self) -> (r: Option<(VirtAddr, VirtAddr, Vec<u64>)>)
        requires
            self.unmap_range matches Some((_, e)) ==> e.0 + PAGE_SIZE <= usize::MAX,
        ensures
            match self.unmap_range {
                None => r is None,
                Some((s, e)) => r matches Some((a, b, f)) && a == s && b.0 == e.0 + PAGE_SIZE && f@ == self.frames@,
            },
    {
        match self.unmap_range {
            Some((start, end)) => {
                let mut frames: Vec<u64> = Vec::new();
                let mut i: usize = 0;
                while i < self.frames.len()
                    invariant
                        0 <= i <= self.frames@.len(),
                        frames@ == self.frames@.subrange(0, i as int),
                    decreases self.frames@.len() - i,
                {
                    frames.push(self.frames[i]);
                    i = i + 1;
                    assert(frames@ =~= self.frames@.subrange(0, i as int));
                }
                assert(self.frames@.subrange(0, self.frames@.len() as int) =~= self.frames@);
                Some((start, VirtAddr(end.0 + PAGE_SIZE), frames))
            },
            None => None,
        }
    }
}

} // verus!
