//! The virtual memory manager: an ordered list of regions that tiles an
//! address range, each region free or allocated in one of three ways.
use vstd::prelude::*;
use crate::addr::{VirtAddr, PhysAddr, PAGE_SIZE};
use crate::errors::ErrorStatus;
use crate::paging::{MapToError, PageEntryFlags};

verus! {

/// Access flags of a virtual memory region.
#[derive(Clone, Copy, Debug, PartialEq, Eq, Structural)]
pub struct VMMMFlags(pub u8);

impl VMMMFlags {
    /// By default a region is read-only.
    pub const WRITEABLE: u8 = 1;
    /// By default a region is not executable.
    pub const EXECUTABLE: u8 = 2;
    pub const USER_ACCESSIBLE: u8 = 4;
    pub const UNCACHABLE: u8 = 8;
    pub const FRAMEBUFFER_CACHED: u8 = 16;
    pub const ZEROED: u8 = 32;

    /// Whether every bit of `bits` is set.
    pub fn contains(&self, bits: u8) -> (r: bool)
        ensures
            r == (self.0 & bits == bits),
    {
        self.0 & bits == bits
    }

    /// The page table entry flags that map a region with these flags.
    pub fn to_entry_flags(self) -> (r: PageEntryFlags)
        ensures
            r.0 == entry_flags_spec(self.0),
    {
        let mut map_flags = PageEntryFlags::empty();
        if self.contains(VMMMFlags::WRITEABLE) {
            map_flags.insert(PageEntryFlags::WRITE);
        }
        if !self.contains(VMMMFlags::EXECUTABLE) {
            map_flags.insert(PageEntryFlags::DISABLE_EXEC);
        }
        if self.contains(VMMMFlags::UNCACHABLE) {
            map_flags.insert(PageEntryFlags::DEVICE_UNCACHEABLE);
        }
        if self.contains(VMMMFlags::FRAMEBUFFER_CACHED) {
            map_flags.insert(PageEntryFlags::FRAMEBUFFER_CACHED);
        }
        if self.contains(VMMMFlags::USER_ACCESSIBLE) {
            map_flags.insert(PageEntryFlags::USER_ACCESSIBLE);
        }
        map_flags
    }
}

/// The entry flags for region flags `f`: writable if `f` says so, never
/// executable unless `f` says so, uncached, framebuffer-cached and user
/// accessible as `f` says.
pub open spec fn entry_flags_spec(f: u8) -> u64 {
    let a: u64 = if f & 1 == 1 { 0u64 | 1u64 } else { 0u64 };
    let b: u64 = if f & 2 != 2 { a | 4u64 } else { a };
    let c: u64 = if f & 8 == 8 { b | 8u64 } else { b };
    let d: u64 = if f & 16 == 16 { c | 16u64 } else { c };
    if f & 4 == 4 { d | 2u64 } else { d }
}


/// The page entries of a region follow its flags bit by bit: writable
/// exactly when the region is writeable, not executable exactly when the
/// region is not executable, uncached for device memory exactly when the
/// region is uncachable, framebuffer-cached exactly when the region asks
/// for it, and user-accessible exactly when the region is; no other entry
/// bit is set.
pub proof fn law_entry_flags_follow_region_flags(f: VMMMFlags)
    ensures
        ({
            let e = entry_flags_spec(f.0);
            &&& (e & PageEntryFlags::WRITE == PageEntryFlags::WRITE) == (f.0 & VMMMFlags::WRITEABLE
                == VMMMFlags::WRITEABLE)
            &&& (e & PageEntryFlags::DISABLE_EXEC == PageEntryFlags::DISABLE_EXEC) == (f.0 & VMMMFlags::EXECUTABLE
                != VMMMFlags::EXECUTABLE)
            &&& (e & PageEntryFlags::DEVICE_UNCACHEABLE == PageEntryFlags::DEVICE_UNCACHEABLE) == (f.0
                & VMMMFlags::UNCACHABLE == VMMMFlags::UNCACHABLE)
            &&& (e & PageEntryFlags::FRAMEBUFFER_CACHED == PageEntryFlags::FRAMEBUFFER_CACHED) == (f.0
                & VMMMFlags::FRAMEBUFFER_CACHED == VMMMFlags::FRAMEBUFFER_CACHED)
            &&& (e & PageEntryFlags::USER_ACCESSIBLE == PageEntryFlags::USER_ACCESSIBLE) == (f.0
                & VMMMFlags::USER_ACCESSIBLE == VMMMFlags::USER_ACCESSIBLE)
            &&& e < 32
        }),
{
    let x = f.0;
    let a: u64 = if x & 1 == 1 { 0u64 | 1u64 } else { 0u64 };
    let b: u64 = if x & 2 != 2 { a | 4u64 } else { a };
    let c: u64 = if x & 8 == 8 { b | 8u64 } else { b };
    let d: u64 = if x & 16 == 16 { c | 16u64 } else { c };
    let e: u64 = if x & 4 == 4 { d | 2u64 } else { d };
    assert(entry_flags_spec(x) == e);
    assert((e & 1 == 1) == (x & 1 == 1) && (e & 4 == 4) == (x & 2 != 2) && (e & 8 == 8) == (x & 8 == 8) && (e & 16
        == 16) == (x & 16 == 16) && (e & 2 == 2) == (x & 4 == 4) && e < 32) by (bit_vector)
        requires
            a == (if x & 1 == 1 { 0u64 | 1u64 } else { 0u64 }),
            b == (if x & 2 != 2 { a | 4u64 } else { a }),
            c == (if x & 8 == 8 { b | 8u64 } else { b }),
            d == (if x & 16 == 16 { c | 16u64 } else { c }),
            e == (if x & 4 == 4 { d | 2u64 } else { d }),
    ;
}

} // verus!

verus! {

/// The state of a region.
#[derive(Clone, Copy, Debug, PartialEq, Eq, Structural)]
pub enum ObjectState {
    Free,
    Allocated(VMMMFlags),
    DMAAllocated(VMMMFlags),
    LazyAllocated(VMMMFlags),
}

/// A region of the managed address range.
#[derive(Clone, Copy, Debug)]
pub struct VMMObject {
    pub addr: VirtAddr,
    pub name: &'static str,
    pub state: ObjectState,
    /// Size of the region in bytes.
    pub size: usize,
}

/// What the manager's logic sees of a region: start, size and state.
pub type Region = (int, int, ObjectState);

pub open spec fn region_of(o: VMMObject) -> Region {
    (o.addr.0 as int, o.size as int, o.state)
}

/// The regions of a list of objects, in order.
pub open spec fn layout(s: Seq<VMMObject>) -> Seq<Region> {
    s.map_values(|o: VMMObject| region_of(o))
}

/// Some object of `objs` is the region `[start, start + size)` in state
/// `st`, under the name `name`.
pub open spec fn holds_named(objs: Seq<VMMObject>, start: int, size: int, st: ObjectState, name: &'static str) -> bool {
    exists|k: int|
        0 <= k < objs.len() && #[trigger] objs[k].addr.0 == start && objs[k].size == size && objs[k].state == st
            && objs[k].name == name
}

/// The first address past a region.
pub open spec fn rend(r: Region) -> int {
    r.0 + r.1
}

/// A region in any allocated state.
pub open spec fn is_allocated(st: ObjectState) -> bool {
    !(st is Free)
}

/// Region `i` ends where region `i + 1` starts.
pub open spec fn adj(s: Seq<Region>, i: int) -> bool {
    rend(s[i]) == s[i + 1].0
}

/// The regions tile `[start, start + size)` in ascending order.
pub open spec fn tiles(s: Seq<Region>, start: int, size: int) -> bool {
    &&& s.len() >= 1
    &&& s[0].0 == start
    &&& rend(s.last()) == start + size
    &&& forall|i: int| 0 <= i < s.len() - 1 ==> #[trigger] adj(s, i)
    &&& forall|i: int| 0 <= i < s.len() ==> (#[trigger] s[i]).1 >= 0
}

/// No two neighbouring regions are both free.
pub open spec fn coalesced(s: Seq<Region>) -> bool {
    forall|i: int| 0 <= i < s.len() - 1 ==> !(#[trigger] s[i].2 is Free && s[i + 1].2 is Free)
}

/// Every region holds at least one byte.
pub open spec fn all_nonempty(s: Seq<Region>) -> bool {
    forall|i: int| 0 <= i < s.len() ==> (#[trigger] s[i]).1 > 0
}

/// Regions in order: each ends no later than any later one starts.
pub proof fn lemma_sorted(s: Seq<Region>, start: int, size: int, i: int, j: int)
    requires
        tiles(s, start, size),
        0 <= i < j < s.len(),
    ensures
        rend(s[i]) <= s[j].0,
        start <= s[i].0,
        rend(s[j]) <= start + size,
    decreases j - i,
{
    assert(adj(s, i));
    if j > i + 1 {
        lemma_sorted(s, start, size, i + 1, j);
        assert(s[i + 1].1 >= 0);
    }
    lemma_bounds(s, start, size, i);
    lemma_bounds(s, start, size, j);
}

/// Every region lies within the tiled range.
pub proof fn lemma_bounds(s: Seq<Region>, start: int, size: int, i: int)
    requires
        tiles(s, start, size),
        0 <= i < s.len(),
    ensures
        start <= s[i].0,
        rend(s[i]) <= start + size,
{
    lemma_bounds_lo(s, start, size, i);
    lemma_bounds_hi(s, start, size, i);
}

proof fn lemma_bounds_lo(s: Seq<Region>, start: int, size: int, i: int)
    requires
        tiles(s, start, size),
        0 <= i < s.len(),
    ensures
        start <= s[i].0,
    decreases i,
{
    if i > 0 {
        lemma_bounds_lo(s, start, size, i - 1);
        assert(adj(s, i - 1));
        assert(s[i - 1].1 >= 0);
    }
}

proof fn lemma_bounds_hi(s: Seq<Region>, start: int, size: int, i: int)
    requires
        tiles(s, start, size),
        0 <= i < s.len(),
    ensures
        rend(s[i]) <= start + size,
    decreases s.len() - i,
{
    if i < s.len() - 1 {
        lemma_bounds_hi(s, start, size, i + 1);
        assert(adj(s, i));
        assert(s[i + 1].1 >= 0);
    }
}

/// Replacing regions `i..j` by a run `mid` that tiles the same span keeps the tiling.
pub proof fn lemma_splice(s: Seq<Region>, start: int, size: int, i: int, j: int, mid: Seq<Region>)
    requires
        tiles(s, start, size),
        0 <= i < j <= s.len(),
        tiles(mid, s[i].0, rend(s[j - 1]) - s[i].0),
    ensures
        tiles(s.subrange(0, i) + mid + s.subrange(j, s.len() as int), start, size),
{
    let t = s.subrange(0, i) + mid + s.subrange(j, s.len() as int);
    let n = t.len();
    assert(n == i + mid.len() + (s.len() - j));
    assert forall|k: int| 0 <= k < n - 1 implies #[trigger] adj(t, k) by {
        if k < i - 1 {
            assert(adj(s, k));
        } else if k == i - 1 {
            assert(adj(s, k));
        } else if k < i + mid.len() - 1 {
            assert(adj(mid, k - i));
        } else if k == i + mid.len() - 1 {
            assert(adj(s, j - 1));
        } else {
            let m = k - i - mid.len() + j;
            assert(adj(s, m));
        }
    }
    assert forall|k: int| 0 <= k < n implies (#[trigger] t[k]).1 >= 0 by {
        if k < i {
            assert(s[k].1 >= 0);
        } else if k < i + mid.len() {
            assert(mid[k - i].1 >= 0);
        } else {
            assert(s[k - i - mid.len() + j].1 >= 0);
        }
    }
    if i == 0 {
        assert(t[0] == mid[0]);
    } else {
        assert(t[0] == s[0]);
    }
    if j == s.len() {
        assert(t.last() == mid.last());
    } else {
        assert(t.last() == s.last());
    }
}

} // verus!

verus! {

/// Region `r` contains address `a`.
pub open spec fn contains_addr(r: Region, a: int) -> bool {
    r.0 <= a < rend(r)
}

/// `i` is the first region that contains `a`.
pub open spec fn is_first_containing(s: Seq<Region>, a: int, i: int) -> bool {
    &&& 0 <= i < s.len()
    &&& contains_addr(s[i], a)
    &&& forall|k: int| 0 <= k < i ==> !contains_addr(#[trigger] s[k], a)
}

/// `i` is the first region that starts at `a`.
pub open spec fn is_first_starting(s: Seq<Region>, a: int, i: int) -> bool {
    &&& 0 <= i < s.len()
    &&& s[i].0 == a
    &&& forall|k: int| 0 <= k < i ==> (#[trigger] s[k]).0 != a
}

/// The first region that starts at `a`.
pub open spec fn first_starting(s: Seq<Region>, a: int) -> int {
    choose|i: int| is_first_starting(s, a, i)
}

/// Freeing the region at index `i`: it becomes free and absorbs a free right
/// neighbour, then a free left neighbour.
pub open spec fn free_at_spec(s: Seq<Region>, i: int) -> Seq<Region> {
    let r = s[i];
    let s1 = s.update(i, (r.0, r.1, ObjectState::Free));
    let s2 = if i + 1 < s.len() && s[i + 1].2 is Free {
        s1.subrange(0, i).push((r.0, r.1 + s[i + 1].1, ObjectState::Free)) + s1.subrange(i + 2, s1.len() as int)
    } else {
        s1
    };
    if i > 0 && s[i - 1].2 is Free {
        s2.subrange(0, i - 1).push((s[i - 1].0, s[i - 1].1 + s2[i].1, ObjectState::Free)) + s2.subrange(i + 1, s2.len() as int)
    } else {
        s2
    }
}

/// Giving region `i` the state `st` and the size `fit`; the rest, if any,
/// becomes a free region right after it.
pub open spec fn split_fit_spec(s: Seq<Region>, i: int, fit: int, st: ObjectState) -> Seq<Region> {
    let r = s[i];
    if r.1 > fit {
        s.subrange(0, i).push((r.0, fit, st)).push((r.0 + fit, r.1 - fit, ObjectState::Free)) + s.subrange(i + 1, s.len() as int)
    } else {
        s.update(i, (r.0, r.1, st))
    }
}

/// Carving `size` bytes at `offset` out of region `i`, in state `st`; the
/// bytes before and after, if any, stay free regions of their own.
pub open spec fn split_at_spec(s: Seq<Region>, i: int, offset: int, size: int, st: ObjectState) -> Seq<Region> {
    let r = s[i];
    if offset == 0 {
        split_fit_spec(s, i, size, st)
    } else {
        let left = (r.0, offset, ObjectState::Free);
        let mid = (r.0 + offset, size, st);
        let right_size = r.1 - size - offset;
        let run = if right_size != 0 {
            seq![left, mid, (r.0 + offset + size, right_size, ObjectState::Free)]
        } else {
            seq![left, mid]
        };
        s.subrange(0, i) + run + s.subrange(i + 1, s.len() as int)
    }
}

/// The regions of `s` can hold a request of `size` bytes at index `i`.
pub open spec fn fits(r: Region, size: int) -> bool {
    r.2 is Free && r.1 >= size
}

/// `i` is the last region that can hold `size` bytes.
pub open spec fn is_last_fit(s: Seq<Region>, size: int, i: int) -> bool {
    &&& 0 <= i < s.len()
    &&& fits(s[i], size)
    &&& forall|k: int| i < k < s.len() ==> !fits(#[trigger] s[k], size)
}

/// `i` is the first region that reaches `e`.
pub open spec fn is_first_reaching(s: Seq<Region>, e: int, i: int) -> bool {
    &&& 0 <= i < s.len()
    &&& rend(s[i]) >= e
    &&& forall|k: int| 0 <= k < i ==> rend(#[trigger] s[k]) < e
}

/// Region `r` can serve a request of `size` bytes placed at or after `h`.
pub open spec fn fits_hint(r: Region, h: int, size: int) -> bool {
    (r.0 >= h || rend(r) >= h + size) && r.2 is Free && r.1 >= size
}

/// `i` is the first region that can serve `size` bytes at or after `h`.
pub open spec fn is_first_hint_fit(s: Seq<Region>, h: int, size: int, i: int) -> bool {
    &&& 0 <= i < s.len()
    &&& fits_hint(s[i], h, size)
    &&& forall|k: int| 0 <= k < i ==> !fits_hint(#[trigger] s[k], h, size)
}

proof fn lemma_first_starting_unique(s: Seq<Region>, a: int, i: int)
    requires
        is_first_starting(s, a, i),
    ensures
        first_starting(s, a) == i,
{
    let j = first_starting(s, a);
    assert(is_first_starting(s, a, j));
    if j < i {
        assert(s[j].0 != a);
    } else if i < j {
        assert(s[i].0 != a);
    }
}

} // verus!

verus! {

/// Replacing regions `lo..hi` of `s` by the single region `r`.
pub open spec fn splice1(s: Seq<Region>, lo: int, hi: int, r: Region) -> Seq<Region> {
    s.subrange(0, lo).push(r) + s.subrange(hi, s.len() as int)
}

proof fn lemma_free_at_shape(s: Seq<Region>, start: int, size: int, i: int)
    requires
        tiles(s, start, size),
        0 <= i < s.len(),
    ensures
        ({
            let lo = if i > 0 && s[i - 1].2 is Free { i - 1 } else { i };
            let hi = if i + 1 < s.len() && s[i + 1].2 is Free { i + 2 } else { i + 1 };
            free_at_spec(s, i) == splice1(s, lo, hi, (s[lo].0, rend(s[hi - 1]) - s[lo].0, ObjectState::Free))
        }),
{
    let lo = if i > 0 && s[i - 1].2 is Free { i - 1 } else { i };
    let hi = if i + 1 < s.len() && s[i + 1].2 is Free { i + 2 } else { i + 1 };
    let r = s[i];
    let s1 = s.update(i, (r.0, r.1, ObjectState::Free));
    let right = i + 1 < s.len() && s[i + 1].2 is Free;
    let s2 = if right {
        s1.subrange(0, i).push((r.0, r.1 + s[i + 1].1, ObjectState::Free)) + s1.subrange(i + 2, s1.len() as int)
    } else {
        s1
    };
    if right {
        assert(adj(s, i));
    }
    if i > 0 {
        assert(adj(s, i - 1));
    }
    assert(s2[i] == (r.0, rend(s[hi - 1]) - r.0, ObjectState::Free));
    let target = splice1(s, lo, hi, (s[lo].0, rend(s[hi - 1]) - s[lo].0, ObjectState::Free));
    assert(free_at_spec(s, i) =~= target);
}

proof fn lemma_free_at_wf(s: Seq<Region>, start: int, size: int, i: int)
    requires
        tiles(s, start, size),
        coalesced(s),
        0 <= i < s.len(),
    ensures
        tiles(free_at_spec(s, i), start, size),
        coalesced(free_at_spec(s, i)),
{
    lemma_free_at_shape(s, start, size, i);
    let lo = if i > 0 && s[i - 1].2 is Free { i - 1 } else { i };
    let hi = if i + 1 < s.len() && s[i + 1].2 is Free { i + 2 } else { i + 1 };
    let r = (s[lo].0, rend(s[hi - 1]) - s[lo].0, ObjectState::Free);
    let mid = seq![r];
    lemma_sorted_or_eq(s, start, size, lo, hi - 1);
    lemma_splice(s, start, size, lo, hi, mid);
    assert(s.subrange(0, lo) + mid + s.subrange(hi, s.len() as int) =~= splice1(s, lo, hi, r));
    let t = splice1(s, lo, hi, r);
    assert forall|k: int| 0 <= k < t.len() - 1 implies !(#[trigger] t[k].2 is Free && t[k + 1].2 is Free) by {
        if k < lo - 1 {
            assert(t[k] == s[k] && t[k + 1] == s[k + 1]);
        } else if k == lo - 1 {
            assert(t[k] == s[k]);
            if lo == i - 1 {
                assert(!(s[i - 2].2 is Free && s[i - 1].2 is Free));
            } else {
                assert(!(s[i - 1].2 is Free && s[i].2 is Free) || !(s[i - 1].2 is Free));
            }
        } else if k == lo {
            assert(t[k + 1] == s[hi]);
            if hi == i + 2 {
                assert(!(s[i + 1].2 is Free && s[i + 2].2 is Free));
            }
        } else {
            let m = k - lo - 1 + hi;
            assert(t[k] == s[m] && t[k + 1] == s[m + 1]);
        }
    }
}

proof fn lemma_sorted_or_eq(s: Seq<Region>, start: int, size: int, i: int, j: int)
    requires
        tiles(s, start, size),
        0 <= i <= j < s.len(),
    ensures
        s[i].0 <= rend(s[j]),
        start <= s[i].0,
        rend(s[j]) <= start + size,
{
    if i < j {
        lemma_sorted(s, start, size, i, j);
    }
    lemma_bounds(s, start, size, i);
    lemma_bounds(s, start, size, j);
    assert(s[j].1 >= 0);
    assert(s[i].1 >= 0);
}

} // verus!

verus! {

proof fn lemma_split_fit_wf(s: Seq<Region>, start: int, size: int, i: int, fit: int, st: ObjectState)
    requires
        tiles(s, start, size),
        coalesced(s),
        0 <= i < s.len(),
        s[i].2 is Free,
        0 <= fit,
        is_allocated(st),
    ensures
        tiles(split_fit_spec(s, i, fit, st), start, size),
        coalesced(split_fit_spec(s, i, fit, st)),
        split_fit_spec(s, i, fit, st).len() == s.len() + (if s[i].1 > fit { 1int } else { 0int }),
{
    let r = s[i];
    let t = split_fit_spec(s, i, fit, st);
    let mid = if r.1 > fit {
        seq![(r.0, fit, st), (r.0 + fit, r.1 - fit, ObjectState::Free)]
    } else {
        seq![(r.0, r.1, st)]
    };
    assert(adj(mid, 0) || mid.len() == 1);
    assert(s[i].1 >= 0);
    lemma_splice(s, start, size, i, i + 1, mid);
    assert(s.subrange(0, i) + mid + s.subrange(i + 1, s.len() as int) =~= t);
    assert forall|k: int| 0 <= k < t.len() - 1 implies !(#[trigger] t[k].2 is Free && t[k + 1].2 is Free) by {
        if k < i - 1 {
            assert(t[k] == s[k] && t[k + 1] == s[k + 1]);
        } else if k == i - 1 {
            assert(t[k + 1].2 == st);
        } else if k < i + mid.len() - 1 {
            assert(t[k].2 == st);
        } else if k == i + mid.len() - 1 {
            assert(!(s[i].2 is Free && s[i + 1].2 is Free));
            assert(t[k + 1] == s[i + 1]);
        } else {
            let m = k - mid.len() + 1;
            assert(t[k] == s[m] && t[k + 1] == s[m + 1]);
        }
    }
}

proof fn lemma_split_at_wf(s: Seq<Region>, start: int, size: int, i: int, offset: int, req: int, st: ObjectState)
    requires
        tiles(s, start, size),
        coalesced(s),
        0 <= i < s.len(),
        s[i].2 is Free,
        0 <= offset,
        0 <= req,
        offset + req <= s[i].1,
        is_allocated(st),
    ensures
        tiles(split_at_spec(s, i, offset, req, st), start, size),
        coalesced(split_at_spec(s, i, offset, req, st)),
{
    if offset == 0 {
        lemma_split_fit_wf(s, start, size, i, req, st);
    } else {
        let r = s[i];
        let left = (r.0, offset, ObjectState::Free);
        let midr = (r.0 + offset, req, st);
        let right_size = r.1 - req - offset;
        let run = if right_size != 0 {
            seq![left, midr, (r.0 + offset + req, right_size, ObjectState::Free)]
        } else {
            seq![left, midr]
        };
        let t = split_at_spec(s, i, offset, req, st);
        assert(adj(run, 0));
        assert(run.len() == 3 ==> adj(run, 1));
        lemma_splice(s, start, size, i, i + 1, run);
        assert(forall|k: int| 0 <= k < run.len() ==> (#[trigger] run[k]).1 >= 0);
        assert forall|k: int| 0 <= k < t.len() - 1 implies !(#[trigger] t[k].2 is Free && t[k + 1].2 is Free) by {
            if k < i - 1 {
                assert(t[k] == s[k] && t[k + 1] == s[k + 1]);
            } else if k == i - 1 {
                assert(t[k] == s[i - 1]);
                assert(!(s[i - 1].2 is Free && s[i].2 is Free));
            } else if k < i + run.len() - 1 {
                assert(t[k] == run[k - i] && t[k + 1] == run[k - i + 1]);
            } else if k == i + run.len() - 1 {
                assert(!(s[i].2 is Free && s[i + 1].2 is Free));
                assert(t[k + 1] == s[i + 1]);
            } else {
                let m = k - run.len() + 1;
                assert(t[k] == s[m] && t[k + 1] == s[m + 1]);
            }
        }
    }
}

} // verus!

verus! {

impl VMMObject {
    /// A free region.
    pub fn new_free(addr: VirtAddr, size: usize) -> (r: Self)
        ensures
            r.addr == addr,
            r.size == size,
            r.state == ObjectState::Free,
            r.name == "UNNAMED",
    {
        VMMObject { addr, name: "UNNAMED", state: ObjectState::Free, size }
    }

    /// The start of the region.
    pub fn addr(&self) -> (r: VirtAddr)
        ensures
            r == self.addr,
    {
        self.addr
    }

    /// The size of the region in bytes.
    pub fn size(&self) -> (r: usize)
        ensures
            r == self.size,
    {
        self.size
    }

    /// Whether the region is allocated in any way.
    pub fn allocated(&self) -> (r: bool)
        ensures
            r == is_allocated(self.state),
    {
        match self.state {
            ObjectState::Free => false,
            _ => true,
        }
    }

    /// The first address past the region.
    pub fn region_end(&self) -> (r: VirtAddr)
        requires
            self.addr.0 + self.size <= usize::MAX,
        ensures
            r.0 == self.addr.0 + self.size,
    {
        self.addr.add(self.size)
    }
}

/// The regions of a managed address range.
pub struct VMMInner {
    pub start_addr: VirtAddr,
    pub size: usize,
    pub objects: Vec<VMMObject>,
}

impl VMMInner {
    /// The regions, in address order.
    pub open spec fn regions(&self) -> Seq<Region> {
        layout(self.objects@)
    }

    /// The regions tile the managed range and no two free ones touch.
    pub open spec fn wf(&self) -> bool {
        &&& self.start_addr.0 + self.size <= usize::MAX
        &&& tiles(self.regions(), self.start_addr.0 as int, self.size as int)
        &&& coalesced(self.regions())
    }

    /// `a` lies in the managed range.
    pub open spec fn in_range(&self, a: int) -> bool {
        self.start_addr.0 <= a < self.start_addr.0 + self.size
    }

    /// A manager of `[start_addr, start_addr + size)` holding one free region.
    pub fn new(start_addr: VirtAddr, size: usize) -> (r: Self)
        requires
            start_addr.0 + size <= usize::MAX,
        ensures
            r.wf(),
            r.start_addr == start_addr,
            r.size == size,
            r.regions() == seq![(start_addr.0 as int, size as int, ObjectState::Free)],
    {
        let mut objects = Vec::new();
        objects.push(VMMObject::new_free(start_addr, size));
        let r = VMMInner { start_addr, size, objects };
        assert(r.regions() =~= seq![(start_addr.0 as int, size as int, ObjectState::Free)]);
        r
    }

    /// The number of regions.
    pub fn len(&self) -> (r: usize)
        ensures
            r == self.regions().len(),
    {
        self.objects.len()
    }

    fn find_containing(&self, addr: VirtAddr) -> (i: usize)
        requires
            self.wf(),
            self.in_range(addr.0 as int),
        ensures
            is_first_containing(self.regions(), addr.0 as int, i as int),
    {
        let ghost s = self.regions();
        let mut i: usize = 0;
        loop
            invariant
                self.wf(),
                s == self.regions(),
                s.len() == self.objects.len(),
                self.in_range(addr.0 as int),
                0 <= i < s.len(),
                s[i as int].0 <= addr.0,
                forall|k: int| 0 <= k < i ==> !contains_addr(#[trigger] s[k], addr.0 as int),
            decreases s.len() - i,
        {
            proof {
                lemma_bounds(s, self.start_addr.0 as int, self.size as int, i as int);
            }
            let o = &self.objects[i];
            if o.addr.0 <= addr.0 && addr.0 < o.addr.0 + o.size {
                return i;
            }
            proof {
                assert(s[i as int] == region_of(self.objects@[i as int]));
                assert(!contains_addr(s[i as int], addr.0 as int));
                if i + 1 == s.len() {
                    assert(s.last() == s[i as int]);
                    assert(false);
                } else {
                    assert(adj(s, i as int));
                }
            }
            i = i + 1;
        }
    }

    /// The region that contains `addr`, or `None` when `addr` is outside the managed range.
    pub fn lookup_addr(&self, addr: VirtAddr) -> (r: Option<&VMMObject>)
        requires
            self.wf(),
        ensures
            !self.in_range(addr.0 as int) ==> r is None,
            self.in_range(addr.0 as int) ==> {
                let i = first_containing(self.regions(), addr.0 as int);
                &&& is_first_containing(self.regions(), addr.0 as int, i)
                &&& r == Some(&self.objects@[i])
            },
    {
        if self.start_addr.0 > addr.0 || self.start_addr.0 + self.size <= addr.0 {
            return None;
        }
        let i = self.find_containing(addr);
        proof {
            lemma_first_containing_unique(self.regions(), addr.0 as int, i as int);
        }
        Some(&self.objects[i])
    }
}

} // verus!

verus! {

impl VMMInner {
    /// Freeing at `addr` is defined: inside the range some region starts
    /// exactly at `addr`, and the first such region is allocated.
    pub open spec fn can_free(&self, addr: int) -> bool {
        self.in_range(addr) ==> {
            &&& exists|i: int| is_first_starting(self.regions(), addr, i)
            &&& is_allocated(self.regions()[first_starting(self.regions(), addr)].2)
        }
    }

    fn find_starting(&self, addr: VirtAddr) -> (i: usize)
        requires
            self.wf(),
            exists|j: int| is_first_starting(self.regions(), addr.0 as int, j),
        ensures
            is_first_starting(self.regions(), addr.0 as int, i as int),
            i as int == first_starting(self.regions(), addr.0 as int),
    {
        let ghost s = self.regions();
        let ghost j = first_starting(s, addr.0 as int);
        proof {
            let w = choose|j: int| is_first_starting(s, addr.0 as int, j);
            lemma_first_starting_unique(s, addr.0 as int, w);
        }
        let mut i: usize = 0;
        while i < self.objects.len()
            invariant
                s == self.regions(),
                s.len() == self.objects.len(),
                is_first_starting(s, addr.0 as int, j),
                0 <= i <= j,
            decreases s.len() - i,
        {
            if self.objects[i].addr.0 == addr.0 {
                proof {
                    assert(s[i as int].0 == addr.0);
                    if (i as int) < j {
                        assert(s[i as int].0 != addr.0);
                    }
                }
                return i;
            }
            i = i + 1;
        }
        proof {
            assert(false);
        }
        0
    }

    /// Frees the allocated region that starts at `addr`, merging it with free
    /// neighbours; returns its old state and size, or `None` when `addr` lies
    /// outside the managed range.
    #[verifier::rlimit(100)]
    pub fn deallocate_at(&mut self, addr: VirtAddr) -> (r: Option<(ObjectState, usize)>)
        requires
            old(self).wf(),
            old(self).can_free(addr.0 as int),
        ensures
            final(self).wf(),
            final(self).start_addr == old(self).start_addr,
            final(self).size == old(self).size,
            !old(self).in_range(addr.0 as int) ==> r is None && final(self).regions() == old(self).regions(),
            old(self).in_range(addr.0 as int) ==> {
                let s = old(self).regions();
                let j = first_starting(s, addr.0 as int);
                &&& r == Some((s[j].2, s[j].1 as usize))
                &&& final(self).regions() == free_at_spec(s, j)
            },
    {
        if self.start_addr.0 > addr.0 || self.start_addr.0 + self.size <= addr.0 {
            return None;
        }
        let ghost s = self.regions();
        let ghost start = self.start_addr.0 as int;
        let ghost size = self.size as int;
        let i = self.find_starting(addr);
        let obj = self.objects[i];
        let old_state = obj.state;
        let old_size = obj.size;
        let mut cur = VMMObject { addr: obj.addr, name: obj.name, state: ObjectState::Free, size: obj.size };
        let mut idx = i;
        let ghost s1 = s.update(i as int, (s[i as int].0, s[i as int].1, ObjectState::Free));
        proof {
            lemma_bounds(s, start, size, i as int);
        }
        let n = self.objects.len();
        if i < n - 1 && !self.objects[i + 1].allocated() {
            proof {
                lemma_sorted_or_eq(s, start, size, i as int, i as int + 1);
                assert(adj(s, i as int));
            }
            let right = self.objects.remove(i + 1);
            cur.size = cur.size + right.size;
        }
        self.objects.set(i, cur);
        let ghost s2 = self.regions();
        proof {
            let right = i + 1 < s.len() && s[i as int + 1].2 is Free;
            if right {
                assert(s2 =~= s1.subrange(0, i as int).push((s[i as int].0, s[i as int].1 + s[i as int + 1].1, ObjectState::Free)) + s1.subrange(i as int + 2, s1.len() as int));
            } else {
                assert(s2 =~= s1);
            }
        }
        if i > 0 && !self.objects[i - 1].allocated() {
            proof {
                lemma_sorted_or_eq(s, start, size, i as int - 1, i as int);
                assert(adj(s, i as int - 1));
            }
            let left = self.objects.remove(i - 1);
            cur.addr = left.addr;
            cur.size = cur.size + left.size;
            idx = i - 1;
            self.objects.set(idx, cur);
        }
        proof {
            if i > 0 && s[i as int - 1].2 is Free {
                assert(self.regions() =~= s2.subrange(0, i as int - 1).push((s[i as int - 1].0, s[i as int - 1].1 + s2[i as int].1, ObjectState::Free)) + s2.subrange(i as int + 1, s2.len() as int));
            } else {
                assert(self.regions() =~= s2);
            }
            lemma_free_at_wf(s, start, size, i as int);
        }
        Some((old_state, old_size))
    }
}

} // verus!

verus! {

/// An error of a region allocation.
#[derive(Clone, Copy, Debug, PartialEq, Eq, Structural)]
pub enum VMMAllocError {
    OutOfMemory,
    OutOfRange,
    Used,
    InvalidSize,
}

impl VMMAllocError {
    /// The ABI error status for this error.
    pub fn into_err(self) -> (r: ErrorStatus)
        ensures
            r == match self {
                VMMAllocError::Used => ErrorStatus::AddressAlreadyInUse,
                VMMAllocError::InvalidSize => ErrorStatus::InvalidSize,
                VMMAllocError::OutOfMemory => ErrorStatus::OutOfMemory,
                VMMAllocError::OutOfRange => ErrorStatus::InvalidOffset,
            },
    {
        match self {
            VMMAllocError::Used => ErrorStatus::AddressAlreadyInUse,
            VMMAllocError::InvalidSize => ErrorStatus::InvalidSize,
            VMMAllocError::OutOfMemory => ErrorStatus::OutOfMemory,
            VMMAllocError::OutOfRange => ErrorStatus::InvalidOffset,
        }
    }

    /// The allocation error that a page table error stands for, when there is one:
    /// only a failed frame allocation can reach the manager.
    pub fn from_map_error(value: MapToError) -> (r: Option<VMMAllocError>)
        ensures
            r == match value {
                MapToError::FrameAllocationFailed => Some(VMMAllocError::OutOfMemory),
                _ => None::<VMMAllocError>,
            },
    {
        match value {
            MapToError::FrameAllocationFailed => Some(VMMAllocError::OutOfMemory),
            _ => None,
        }
    }
}

/// The first region that reaches `e`.
pub open spec fn first_reaching(s: Seq<Region>, e: int) -> int {
    choose|i: int| is_first_reaching(s, e, i)
}

/// The last region that can hold `size` bytes.
pub open spec fn last_fit(s: Seq<Region>, size: int) -> int {
    choose|i: int| is_last_fit(s, size, i)
}

/// The first region that can serve `size` bytes at or after `h`.
pub open spec fn first_hint_fit(s: Seq<Region>, h: int, size: int) -> int {
    choose|i: int| is_first_hint_fit(s, h, size, i)
}

/// The outcome of allocating `[a, a + size)` in state `st` in a manager of
/// `[vstart, vstart + vsize)` whose regions are `s`: the result and the new regions.
pub open spec fn alloc_at_spec(s: Seq<Region>, vstart: int, vsize: int, a: int, size: int, st: ObjectState)
    -> (Result<(), VMMAllocError>, Seq<Region>)
{
    let e = a + size;
    if vstart > a || e >= vstart + vsize {
        (Err(VMMAllocError::OutOfRange), s)
    } else {
        let j = first_reaching(s, e);
        if s[j].0 > a || is_allocated(s[j].2) {
            (Err(VMMAllocError::Used), s)
        } else {
            (Ok(()), split_at_spec(s, j, a - s[j].0, size, st))
        }
    }
}

/// The outcome of allocating `size` bytes anywhere, preferring high addresses.
pub open spec fn alloc_next_spec(s: Seq<Region>, size: int, st: ObjectState) -> (Result<int, VMMAllocError>, Seq<Region>) {
    if exists|i: int| is_last_fit(s, size, i) {
        let i = last_fit(s, size);
        (Ok(s[i].0), split_fit_spec(s, i, size, st))
    } else {
        (Err(VMMAllocError::OutOfMemory), s)
    }
}

/// Every region starts on a page boundary and holds whole pages.
pub open spec fn page_aligned(s: Seq<Region>) -> bool {
    forall|i: int| 0 <= i < s.len() ==> (#[trigger] s[i]).0 % (PAGE_SIZE as int) == 0 && s[i].1 % (PAGE_SIZE as int) == 0
}

/// Allocating whole pages among page-aligned regions gives a page-aligned
/// address and keeps the regions page-aligned.
pub proof fn lemma_alloc_next_page_aligned(s: Seq<Region>, size: int, st: ObjectState)
    requires
        page_aligned(s),
        size % (PAGE_SIZE as int) == 0,
    ensures
        page_aligned(alloc_next_spec(s, size, st).1),
        alloc_next_spec(s, size, st).0 matches Ok(a) ==> a % (PAGE_SIZE as int) == 0,
{
    if exists|i: int| is_last_fit(s, size, i) {
        let i = last_fit(s, size);
        assert(is_last_fit(s, size, i));
        let r = s[i];
        let t = split_fit_spec(s, i, size, st);
        assert(r.0 % 4096 == 0 && r.1 % 4096 == 0);
        assert forall|k: int| 0 <= k < t.len() implies (#[trigger] t[k]).0 % (PAGE_SIZE as int) == 0 && t[k].1 % (
        PAGE_SIZE as int) == 0 by {
            if r.1 > size {
                if k < i {
                    assert(t[k] == s[k]);
                } else if k == i {
                    assert(t[k] == (r.0, size, st));
                } else if k == i + 1 {
                    assert(t[k] == (r.0 + size, r.1 - size, ObjectState::Free));
                    assert((r.0 + size) % 4096 == 0);
                    assert((r.1 - size) % 4096 == 0);
                } else {
                    assert(t[k] == s[k - 1]);
                }
            } else {
                if k != i {
                    assert(t[k] == s[k]);
                }
            }
        }
    }
}

/// The outcome of allocating `size` bytes at or after the hint `h`, preferring low addresses.
pub open spec fn alloc_hint_spec(s: Seq<Region>, vstart: int, vsize: int, h: int, size: int, st: ObjectState)
    -> (Result<int, VMMAllocError>, Seq<Region>)
{
    if exists|i: int| is_first_hint_fit(s, h, size, i) {
        let i = first_hint_fit(s, h, size);
        if s[i].0 < h && rend(s[i]) >= h + size {
            let (res, t) = alloc_at_spec(s, vstart, vsize, h, size, st);
            (match res { Ok(_) => Ok(h), Err(e) => Err(e) }, t)
        } else {
            (Ok(s[i].0), split_fit_spec(s, i, size, st))
        }
    } else {
        (Err(VMMAllocError::OutOfMemory), s)
    }
}

proof fn lemma_first_reaching_unique(s: Seq<Region>, e: int, i: int)
    requires
        is_first_reaching(s, e, i),
    ensures
        first_reaching(s, e) == i,
{
    let j = first_reaching(s, e);
    assert(is_first_reaching(s, e, j));
    if j < i {
        assert(rend(s[j]) < e);
    } else if i < j {
        assert(rend(s[i]) < e);
    }
}

proof fn lemma_last_fit_unique(s: Seq<Region>, size: int, i: int)
    requires
        is_last_fit(s, size, i),
    ensures
        last_fit(s, size) == i,
{
    let j = last_fit(s, size);
    assert(is_last_fit(s, size, j));
    if j < i {
        assert(!fits(s[i], size));
    } else if i < j {
        assert(!fits(s[j], size));
    }
}

proof fn lemma_first_hint_fit_unique(s: Seq<Region>, h: int, size: int, i: int)
    requires
        is_first_hint_fit(s, h, size, i),
    ensures
        first_hint_fit(s, h, size) == i,
{
    let j = first_hint_fit(s, h, size);
    assert(is_first_hint_fit(s, h, size, j));
    if j < i {
        assert(!fits_hint(s[j], h, size));
    } else if i < j {
        assert(!fits_hint(s[i], h, size));
    }
}

} // verus!

verus! {

impl VMMObject {
    /// Shrinks the region to `fit` bytes when it is larger; the rest is handed
    /// back as a new free region that starts where this one now ends.
    pub fn split_to_fit(&mut self, fit: usize) -> (r: Option<VMMObject>)
        requires
            old(self).addr.0 + old(self).size <= usize::MAX,
        ensures
            old(self).size > fit ==> {
                &&& final(self).size == fit
                &&& final(self).addr == old(self).addr
                &&& final(self).state == old(self).state
                &&& final(self).name == old(self).name
                &&& r matches Some(rest) && rest.addr.0 == old(self).addr.0 + fit
                    && rest.size == old(self).size - fit && rest.state == ObjectState::Free
            },
            old(self).size <= fit ==> r is None && *final(self) == *old(self),
    {
        if self.size > fit {
            let rest_size = self.size - fit;
            let rest_addr = self.addr.add(fit);
            let rest = VMMObject::new_free(rest_addr, rest_size);
            self.size = self.size - rest_size;
            Some(rest)
        } else {
            None
        }
    }

    /// Narrows the region to `size` bytes starting `offset` bytes in; the bytes
    /// before and after, when there are any, are handed back as new free regions.
    pub fn split_at(&mut self, offset: usize, size: usize) -> (r: (Option<VMMObject>, Option<VMMObject>))
        requires
            old(self).addr.0 + old(self).size <= usize::MAX,
            offset + size <= old(self).size,
        ensures
            final(self).state == old(self).state,
            final(self).name == old(self).name,
            offset == 0 ==> r.0 is None && ({
                let sub = old(self).size > size;
                &&& final(self).addr == old(self).addr
                &&& final(self).size == (if sub { size } else { old(self).size })
                &&& (sub ==> (r.1 matches Some(rest) && rest.addr.0 == old(self).addr.0 + size
                    && rest.size == old(self).size - size && rest.state == ObjectState::Free))
                &&& (!sub ==> r.1 is None)
            }),
            offset != 0 ==> {
                let right_size = old(self).size - size - offset;
                &&& final(self).addr.0 == old(self).addr.0 + offset
                &&& final(self).size == size
                &&& r.0 matches Some(left) && left.addr == old(self).addr && left.size == offset
                    && left.state == ObjectState::Free
                &&& (right_size != 0 ==> (r.1 matches Some(right)
                    && right.addr.0 == old(self).addr.0 + offset + size && right.size == right_size
                    && right.state == ObjectState::Free))
                &&& (right_size == 0 ==> r.1 is None)
            },
    {
        if offset == 0 {
            let rest = self.split_to_fit(size);
            return (None, rest);
        }
        let left = VMMObject::new_free(self.addr, offset);
        let right_addr = self.addr.add(offset + size);
        let right_size = self.size - size - offset;
        let right = if right_size != 0 {
            Some(VMMObject::new_free(right_addr, right_size))
        } else {
            None
        };
        self.addr = self.addr.add(offset);
        self.size = size;
        (Some(left), right)
    }
}

} // verus!

verus! {

impl VMMInner {
    #[verifier::spinoff_prover]
    fn fit_region(&mut self, i: usize, fit: usize, st: ObjectState, name: &'static str)
        requires
            old(self).wf(),
            0 <= i < old(self).objects.len(),
            old(self).regions()[i as int].2 is Free,
            is_allocated(st),
        ensures
            final(self).wf(),
            final(self).start_addr == old(self).start_addr,
            final(self).size == old(self).size,
            final(self).regions() == split_fit_spec(old(self).regions(), i as int, fit as int, st),
            final(self).objects@[i as int].name == name,
            old(self).regions()[i as int].1 >= fit ==> holds_named(
                final(self).objects@,
                old(self).regions()[i as int].0,
                fit as int,
                st,
                name,
            ),
    {
        let ghost s = self.regions();
        proof {
            lemma_bounds(s, self.start_addr.0 as int, self.size as int, i as int);
            lemma_split_fit_wf(s, self.start_addr.0 as int, self.size as int, i as int, fit as int, st);
        }
        let mut obj = self.objects[i];
        obj.state = st;
        obj.name = name;
        let rest = obj.split_to_fit(fit);
        self.objects.set(i, obj);
        match rest {
            Some(rest) => {
                self.objects.insert(i + 1, rest);
            },
            None => {},
        }
        assert(self.regions() =~= split_fit_spec(s, i as int, fit as int, st));
        assert(self.objects@[i as int] == obj);
        assert(s[i as int] == region_of(old(self).objects@[i as int]));
        proof {
            if s[i as int].1 >= fit {
                let objs = self.objects@;
                assert(objs[i as int].addr.0 == s[i as int].0 && objs[i as int].size == fit && objs[i as int].state
                    == st && objs[i as int].name == name);
                assert(holds_named(objs, s[i as int].0, fit as int, st, name));
            }
        }
    }

    fn carve_region(&mut self, i: usize, offset: usize, size: usize, st: ObjectState, name: &'static str)
        requires
            old(self).wf(),
            0 <= i < old(self).objects.len(),
            old(self).regions()[i as int].2 is Free,
            offset + size <= old(self).regions()[i as int].1,
            is_allocated(st),
        ensures
            final(self).wf(),
            final(self).start_addr == old(self).start_addr,
            final(self).size == old(self).size,
            final(self).regions() == split_at_spec(old(self).regions(), i as int, offset as int, size as int, st),
            holds_named(final(self).objects@, old(self).regions()[i as int].0 + offset, size as int, st, name),
    {
        let ghost s = self.regions();
        proof {
            lemma_bounds(s, self.start_addr.0 as int, self.size as int, i as int);
            lemma_split_at_wf(s, self.start_addr.0 as int, self.size as int, i as int, offset as int, size as int, st);
        }
        let mut obj = self.objects[i];
        obj.state = st;
        obj.name = name;
        let (left, right) = obj.split_at(offset, size);
        self.objects.set(i, obj);
        match right {
            Some(r) => {
                self.objects.insert(i + 1, r);
            },
            None => {},
        }
        assert(self.objects@[i as int] == obj);
        match left {
            Some(l) => {
                self.objects.insert(i, l);
                assert(self.objects@[i + 1] == obj);
            },
            None => {},
        }
        assert(self.regions() =~= split_at_spec(s, i as int, offset as int, size as int, st));
        proof {
            let k = if offset == 0 { i as int } else { i + 1 };
            assert(self.objects@[k] == obj);
            assert(s[i as int] == region_of(old(self).objects@[i as int]));
        }
    }

    /// Allocates exactly `[start_addr, start_addr + size)` in state `obj_state`.
    pub fn allocate_at(&mut self, name: &'static str, start_addr: VirtAddr, size: usize, obj_state: ObjectState)
        -> (r: Result<(), VMMAllocError>)
        requires
            old(self).wf(),
            start_addr.0 + size <= usize::MAX,
            is_allocated(obj_state),
        ensures
            final(self).wf(),
            final(self).start_addr == old(self).start_addr,
            final(self).size == old(self).size,
            (r, final(self).regions()) == alloc_at_spec(old(self).regions(), old(self).start_addr.0 as int,
                old(self).size as int, start_addr.0 as int, size as int, obj_state),
            r is Ok ==> holds_named(final(self).objects@, start_addr.0 as int, size as int, obj_state, name),
    {
        let ghost s = self.regions();
        let ghost vstart = self.start_addr.0 as int;
        let ghost vsize = self.size as int;
        let end_addr = start_addr.add(size);
        if self.start_addr.0 > start_addr.0 || end_addr.0 >= self.start_addr.0 + self.size {
            return Err(VMMAllocError::OutOfRange);
        }
        let mut i: usize = 0;
        loop
            invariant
                self.wf(),
                s == self.regions(),
                s == old(self).regions(),
                self.start_addr == old(self).start_addr,
                self.size == old(self).size,
                s.len() == self.objects.len(),
                vstart == self.start_addr.0,
                vsize == self.size,
                vstart <= start_addr.0,
                end_addr.0 == start_addr.0 + size,
                end_addr.0 < vstart + vsize,
                is_allocated(obj_state),
                0 <= i < s.len(),
                forall|k: int| 0 <= k < i ==> rend(#[trigger] s[k]) < end_addr.0 && s[k].0 <= start_addr.0,
            decreases s.len() - i,
        {
            proof {
                lemma_bounds(s, vstart, vsize, i as int);
            }
            let cur = self.objects[i];
            if cur.addr.0 > start_addr.0 {
                proof {
                    let ghost j = first_reaching(s, end_addr.0 as int);
                    self.lemma_reaching_exists(end_addr.0 as int);
                    assert(rend(s[j]) >= end_addr.0);
                    if j < i {
                        assert(rend(s[j]) < end_addr.0);
                    } else if j > i {
                        lemma_sorted(s, vstart, vsize, i as int, j);
                        assert(s[i as int].1 >= 0);
                    }
                }
                return Err(VMMAllocError::Used);
            }
            if cur.addr.0 + cur.size >= end_addr.0 {
                proof {
                    assert(is_first_reaching(s, end_addr.0 as int, i as int));
                    lemma_first_reaching_unique(s, end_addr.0 as int, i as int);
                }
                if cur.allocated() {
                    return Err(VMMAllocError::Used);
                }
                let offset = start_addr.0 - cur.addr.0;
                self.carve_region(i, offset, size, obj_state, name);
                return Ok(());
            }
            proof {
                if i + 1 == s.len() {
                    assert(s.last() == s[i as int]);
                    assert(false);
                }
            }
            i = i + 1;
        }
    }

    proof fn lemma_reaching_exists(&self, e: int)
        requires
            self.wf(),
            e < self.start_addr.0 + self.size,
        ensures
            is_first_reaching(self.regions(), e, first_reaching(self.regions(), e)),
    {
        let s = self.regions();
        lemma_reaching_from(s, e, 0);
    }
}

proof fn lemma_reaching_from(s: Seq<Region>, e: int, k: int)
    requires
        0 <= k < s.len(),
        rend(s.last()) >= e,
        forall|m: int| 0 <= m < k ==> rend(#[trigger] s[m]) < e,
    ensures
        is_first_reaching(s, e, first_reaching(s, e)),
    decreases s.len() - k,
{
    if rend(s[k]) >= e {
        assert(is_first_reaching(s, e, k));
        lemma_first_reaching_unique(s, e, k);
    } else {
        if k + 1 == s.len() {
            assert(s.last() == s[k]);
        } else {
            lemma_reaching_from(s, e, k + 1);
        }
    }
}

} // verus!

verus! {

/// An allocation result with the address taken as an integer.
pub open spec fn addr_result(r: Result<VirtAddr, VMMAllocError>) -> Result<int, VMMAllocError> {
    match r {
        Ok(a) => Ok(a.0 as int),
        Err(e) => Err(e),
    }
}

impl VMMInner {
    fn find_last_fit(&self, size: usize) -> (r: Option<usize>)
        ensures
            r matches Some(i) ==> is_last_fit(self.regions(), size as int, i as int),
            r is None ==> !exists|j: int| is_last_fit(self.regions(), size as int, j),
    {
        let ghost s = self.regions();
        let n = self.objects.len();
        let mut i = n;
        while i > 0
            invariant
                s == self.regions(),
                n == s.len(),
                n == self.objects.len(),
                0 <= i <= n,
                forall|k: int| i <= k < n ==> !fits(#[trigger] s[k], size as int),
            decreases i,
        {
            i = i - 1;
            let cur = &self.objects[i];
            if !cur.allocated() && cur.size >= size {
                assert(is_last_fit(s, size as int, i as int));
                return Some(i);
            }
        }
        None
    }

    fn find_first_hint_fit(&self, h: VirtAddr, size: usize) -> (r: Option<usize>)
        requires
            self.wf(),
            h.0 + size <= usize::MAX,
        ensures
            r matches Some(i) ==> is_first_hint_fit(self.regions(), h.0 as int, size as int, i as int),
            r is None ==> !exists|j: int| is_first_hint_fit(self.regions(), h.0 as int, size as int, j),
    {
        let ghost s = self.regions();
        let n = self.objects.len();
        let h_end = h.add(size);
        let mut i: usize = 0;
        while i < n
            invariant
                self.wf(),
                s == self.regions(),
                n == s.len(),
                n == self.objects.len(),
                h_end.0 == h.0 + size,
                0 <= i <= n,
                forall|k: int| 0 <= k < i ==> !fits_hint(#[trigger] s[k], h.0 as int, size as int),
            decreases n - i,
        {
            let cur = &self.objects[i];
            proof {
                lemma_bounds(s, self.start_addr.0 as int, self.size as int, i as int);
            }
            let end = cur.addr.0 + cur.size;
            if (cur.addr.0 >= h.0 || end >= h_end.0) && !cur.allocated() && cur.size >= size {
                assert(is_first_hint_fit(s, h.0 as int, size as int, i as int));
                return Some(i);
            }
            i = i + 1;
        }
        None
    }

    /// Allocates `size` bytes in state `allocation_state`: without a hint in the
    /// free region nearest the top that can hold them, at its start; with a hint
    /// in the first free region at or after the hint, taking exactly the hint's
    /// address when the hint falls inside that region.
    pub fn allocate_next_region(&mut self, name: &'static str, hint: Option<VirtAddr>, size: usize,
        allocation_state: ObjectState) -> (r: Result<VirtAddr, VMMAllocError>)
        requires
            old(self).wf(),
            is_allocated(allocation_state),
            hint matches Some(h) ==> h.0 + size <= usize::MAX,
        ensures
            final(self).wf(),
            final(self).start_addr == old(self).start_addr,
            final(self).size == old(self).size,
            hint is None ==> (addr_result(r), final(self).regions())
                == alloc_next_spec(old(self).regions(), size as int, allocation_state),
            hint matches Some(h) ==> (addr_result(r), final(self).regions())
                == alloc_hint_spec(old(self).regions(), old(self).start_addr.0 as int, old(self).size as int,
                    h.0 as int, size as int, allocation_state),
            r matches Ok(a) ==> holds_named(final(self).objects@, a.0 as int, size as int, allocation_state, name),
    {
        let ghost s = self.regions();
        match hint {
            None => {
                match self.find_last_fit(size) {
                    Some(i) => {
                        proof {
                            lemma_last_fit_unique(s, size as int, i as int);
                        }
                        let addr = self.objects[i].addr;
                        self.fit_region(i, size, allocation_state, name);
                        Ok(addr)
                    },
                    None => Err(VMMAllocError::OutOfMemory),
                }
            },
            Some(h) => {
                match self.find_first_hint_fit(h, size) {
                    Some(i) => {
                        proof {
                            lemma_first_hint_fit_unique(s, h.0 as int, size as int, i as int);
                            lemma_bounds(s, self.start_addr.0 as int, self.size as int, i as int);
                        }
                        let cur = self.objects[i];
                        if cur.addr.0 < h.0 && cur.addr.0 + cur.size >= h.0 + size {
                            let res = self.allocate_at(name, h, size, allocation_state);
                            match res {
                                Ok(()) => Ok(h),
                                Err(e) => Err(e),
                            }
                        } else {
                            self.fit_region(i, size, allocation_state, name);
                            Ok(cur.addr)
                        }
                    },
                    None => Err(VMMAllocError::OutOfMemory),
                }
            },
        }
    }
}

} // verus!

verus! {

/// The first region that contains `a`.
pub open spec fn first_containing(s: Seq<Region>, a: int) -> int {
    choose|i: int| is_first_containing(s, a, i)
}

/// Growing region `i` by `extra` bytes taken from the start of its free right
/// neighbour: whether it can, and the new regions.
pub open spec fn grow_spec(s: Seq<Region>, i: int, extra: int) -> (bool, Seq<Region>) {
    if i + 1 < s.len() && s[i + 1].2 is Free && s[i + 1].1 >= extra {
        let r = s[i];
        let n = s[i + 1];
        if n.1 == extra {
            (true, s.subrange(0, i).push((r.0, r.1 + extra, r.2)) + s.subrange(i + 2, s.len() as int))
        } else {
            (true, s.update(i, (r.0, r.1 + extra, r.2)).update(i + 1, (n.0 + extra, n.1 - extra, ObjectState::Free)))
        }
    } else {
        (false, s)
    }
}

proof fn lemma_first_containing_unique(s: Seq<Region>, a: int, i: int)
    requires
        is_first_containing(s, a, i),
    ensures
        first_containing(s, a) == i,
{
    let j = first_containing(s, a);
    assert(is_first_containing(s, a, j));
    if j < i {
        assert(!contains_addr(s[j], a));
    } else if i < j {
        assert(!contains_addr(s[i], a));
    }
}

proof fn lemma_grow_wf(s: Seq<Region>, start: int, size: int, i: int, extra: int)
    requires
        tiles(s, start, size),
        coalesced(s),
        0 <= i < s.len(),
        is_allocated(s[i].2),
        extra >= 0,
    ensures
        tiles(grow_spec(s, i, extra).1, start, size),
        coalesced(grow_spec(s, i, extra).1),
{
    if i + 1 < s.len() && s[i + 1].2 is Free && s[i + 1].1 >= extra {
        let r = s[i];
        let n = s[i + 1];
        let t = grow_spec(s, i, extra).1;
        assert(adj(s, i));
        assert(r.1 >= 0);
        let mid = if n.1 == extra {
            seq![(r.0, r.1 + extra, r.2)]
        } else {
            seq![(r.0, r.1 + extra, r.2), (n.0 + extra, n.1 - extra, ObjectState::Free)]
        };
        assert(mid.len() == 2 ==> adj(mid, 0));
        lemma_splice(s, start, size, i, i + 2, mid);
        assert(s.subrange(0, i) + mid + s.subrange(i + 2, s.len() as int) =~= t);
        assert forall|k: int| 0 <= k < t.len() - 1 implies !(#[trigger] t[k].2 is Free && t[k + 1].2 is Free) by {
            if k < i - 1 {
                assert(t[k] == s[k] && t[k + 1] == s[k + 1]);
            } else if k == i - 1 {
                assert(t[k + 1].2 == r.2);
            } else if k < i + mid.len() - 1 {
                assert(t[k].2 == r.2);
            } else if k == i + mid.len() - 1 {
                assert(!(s[i + 1].2 is Free && s[i + 2].2 is Free));
                assert(t[k + 1] == s[i + 2]);
            } else {
                let m = k - mid.len() + 2;
                assert(t[k] == s[m] && t[k + 1] == s[m + 1]);
            }
        }
    }
}

impl VMMInner {
    /// Growing at `addr` is defined: inside the range the region that holds
    /// `addr` is allocated.
    pub open spec fn can_grow(&self, addr: int) -> bool {
        self.in_range(addr) ==> is_allocated(self.regions()[first_containing(self.regions(), addr)].2)
    }

    /// Grows the allocated region that holds `addr` by `extra_bytes` taken from
    /// its free right neighbour; returns the region's start, state and new size.
    pub fn grow_region(&mut self, addr: VirtAddr, extra_bytes: usize)
        -> (r: Result<(VirtAddr, ObjectState, usize), VMMAllocError>)
        requires
            old(self).wf(),
            old(self).can_grow(addr.0 as int),
        ensures
            final(self).wf(),
            final(self).start_addr == old(self).start_addr,
            final(self).size == old(self).size,
            !old(self).in_range(addr.0 as int) ==> r == Err::<(VirtAddr, ObjectState, usize), VMMAllocError>(VMMAllocError::OutOfRange)
                && final(self).regions() == old(self).regions(),
            old(self).in_range(addr.0 as int) ==> {
                let s = old(self).regions();
                let i = first_containing(s, addr.0 as int);
                let (grew, t) = grow_spec(s, i, extra_bytes as int);
                &&& is_first_containing(s, addr.0 as int, i)
                &&& final(self).regions() == t
                &&& grew ==> (r matches Ok((a, st, sz)) && a.0 == s[i].0 && st == s[i].2 && sz == s[i].1 + extra_bytes)
                &&& !grew ==> r == Err::<(VirtAddr, ObjectState, usize), VMMAllocError>(VMMAllocError::Used)
            },
    {
        if self.start_addr.0 > addr.0 || self.start_addr.0 + self.size <= addr.0 {
            return Err(VMMAllocError::OutOfRange);
        }
        let ghost s = self.regions();
        let i = self.find_containing(addr);
        proof {
            lemma_first_containing_unique(s, addr.0 as int, i as int);
            lemma_grow_wf(s, self.start_addr.0 as int, self.size as int, i as int, extra_bytes as int);
        }
        let n = self.objects.len();
        if i < n - 1 && !self.objects[i + 1].allocated() && self.objects[i + 1].size >= extra_bytes {
            proof {
                lemma_sorted_or_eq(s, self.start_addr.0 as int, self.size as int, i as int, i as int + 1);
                assert(adj(s, i as int));
            }
            let mut obj = self.objects[i];
            let mut next = self.objects[i + 1];
            obj.size = obj.size + extra_bytes;
            if next.size == extra_bytes {
                self.objects.remove(i + 1);
            } else {
                next.addr = next.addr.add(extra_bytes);
                next.size = next.size - extra_bytes;
                self.objects.set(i + 1, next);
            }
            self.objects.set(i, obj);
            assert(self.regions() =~= grow_spec(s, i as int, extra_bytes as int).1);
            Ok((obj.addr, obj.state, obj.size))
        } else {
            Err(VMMAllocError::Used)
        }
    }
}

} // verus!

verus! {

proof fn lemma_starts_before(s: Seq<Region>, start: int, size: int, k: int, i: int)
    requires
        tiles(s, start, size),
        all_nonempty(s),
        0 <= k < i < s.len(),
    ensures
        s[k].0 < s[i].0,
{
    lemma_sorted(s, start, size, k, i);
    assert(s[k].1 > 0);
}

/// Allocating the next region and then freeing it at the address that came
/// back restores the regions exactly, whenever no region is empty.
pub proof fn law_alloc_next_then_free(s: Seq<Region>, start: int, size: int, req: int, st: ObjectState)
    requires
        tiles(s, start, size),
        coalesced(s),
        all_nonempty(s),
        req >= 0,
        is_allocated(st),
        alloc_next_spec(s, req, st).0 is Ok,
    ensures
        ({
            let (res, t) = alloc_next_spec(s, req, st);
            let a = res->Ok_0;
            &&& is_first_starting(t, a, first_starting(t, a))
            &&& is_allocated(t[first_starting(t, a)].2)
            &&& free_at_spec(t, first_starting(t, a)) == s
        }),
{
    let i = last_fit(s, req);
    assert(is_last_fit(s, req, i));
    let t = split_fit_spec(s, i, req, st);
    let a = s[i].0;
    assert forall|k: int| 0 <= k < i implies (#[trigger] t[k]).0 != a by {
        lemma_starts_before(s, start, size, k, i);
        assert(t[k] == s[k]);
    }
    assert(is_first_starting(t, a, i));
    lemma_first_starting_unique(t, a, i);
    lemma_free_after_fit(s, start, size, i, req, st);
}

/// Allocating a positive number of bytes keeps every region non-empty, and
/// the address that comes back lies in the managed range.
pub proof fn lemma_alloc_next_nonempty(s: Seq<Region>, start: int, size: int, req: int, st: ObjectState)
    requires
        tiles(s, start, size),
        all_nonempty(s),
        req > 0,
    ensures
        all_nonempty(alloc_next_spec(s, req, st).1),
        alloc_next_spec(s, req, st).0 matches Ok(a) ==> start <= a < start + size,
{
    if exists|i: int| is_last_fit(s, req, i) {
        let i = last_fit(s, req);
        assert(is_last_fit(s, req, i));
        lemma_bounds(s, start, size, i);
        let r = s[i];
        let t = split_fit_spec(s, i, req, st);
        assert forall|k: int| 0 <= k < t.len() implies (#[trigger] t[k]).1 > 0 by {
            if r.1 > req {
                if k < i {
                    assert(t[k] == s[k]);
                } else if k == i {
                    assert(t[k] == (r.0, req, st));
                } else if k == i + 1 {
                    assert(t[k] == (r.0 + req, r.1 - req, ObjectState::Free));
                } else {
                    assert(t[k] == s[k - 1]);
                }
            } else {
                if k != i {
                    assert(t[k] == s[k]);
                }
            }
        }
    }
}

proof fn lemma_free_after_fit(s: Seq<Region>, start: int, size: int, i: int, req: int, st: ObjectState)
    requires
        tiles(s, start, size),
        coalesced(s),
        0 <= i < s.len(),
        s[i].2 is Free,
        s[i].1 >= req >= 0,
        is_allocated(st),
    ensures
        free_at_spec(split_fit_spec(s, i, req, st), i) == s,
{
    let t = split_fit_spec(s, i, req, st);
    if i > 0 {
        assert(!(s[i - 1].2 is Free && s[i].2 is Free));
        assert(t[i - 1] == s[i - 1]);
    }
    if s[i].1 > req {
        assert(t[i + 1].2 is Free);
        if i + 1 < s.len() {
            assert(!(s[i].2 is Free && s[i + 1].2 is Free));
        }
        assert(free_at_spec(t, i) =~= s);
    } else {
        if i + 1 < s.len() {
            assert(!(s[i].2 is Free && s[i + 1].2 is Free));
            assert(t[i + 1] == s[i + 1]);
        }
        assert(free_at_spec(t, i) =~= s);
    }
}

/// Allocating a fixed range and then freeing it at the same address restores
/// the regions exactly, whenever no region is empty.
pub proof fn law_alloc_at_then_free(s: Seq<Region>, start: int, size: int, a: int, req: int, st: ObjectState)
    requires
        tiles(s, start, size),
        coalesced(s),
        all_nonempty(s),
        req >= 0,
        is_allocated(st),
        alloc_at_spec(s, start, size, a, req, st).0 is Ok,
    ensures
        ({
            let t = alloc_at_spec(s, start, size, a, req, st).1;
            &&& is_first_starting(t, a, first_starting(t, a))
            &&& is_allocated(t[first_starting(t, a)].2)
            &&& free_at_spec(t, first_starting(t, a)) == s
        }),
{
    let e = a + req;
    lemma_reaching_from(s, e, 0);
    let j = first_reaching(s, e);
    let off = a - s[j].0;
    let t = split_at_spec(s, j, off, req, st);
    if off == 0 {
        assert forall|k: int| 0 <= k < j implies (#[trigger] t[k]).0 != a by {
            lemma_starts_before(s, start, size, k, j);
        }
        assert(is_first_starting(t, a, j));
        lemma_first_starting_unique(t, a, j);
        lemma_free_after_fit(s, start, size, j, req, st);
    } else {
        let r = s[j];
        assert forall|k: int| 0 <= k < j + 1 implies (#[trigger] t[k]).0 != a by {
            if k < j {
                lemma_starts_before(s, start, size, k, j);
                assert(t[k] == s[k]);
            }
        }
        assert(t[j + 1].0 == a);
        assert(is_first_starting(t, a, j + 1));
        lemma_first_starting_unique(t, a, j + 1);
        if j > 0 {
            assert(!(s[j - 1].2 is Free && s[j].2 is Free));
        }
        let right_size = r.1 - req - off;
        if right_size == 0 && j + 1 < s.len() {
            assert(!(s[j].2 is Free && s[j + 1].2 is Free));
            assert(t[j + 2] == s[j + 1]);
        }
        assert(free_at_spec(t, j + 1) =~= s);
    }
}

} // verus!

verus! {

/// When every region is free, the range is a single region.
pub proof fn law_all_free_is_single(s: Seq<Region>, start: int, size: int)
    requires
        tiles(s, start, size),
        coalesced(s),
        forall|i: int| 0 <= i < s.len() ==> (#[trigger] s[i]).2 is Free,
    ensures
        s.len() == 1,
{
    if s.len() > 1 {
        assert(s[0].2 is Free && s[1].2 is Free);
        assert(!(s[0int].2 is Free && s[0int + 1].2 is Free));
    }
}

/// The starts of the allocated regions of `s`.
pub open spec fn alloc_starts(s: Seq<Region>) -> Set<int> {
    Set::new(|a: int| exists|k: int| 0 <= k < s.len() && #[trigger] s[k].0 == a && is_allocated(s[k].2))
}

/// The regions after the regions starting at each of `addrs` are freed, in
/// that order.
pub open spec fn free_all(s: Seq<Region>, addrs: Seq<int>) -> Seq<Region>
    decreases addrs.len(),
{
    if addrs.len() == 0 {
        s
    } else {
        free_all(free_at_spec(s, first_starting(s, addrs[0])), addrs.drop_first())
    }
}

/// Freeing an allocated region takes exactly its start out of the starts of
/// the allocated regions, and keeps every region non-empty.
#[verifier::spinoff_prover]
#[verifier::rlimit(60)]
proof fn lemma_free_alloc_starts(s: Seq<Region>, start: int, size: int, i: int)
    requires
        tiles(s, start, size),
        coalesced(s),
        all_nonempty(s),
        0 <= i < s.len(),
        is_allocated(s[i].2),
    ensures
        alloc_starts(free_at_spec(s, i)) == alloc_starts(s).remove(s[i].0),
        all_nonempty(free_at_spec(s, i)),
{
    lemma_free_at_shape(s, start, size, i);
    let lo = if i > 0 && s[i - 1].2 is Free { i - 1 } else { i };
    let hi = if i + 1 < s.len() && s[i + 1].2 is Free { i + 2 } else { i + 1 };
    let r = (s[lo].0, rend(s[hi - 1]) - s[lo].0, ObjectState::Free);
    let t = splice1(s, lo, hi, r);
    lemma_sorted_or_eq(s, start, size, lo, hi - 1);
    assert(t.len() == s.len() - (hi - lo) + 1);
    assert forall|k: int| 0 <= k < t.len() implies (#[trigger] t[k]).1 > 0 by {
        if k < lo {
            assert(t[k] == s[k]);
        } else if k == lo {
            assert(s[hi - 1].1 > 0);
            if lo < hi - 1 {
                lemma_sorted(s, start, size, lo, hi - 1);
            }
        } else {
            assert(t[k] == s[k - lo - 1 + hi]);
        }
    }
    let a = s[i].0;
    assert forall|x: int| alloc_starts(t).contains(x) <==> alloc_starts(s).remove(a).contains(x) by {
        if alloc_starts(t).contains(x) {
            let k = choose|k: int| 0 <= k < t.len() && #[trigger] t[k].0 == x && is_allocated(t[k].2);
            let m = if k < lo { k } else { k - lo - 1 + hi };
            assert(k != lo);
            assert(t[k] == s[m]);
            assert(m != i);
            if m < i {
                lemma_starts_before(s, start, size, m, i);
            } else {
                lemma_starts_before(s, start, size, i, m);
            }
            assert(alloc_starts(s).contains(x));
        }
        if alloc_starts(s).remove(a).contains(x) {
            let m = choose|m: int| 0 <= m < s.len() && #[trigger] s[m].0 == x && is_allocated(s[m].2);
            assert(m != i);
            assert(m < lo || m >= hi);
            let k = if m < lo { m } else { m - hi + lo + 1 };
            assert(t[k] == s[m]);
            assert(alloc_starts(t).contains(x));
        }
    }
    assert(alloc_starts(t) =~= alloc_starts(s).remove(a));
}

/// Freeing every allocated region, one after the other in any order, leaves
/// the whole range a single free region.
pub proof fn law_free_all_in_any_order(s: Seq<Region>, start: int, size: int, addrs: Seq<int>)
    requires
        tiles(s, start, size),
        coalesced(s),
        all_nonempty(s),
        addrs.no_duplicates(),
        addrs.to_set() == alloc_starts(s),
    ensures
        free_all(s, addrs) == seq![(start, size, ObjectState::Free)],
    decreases addrs.len(),
{
    if addrs.len() == 0 {
        assert forall|i: int| 0 <= i < s.len() implies (#[trigger] s[i]).2 is Free by {
            if is_allocated(s[i].2) {
                assert(alloc_starts(s).contains(s[i].0));
                assert(addrs.to_set().contains(s[i].0));
            }
        }
        law_all_free_is_single(s, start, size);
        assert(s =~= seq![(start, size, ObjectState::Free)]);
    } else {
        let a = addrs[0];
        assert(addrs.to_set().contains(a));
        let i = choose|k: int| 0 <= k < s.len() && #[trigger] s[k].0 == a && is_allocated(s[k].2);
        assert forall|k: int| 0 <= k < i implies (#[trigger] s[k]).0 != a by {
            lemma_starts_before(s, start, size, k, i);
        }
        assert(is_first_starting(s, a, i));
        lemma_first_starting_unique(s, a, i);
        lemma_free_alloc_starts(s, start, size, i);
        lemma_free_at_wf(s, start, size, i);
        let rest = addrs.drop_first();
        assert(rest.no_duplicates());
        assert forall|x: int| rest.to_set().contains(x) <==> addrs.to_set().remove(a).contains(x) by {
            if rest.to_set().contains(x) {
                let j = choose|j: int| 0 <= j < rest.len() && rest[j] == x;
                assert(addrs[j + 1] == x);
                assert(x != a);
            }
            if addrs.to_set().remove(a).contains(x) {
                let j = choose|j: int| 0 <= j < addrs.len() && addrs[j] == x;
                assert(j != 0);
                assert(rest[j - 1] == x);
            }
        }
        assert(rest.to_set() =~= addrs.to_set().remove(a));
        law_free_all_in_any_order(free_at_spec(s, i), start, size, rest);
    }
}

/// Where a new region should be placed.
#[derive(Clone, Copy, Debug)]
pub enum Location {
    /// Anywhere at or after the address.
    Hint(VirtAddr),
    /// Exactly at the address.
    Fixed(VirtAddr),
}

/// How a new region is backed.
#[derive(Clone, Copy, Debug, PartialEq, Eq, Structural)]
pub enum VMMAllocMode {
    /// Backed by fresh frames right away.
    Normal,
    /// Backed by frames on first access.
    Lazy,
}

/// The outcome of placing a region of `size` bytes in state `st` at `location`.
pub open spec fn place_spec(s: Seq<Region>, vstart: int, vsize: int, location: Option<Location>, size: int,
    st: ObjectState) -> (Result<int, VMMAllocError>, Seq<Region>)
{
    match location {
        Some(Location::Fixed(a)) => {
            let (res, t) = alloc_at_spec(s, vstart, vsize, a.0 as int, size, st);
            (match res { Ok(_) => Ok(a.0 as int), Err(e) => Err(e) }, t)
        },
        None => alloc_next_spec(s, size, st),
        Some(Location::Hint(h)) => alloc_hint_spec(s, vstart, vsize, h.0 as int, size, st),
    }
}

/// A location whose arithmetic stays within the address space for `size` bytes.
pub open spec fn location_ok(location: Option<Location>, size: int) -> bool {
    match location {
        Some(Location::Fixed(a)) => a.0 + size <= usize::MAX,
        Some(Location::Hint(h)) => h.0 + size <= usize::MAX,
        None => true,
    }
}

/// A virtual memory manager: the regions of its address range.
pub struct VirtualMemoryManager {
    pub inner: VMMInner,
}

impl VirtualMemoryManager {
    pub open spec fn wf(&self) -> bool {
        self.inner.wf()
    }

    pub open spec fn regions(&self) -> Seq<Region> {
        self.inner.regions()
    }

    /// A manager of `[start_addr, start_addr + size)`, all free.
    pub fn new(start_addr: VirtAddr, size: usize) -> (r: Self)
        requires
            start_addr.0 + size <= usize::MAX,
        ensures
            r.wf(),
            r.inner.start_addr == start_addr,
            r.inner.size == size,
            r.regions() == seq![(start_addr.0 as int, size as int, ObjectState::Free)],
    {
        VirtualMemoryManager { inner: VMMInner::new(start_addr, size) }
    }

    /// The manager of a process's lower half: `[0, usize::MAX / 2)`.
    pub fn new_user() -> (r: Self)
        ensures
            r.wf(),
            r.inner.start_addr.0 == 0,
            r.inner.size == usize::MAX / 2,
            r.regions() == seq![(0int, (usize::MAX / 2) as int, ObjectState::Free)],
    {
        Self::new(VirtAddr::null(), usize::MAX / 2)
    }

    /// The number of regions.
    pub fn len(&self) -> (r: usize)
        ensures
            r == self.regions().len(),
    {
        self.inner.len()
    }

    /// The region that holds `addr`, if `addr` is in the managed range.
    pub fn lookup_addr(&self, addr: VirtAddr) -> (r: Option<&VMMObject>)
        requires
            self.wf(),
        ensures
            !self.inner.in_range(addr.0 as int) ==> r is None,
            self.inner.in_range(addr.0 as int) ==> {
                let i = first_containing(self.regions(), addr.0 as int);
                &&& is_first_containing(self.regions(), addr.0 as int, i)
                &&& r == Some(&self.inner.objects@[i])
            },
    {
        self.inner.lookup_addr(addr)
    }

    /// A copy of every region, in address order, for inspection.
    pub fn debug_regions(&self) -> (r: Vec<VMMObject>)
        ensures
            layout(r@) == self.regions(),
    {
        self.inner.debug_regions()
    }

    /// Frees the allocated region that starts at `addr`; see [`VMMInner::deallocate_at`].
    pub fn deallocate_at(&mut self, addr: VirtAddr) -> (r: Option<(ObjectState, usize)>)
        requires
            old(self).wf(),
            old(self).inner.can_free(addr.0 as int),
        ensures
            final(self).wf(),
            final(self).inner.start_addr == old(self).inner.start_addr,
            final(self).inner.size == old(self).inner.size,
            !old(self).inner.in_range(addr.0 as int) ==> r is None && final(self).regions() == old(self).regions(),
            old(self).inner.in_range(addr.0 as int) ==> {
                let s = old(self).regions();
                let j = first_starting(s, addr.0 as int);
                &&& r == Some((s[j].2, s[j].1 as usize))
                &&& final(self).regions() == free_at_spec(s, j)
            },
    {
        self.inner.deallocate_at(addr)
    }

    /// Frees the region that starts at `start_addr`; `false` when the address
    /// lies outside the managed range. This is the region step alone;
    /// `AddressSpace::unmap` also unmaps the pages and collects their frames.
    pub fn unmap(&mut self, start_addr: VirtAddr) -> (r: bool)
        requires
            old(self).wf(),
            old(self).inner.can_free(start_addr.0 as int),
        ensures
            final(self).wf(),
            final(self).inner.start_addr == old(self).inner.start_addr,
            final(self).inner.size == old(self).inner.size,
            r == old(self).inner.in_range(start_addr.0 as int),
            r ==> final(self).regions() == free_at_spec(old(self).regions(),
                first_starting(old(self).regions(), start_addr.0 as int)),
            !r ==> final(self).regions() == old(self).regions(),
    {
        match self.inner.deallocate_at(start_addr) {
            Some(_) => true,
            None => false,
        }
    }

    /// Allocates exactly `[start_addr, start_addr + size)` in state `obj_state`.
    pub fn allocate_at(&mut self, start_addr: VirtAddr, size: usize, obj_state: ObjectState)
        -> (r: Result<(), VMMAllocError>)
        requires
            old(self).wf(),
            start_addr.0 + size <= usize::MAX,
            is_allocated(obj_state),
        ensures
            final(self).wf(),
            final(self).inner.start_addr == old(self).inner.start_addr,
            final(self).inner.size == old(self).inner.size,
            (r, final(self).regions()) == alloc_at_spec(old(self).regions(), old(self).inner.start_addr.0 as int,
                old(self).inner.size as int, start_addr.0 as int, size as int, obj_state),
            r is Ok ==> holds_named(final(self).inner.objects@, start_addr.0 as int, size as int, obj_state, "UNNAMED"),
    {
        self.inner.allocate_at("UNNAMED", start_addr, size, obj_state)
    }

    /// Allocates `size` bytes in the highest free region that can hold them.
    pub fn allocate_next_region(&mut self, size: usize, allocation_state: ObjectState)
        -> (r: Result<VirtAddr, VMMAllocError>)
        requires
            old(self).wf(),
            is_allocated(allocation_state),
        ensures
            final(self).wf(),
            final(self).inner.start_addr == old(self).inner.start_addr,
            final(self).inner.size == old(self).inner.size,
            (addr_result(r), final(self).regions()) == alloc_next_spec(old(self).regions(), size as int, allocation_state),
            r matches Ok(a) ==> holds_named(final(self).inner.objects@, a.0 as int, size as int, allocation_state,
                "UNNAMED"),
    {
        self.inner.allocate_next_region("UNNAMED", None, size, allocation_state)
    }

    /// Marks `[start_addr, start_addr + size)` as used for DMA with `flags`, without mapping it.
    pub fn mark_used(&mut self, start_addr: VirtAddr, size: usize, flags: VMMMFlags) -> (r: Result<(), VMMAllocError>)
        requires
            old(self).wf(),
            start_addr.0 + size <= usize::MAX,
        ensures
            final(self).wf(),
            final(self).inner.start_addr == old(self).inner.start_addr,
            final(self).inner.size == old(self).inner.size,
            (r, final(self).regions()) == alloc_at_spec(old(self).regions(), old(self).inner.start_addr.0 as int,
                old(self).inner.size as int, start_addr.0 as int, size as int, ObjectState::DMAAllocated(flags)),
            r is Ok ==> holds_named(final(self).inner.objects@, start_addr.0 as int, size as int,
                ObjectState::DMAAllocated(flags), "UNNAMED"),
    {
        self.inner.allocate_at("UNNAMED", start_addr, size, ObjectState::DMAAllocated(flags))
    }

    fn place(&mut self, name: &'static str, location: Option<Location>, size: usize, st: ObjectState)
        -> (r: Result<VirtAddr, VMMAllocError>)
        requires
            old(self).wf(),
            is_allocated(st),
            location_ok(location, size as int),
        ensures
            final(self).wf(),
            final(self).inner.start_addr == old(self).inner.start_addr,
            final(self).inner.size == old(self).inner.size,
            (addr_result(r), final(self).regions()) == place_spec(old(self).regions(),
                old(self).inner.start_addr.0 as int, old(self).inner.size as int, location, size as int, st),
            r matches Ok(a) ==> holds_named(final(self).inner.objects@, a.0 as int, size as int, st, name),
    {
        match location {
            Some(Location::Fixed(addr)) => {
                match self.inner.allocate_at(name, addr, size, st) {
                    Ok(()) => Ok(addr),
                    Err(e) => Err(e),
                }
            },
            None => self.inner.allocate_next_region(name, None, size, st),
            Some(Location::Hint(hint)) => self.inner.allocate_next_region(name, Some(hint), size, st),
        }
    }

    /// Places a new region of `size` bytes (a whole number of pages) with
    /// `flags`, in the state of a region backed now (`Normal`) or on first
    /// access (`Lazy`). This is the region step alone; `AddressSpace::map_new`
    /// also backs the pages with frames.
    pub fn map_new(&mut self, name: &'static str, starting_addr: Option<Location>, size: usize,
        flags: VMMMFlags, mode: VMMAllocMode) -> (r: Result<VirtAddr, VMMAllocError>)
        requires
            old(self).wf(),
            size % PAGE_SIZE == 0,
            location_ok(starting_addr, size as int),
        ensures
            final(self).wf(),
            final(self).inner.start_addr == old(self).inner.start_addr,
            final(self).inner.size == old(self).inner.size,
            (addr_result(r), final(self).regions()) == place_spec(old(self).regions(),
                old(self).inner.start_addr.0 as int, old(self).inner.size as int, starting_addr, size as int,
                if mode == VMMAllocMode::Normal { ObjectState::Allocated(flags) } else { ObjectState::LazyAllocated(flags) }),
            r matches Ok(a) ==> holds_named(final(self).inner.objects@, a.0 as int, size as int,
                if mode == VMMAllocMode::Normal { ObjectState::Allocated(flags) } else { ObjectState::LazyAllocated(flags) },
                name),
    {
        let st = match mode {
            VMMAllocMode::Normal => ObjectState::Allocated(flags),
            VMMAllocMode::Lazy => ObjectState::LazyAllocated(flags),
        };
        self.place(name, starting_addr, size, st)
    }

    /// Places a new region of `size` bytes (a whole number of pages) over
    /// `frame_count` given frames, for DMA; `InvalidSize` when the frames hold
    /// fewer bytes than `size`. This is the region step alone;
    /// `AddressSpace::map_direct` also maps the pages to the frames.
    pub fn map_direct(&mut self, name: &'static str, starting_addr: Option<Location>, size: usize,
        flags: VMMMFlags, frame_count: usize) -> (r: Result<VirtAddr, VMMAllocError>)
        requires
            old(self).wf(),
            size % PAGE_SIZE == 0,
            location_ok(starting_addr, size as int),
            frame_count * PAGE_SIZE <= usize::MAX,
        ensures
            final(self).wf(),
            final(self).inner.start_addr == old(self).inner.start_addr,
            final(self).inner.size == old(self).inner.size,
            frame_count * PAGE_SIZE < size ==> r == Err::<VirtAddr, VMMAllocError>(VMMAllocError::InvalidSize)
                && final(self).regions() == old(self).regions(),
            frame_count * PAGE_SIZE >= size ==> (addr_result(r), final(self).regions()) == place_spec(old(self).regions(),
                old(self).inner.start_addr.0 as int, old(self).inner.size as int, starting_addr, size as int,
                ObjectState::DMAAllocated(flags)),
            r matches Ok(a) ==> holds_named(final(self).inner.objects@, a.0 as int, size as int,
                ObjectState::DMAAllocated(flags), name),
    {
        let given_size = frame_count * PAGE_SIZE;
        if given_size < size {
            return Err(VMMAllocError::InvalidSize);
        }
        self.place(name, starting_addr, size, ObjectState::DMAAllocated(flags))
    }

    /// Places a new DMA region of `page_count` pages over the physical frames
    /// that start at `start_phys`. This is the region step alone;
    /// `AddressSpace::map_direct_phys` also maps page `k` to the frame `k`
    /// after `start_phys`.
    pub fn map_direct_phys(&mut self, name: &'static str, start_addr: Option<Location>, start_phys: PhysAddr,
        page_count: usize, flags: VMMMFlags) -> (r: Result<VirtAddr, VMMAllocError>)
        requires
            old(self).wf(),
            page_count * PAGE_SIZE <= usize::MAX,
            start_phys.0 + page_count * PAGE_SIZE <= usize::MAX,
            location_ok(start_addr, page_count * PAGE_SIZE),
        ensures
            final(self).wf(),
            final(self).inner.start_addr == old(self).inner.start_addr,
            final(self).inner.size == old(self).inner.size,
            (addr_result(r), final(self).regions()) == place_spec(old(self).regions(),
                old(self).inner.start_addr.0 as int, old(self).inner.size as int, start_addr,
                page_count * PAGE_SIZE, ObjectState::DMAAllocated(flags)),
            r matches Ok(a) ==> holds_named(final(self).inner.objects@, a.0 as int, page_count * PAGE_SIZE,
                ObjectState::DMAAllocated(flags), name),
    {
        let size = page_count * PAGE_SIZE;
        assert(size % PAGE_SIZE == 0) by (nonlinear_arith)
            requires size == page_count * PAGE_SIZE;
        self.map_direct(name, start_addr, size, flags, page_count)
    }

    /// Grows the allocated region at `addr` by `needed` bytes from its free
    /// right neighbour. This is the region step alone;
    /// `AddressSpace::grow_map` also backs the new pages of an allocated
    /// region.
    pub fn grow_map(&mut self, addr: VirtAddr, needed: usize) -> (r: Result<(), VMMAllocError>)
        requires
            old(self).wf(),
            old(self).inner.can_grow(addr.0 as int),
            old(self).inner.in_range(addr.0 as int) ==>
                !(old(self).regions()[first_containing(old(self).regions(), addr.0 as int)].2 is DMAAllocated),
        ensures
            final(self).wf(),
            final(self).inner.start_addr == old(self).inner.start_addr,
            final(self).inner.size == old(self).inner.size,
            !old(self).inner.in_range(addr.0 as int) ==> r == Err::<(), VMMAllocError>(VMMAllocError::OutOfRange)
                && final(self).regions() == old(self).regions(),
            old(self).inner.in_range(addr.0 as int) ==> {
                let s = old(self).regions();
                let (grew, t) = grow_spec(s, first_containing(s, addr.0 as int), needed as int);
                &&& final(self).regions() == t
                &&& r == (if grew { Ok::<(), VMMAllocError>(()) } else { Err(VMMAllocError::Used) })
            },
    {
        match self.inner.grow_region(addr, needed) {
            Ok(_) => Ok(()),
            Err(e) => Err(e),
        }
    }
}

impl VMMInner {
    /// A copy of every region, in address order, for inspection.
    pub fn debug_regions(&self) -> (r: Vec<VMMObject>)
        ensures
            layout(r@) == self.regions(),
    {
        let r = self.objects.clone();
        assert(r@ =~= self.objects@);
        r
    }
}

} // verus!

verus! {

/// A page-granular allocator over a virtual memory manager: a name for its
/// regions, an optional placement hint and the region flags.
#[derive(Clone, Copy, Debug)]
pub struct VMMAlloc(pub &'static str, pub Option<VirtAddr>, pub VMMMFlags);

impl VMMAlloc {
    /// An allocator of writable regions named `name`, without a hint.
    pub fn new(name: &'static str) -> (r: Self)
        ensures
            r.0 == name,
            r.1 is None,
            r.2 == VMMMFlags(VMMMFlags::WRITEABLE),
    {
        VMMAlloc(name, None, VMMMFlags(VMMMFlags::WRITEABLE))
    }

    /// The same allocator, placing regions at or after `hint`.
    pub fn with_hint(self, hint: VirtAddr) -> (r: Self)
        ensures
            r.0 == self.0,
            r.1 == Some(hint),
            r.2 == self.2,
    {
        VMMAlloc(self.0, Some(hint), self.2)
    }

    /// The location that this allocator asks for.
    pub open spec fn location(self) -> Option<Location> {
        match self.1 {
            Some(h) => Some(Location::Hint(h)),
            None => None,
        }
    }

    /// Places a new normal region of `size` bytes (a whole number of pages).
    pub fn allocate_new(self, vmm: &mut VirtualMemoryManager, size: usize) -> (r: Result<VirtAddr, VMMAllocError>)
        requires
            old(vmm).wf(),
            size % PAGE_SIZE == 0,
            location_ok(self.location(), size as int),
        ensures
            final(vmm).wf(),
            (addr_result(r), final(vmm).regions()) == place_spec(old(vmm).regions(),
                old(vmm).inner.start_addr.0 as int, old(vmm).inner.size as int, self.location(), size as int,
                ObjectState::Allocated(self.2)),
    {
        let location = match self.1 {
            Some(h) => Some(Location::Hint(h)),
            None => None,
        };
        vmm.map_new(self.0, location, size, self.2, VMMAllocMode::Normal)
    }

    /// Allocates room for `bytes` bytes, rounded up to whole pages; returns
    /// the start and the rounded size.
    pub fn allocate(self, vmm: &mut VirtualMemoryManager, bytes: usize) -> (r: Result<(VirtAddr, usize), VMMAllocError>)
        requires
            old(vmm).wf(),
            bytes + PAGE_SIZE - 1 <= usize::MAX,
            location_ok(self.location(), crate::addr::align_up_spec(bytes as int, PAGE_SIZE as int)),
        ensures
            final(vmm).wf(),
            ({
                let size = crate::addr::align_up_spec(bytes as int, PAGE_SIZE as int);
                let (res, t) = place_spec(old(vmm).regions(), old(vmm).inner.start_addr.0 as int,
                    old(vmm).inner.size as int, self.location(), size, ObjectState::Allocated(self.2));
                &&& final(vmm).regions() == t
                &&& match r {
                    Ok((a, sz)) => res == Ok::<int, VMMAllocError>(a.0 as int) && sz == size,
                    Err(e) => res == Err::<int, VMMAllocError>(e),
                }
            }),
    {
        let size = crate::addr::to_next_page(bytes);
        match self.allocate_new(vmm, size) {
            Ok(a) => Ok((a, size)),
            Err(e) => Err(e),
        }
    }
}

} // verus!
