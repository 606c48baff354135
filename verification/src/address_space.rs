//! An address space: a virtual memory manager together with the page table
//! that backs its regions, so that placing a region maps its pages and
//! freeing one unmaps them.
use crate::addr::{PhysAddr, VirtAddr, PAGE_SIZE};
use crate::page_table::{
    alloc_map_spec, contiguous_spec, lemma_alloc_map_backs, lemma_alloc_map_needs, lemma_contiguous_backs, page_addr,
    pages_unmapped, same_outside, unmapped_spec, PageTable,
};
use crate::paging::{PageEntryFlags, PendingUnmaps};
use crate::vmm::{
    entry_flags_spec, first_containing, first_starting, free_at_spec, grow_spec, holds_named, is_first_starting,
    lemma_bounds, location_ok, place_spec, Location, ObjectState, VMMAllocError, VMMAllocMode, VMMMFlags,
    VirtualMemoryManager,
};
use vstd::prelude::*;

verus! {

/// The state of a region placed by `map_new` with `flags` in `mode`.
pub open spec fn new_region_state(flags: VMMMFlags, mode: VMMAllocMode) -> ObjectState {
    if mode == VMMAllocMode::Normal {
        ObjectState::Allocated(flags)
    } else {
        ObjectState::LazyAllocated(flags)
    }
}

/// The page table entry flags for region flags `flags`.
pub open spec fn entry_flags_of(flags: VMMMFlags) -> PageEntryFlags {
    PageEntryFlags(entry_flags_spec(flags.0))
}

/// A region the manager holds lies within its range.
proof fn lemma_held_in_range(vmm: VirtualMemoryManager, a: int, size: int, st: ObjectState, name: &'static str)
    requires
        vmm.wf(),
        holds_named(vmm.inner.objects@, a, size, st, name),
    ensures
        vmm.inner.start_addr.0 <= a,
        0 <= size,
        a + size <= vmm.inner.start_addr.0 + vmm.inner.size,
{
    let objs = vmm.inner.objects@;
    let k = choose|k: int|
        0 <= k < objs.len() && #[trigger] objs[k].addr.0 == a && objs[k].size == size && objs[k].state == st
            && objs[k].name == name;
    assert(vmm.regions()[k] == (a, size, st));
    lemma_bounds(vmm.regions(), vmm.inner.start_addr.0 as int, vmm.inner.size as int, k);
}

proof fn lemma_whole_pages(size: int)
    requires
        0 <= size,
        size % (PAGE_SIZE as int) == 0,
    ensures
        (size / (PAGE_SIZE as int)) * PAGE_SIZE == size,
        0 <= size / (PAGE_SIZE as int) <= size,
{
    let p = PAGE_SIZE as int;
    assert((size / p) * p == size && 0 <= size / p <= size) by (nonlinear_arith)
        requires
            size % p == 0,
            0 <= size,
            p == 4096,
    ;
}

/// The number of pages that `size` bytes take up.
pub open spec fn pages_of(size: int) -> int {
    size / (PAGE_SIZE as int) + if size % (PAGE_SIZE as int) != 0 { 1int } else { 0int }
}

proof fn lemma_pages_of(size: int)
    requires
        0 <= size,
    ensures
        0 <= pages_of(size),
        pages_of(size) * PAGE_SIZE < size + PAGE_SIZE,
{
    let p = PAGE_SIZE as int;
    assert(0 <= size / p && (size / p) * p + size % p == size && 0 <= size % p < p) by (nonlinear_arith)
        requires
            0 <= size,
            p == 4096,
    ;
    assert(pages_of(size) * p == (size / p) * p + (if size % p != 0 { p } else { 0 })) by (nonlinear_arith)
        requires
            pages_of(size) == size / p + if size % p != 0 { 1int } else { 0int },
    ;
}

/// A virtual memory manager together with the page table that backs its
/// regions: placing a region and mapping its pages, or unmapping them and
/// freeing it, in one step.
pub struct AddressSpace {
    pub vmm: VirtualMemoryManager,
    pub table: PageTable,
}

impl AddressSpace {
    pub open spec fn wf(&self) -> bool {
        self.vmm.wf()
    }

    /// The start of the managed range.
    pub open spec fn vstart(&self) -> int {
        self.vmm.inner.start_addr.0 as int
    }

    /// The size of the managed range.
    pub open spec fn vsize(&self) -> int {
        self.vmm.inner.size as int
    }

    /// An address space of the regions of `vmm` over an empty page table.
    pub fn new(vmm: VirtualMemoryManager) -> (r: Self)
        ensures
            r.vmm == vmm,
            r.table.mapping() == Map::<u64, (u64, PageEntryFlags)>::empty(),
    {
        AddressSpace { vmm, table: PageTable::new() }
    }

    /// Places a new region of `size` bytes (a whole number of pages) with
    /// `flags` and backs each of its pages with a fresh frame taken from the
    /// end of `frames`, mapped with the entry flags of `flags`; a lazily
    /// allocated region is backed the same way. When the frames run out the
    /// region stays placed, the pages mapped so far stay mapped, and the
    /// result is `OutOfMemory`.
    pub fn map_new(&mut self, frames: &mut Vec<u64>, name: &'static str, starting_addr: Option<Location>,
        size: usize, flags: VMMMFlags, mode: VMMAllocMode) -> (r: Result<VirtAddr, VMMAllocError>)
        requires
            old(self).wf(),
            size % PAGE_SIZE == 0,
            location_ok(starting_addr, size as int),
            place_spec(old(self).vmm.regions(), old(self).vstart(), old(self).vsize(), starting_addr, size as int,
                new_region_state(flags, mode)).0 matches Ok(a) ==> pages_unmapped(old(self).table.mapping(), a,
                (size / PAGE_SIZE) as int),
        ensures
            final(self).wf(),
            final(self).vmm.inner.start_addr == old(self).vmm.inner.start_addr,
            final(self).vmm.inner.size == old(self).vmm.inner.size,
            ({
                let p = place_spec(old(self).vmm.regions(), old(self).vstart(), old(self).vsize(), starting_addr,
                    size as int, new_region_state(flags, mode));
                &&& final(self).vmm.regions() == p.1
                &&& p.0 matches Err(e) ==> r == Err::<VirtAddr, VMMAllocError>(e)
                    && final(self).table.mapping() == old(self).table.mapping() && final(frames)@ == old(frames)@
                &&& p.0 matches Ok(a) ==> {
                    let b = alloc_map_spec(old(self).table.mapping(), old(frames)@, a, (size / PAGE_SIZE) as int,
                        entry_flags_of(flags));
                    &&& final(self).table.mapping() == b.1
                    &&& final(frames)@ == b.2
                    &&& r == (if b.0 is Ok { Ok::<VirtAddr, VMMAllocError>(VirtAddr(a as usize)) } else {
                        Err(VMMAllocError::OutOfMemory) })
                    &&& old(frames)@.len() >= (size / PAGE_SIZE) as int ==> r is Ok
                }
            }),
            r matches Ok(a) ==> {
                &&& holds_named(final(self).vmm.inner.objects@, a.0 as int, size as int, new_region_state(flags, mode),
                    name)
                &&& forall|k: int|
                    0 <= k < (size / PAGE_SIZE) as int ==> (#[trigger] final(self).table.mapping().contains_key(
                        page_addr(a.0 as int, k),
                    ) && final(self).table.mapping()[page_addr(a.0 as int, k)] == (
                        old(frames)@[old(frames)@.len() - 1 - k],
                        entry_flags_of(flags),
                    ))
                &&& same_outside(old(self).table.mapping(), final(self).table.mapping(), a.0 as int, (size / PAGE_SIZE) as int)
            },
    {
        let a = match self.vmm.map_new(name, starting_addr, size, flags, mode) {
            Ok(a) => a,
            Err(e) => return Err(e),
        };
        let count = size / PAGE_SIZE;
        let ghost m0 = self.table.mapping();
        let ghost pool = frames@;
        proof {
            lemma_held_in_range(self.vmm, a.0 as int, size as int, new_region_state(flags, mode), name);
            lemma_whole_pages(size as int);
        }
        let ef = flags.to_entry_flags();
        match self.table.alloc_map(frames, a, count, ef) {
            Ok(()) => {
                proof {
                    lemma_alloc_map_needs(m0, pool, a.0 as int, count as int, ef);
                    lemma_alloc_map_backs(m0, pool, a.0 as int, count as int, ef);
                }
                Ok(a)
            },
            Err(_) => {
                proof {
                    if pool.len() >= count {
                        lemma_alloc_map_backs(m0, pool, a.0 as int, count as int, ef);
                    }
                }
                Err(VMMAllocError::OutOfMemory)
            },
        }
    }

    /// Places a new region of `size` bytes (a whole number of pages) with
    /// `flags` for DMA and maps its pages, in order, to all of the given
    /// `frames`; `InvalidSize` when the frames hold fewer bytes than `size`,
    /// and then nothing changes.
    pub fn map_direct(&mut self, name: &'static str, starting_addr: Option<Location>, size: usize,
        flags: VMMMFlags, frames: &Vec<u64>) -> (r: Result<VirtAddr, VMMAllocError>)
        requires
            old(self).wf(),
            size % PAGE_SIZE == 0,
            location_ok(starting_addr, size as int),
            frames@.len() * PAGE_SIZE <= usize::MAX,
            frames@.len() * PAGE_SIZE >= size ==> (place_spec(old(self).vmm.regions(), old(self).vstart(),
                old(self).vsize(), starting_addr, size as int, ObjectState::DMAAllocated(flags)).0 matches Ok(a)
                ==> a + frames@.len() * PAGE_SIZE <= usize::MAX && pages_unmapped(old(self).table.mapping(), a,
                frames@.len() as int)),
        ensures
            final(self).wf(),
            final(self).vmm.inner.start_addr == old(self).vmm.inner.start_addr,
            final(self).vmm.inner.size == old(self).vmm.inner.size,
            frames@.len() * PAGE_SIZE < size ==> r == Err::<VirtAddr, VMMAllocError>(VMMAllocError::InvalidSize)
                && final(self).vmm.regions() == old(self).vmm.regions()
                && final(self).table.mapping() == old(self).table.mapping(),
            frames@.len() * PAGE_SIZE >= size ==> {
                let p = place_spec(old(self).vmm.regions(), old(self).vstart(), old(self).vsize(), starting_addr,
                    size as int, ObjectState::DMAAllocated(flags));
                &&& final(self).vmm.regions() == p.1
                &&& p.0 matches Err(e) ==> r == Err::<VirtAddr, VMMAllocError>(e)
                    && final(self).table.mapping() == old(self).table.mapping()
                &&& p.0 matches Ok(a) ==> r == Ok::<VirtAddr, VMMAllocError>(VirtAddr(a as usize))
                    && final(self).table.mapping() == contiguous_spec(old(self).table.mapping(), frames@, 0, a,
                    entry_flags_of(flags)).1
            },
            r matches Ok(a) ==> {
                &&& holds_named(final(self).vmm.inner.objects@, a.0 as int, size as int,
                    ObjectState::DMAAllocated(flags), name)
                &&& forall|k: int|
                    0 <= k < frames@.len() ==> (#[trigger] final(self).table.mapping().contains_key(
                        page_addr(a.0 as int, k),
                    ) && final(self).table.mapping()[page_addr(a.0 as int, k)] == (frames@[k], entry_flags_of(flags)))
                &&& same_outside(old(self).table.mapping(), final(self).table.mapping(), a.0 as int,
                    frames@.len() as int)
            },
    {
        let a = match self.vmm.map_direct(name, starting_addr, size, flags, frames.len()) {
            Ok(a) => a,
            Err(e) => return Err(e),
        };
        let ghost m0 = self.table.mapping();
        let ef = flags.to_entry_flags();
        proof {
            lemma_contiguous_backs(m0, frames@, 0, a.0 as int, ef);
            assert forall|k: int| 0 <= k < frames@.len() implies #[trigger] frames@[0 + k] == frames@[k] by {}
        }
        match self.table.map_contiguous_to_frames(a, frames, ef) {
            Ok(()) => Ok(a),
            Err(_) => Err(VMMAllocError::OutOfMemory),
        }
    }

    /// Places a new DMA region of `page_count` pages with `flags` and maps
    /// page `k` of it to the frame `k` after the one that holds `start_phys`.
    #[verifier::spinoff_prover]
    #[verifier::rlimit(40)]
    pub fn map_direct_phys(&mut self, name: &'static str, start_addr: Option<Location>, start_phys: PhysAddr,
        page_count: usize, flags: VMMMFlags) -> (r: Result<VirtAddr, VMMAllocError>)
        requires
            old(self).wf(),
            page_count * PAGE_SIZE <= usize::MAX,
            start_phys.0 + page_count * PAGE_SIZE <= usize::MAX,
            location_ok(start_addr, page_count * PAGE_SIZE),
            place_spec(old(self).vmm.regions(), old(self).vstart(), old(self).vsize(), start_addr,
                page_count * PAGE_SIZE, ObjectState::DMAAllocated(flags)).0 matches Ok(a) ==> pages_unmapped(
                old(self).table.mapping(), a, page_count as int),
        ensures
            final(self).wf(),
            final(self).vmm.inner.start_addr == old(self).vmm.inner.start_addr,
            final(self).vmm.inner.size == old(self).vmm.inner.size,
            ({
                let p = place_spec(old(self).vmm.regions(), old(self).vstart(), old(self).vsize(), start_addr,
                    page_count * PAGE_SIZE, ObjectState::DMAAllocated(flags));
                &&& final(self).vmm.regions() == p.1
                &&& p.0 matches Err(e) ==> r == Err::<VirtAddr, VMMAllocError>(e)
                    && final(self).table.mapping() == old(self).table.mapping()
                &&& p.0 matches Ok(a) ==> r == Ok::<VirtAddr, VMMAllocError>(VirtAddr(a as usize))
                    && final(self).table.mapping() == contiguous_spec(old(self).table.mapping(), Seq::new(
                    page_count as nat,
                    |k: int| (start_phys.0 - start_phys.0 % PAGE_SIZE + k * PAGE_SIZE) as u64,
                ), 0, a, entry_flags_of(flags)).1
            }),
            r matches Ok(a) ==> {
                &&& holds_named(final(self).vmm.inner.objects@, a.0 as int, page_count * PAGE_SIZE,
                    ObjectState::DMAAllocated(flags), name)
                &&& forall|k: int|
                    0 <= k < page_count ==> (#[trigger] final(self).table.mapping().contains_key(
                        page_addr(a.0 as int, k),
                    ) && final(self).table.mapping()[page_addr(a.0 as int, k)] == (
                        (start_phys.0 - start_phys.0 % PAGE_SIZE + k * PAGE_SIZE) as u64,
                        entry_flags_of(flags),
                    ))
                &&& same_outside(old(self).table.mapping(), final(self).table.mapping(), a.0 as int,
                    page_count as int)
            },
    {
        let size = page_count * PAGE_SIZE;
        let base = start_phys.0 - start_phys.0 % PAGE_SIZE;
        let mut frames: Vec<u64> = Vec::new();
        let mut i: usize = 0;
        while i < page_count
            invariant
                i <= page_count,
                base + page_count * PAGE_SIZE <= usize::MAX,
                frames@.len() == i,
                forall|k: int| 0 <= k < i ==> #[trigger] frames@[k] == (base + k * PAGE_SIZE) as u64,
            decreases page_count - i,
        {
            assert(base + i * PAGE_SIZE < base + page_count * PAGE_SIZE) by (nonlinear_arith)
                requires
                    i < page_count,
            ;
            frames.push((base + i * PAGE_SIZE) as u64);
            i = i + 1;
        }
        let a = match self.vmm.map_direct_phys(name, start_addr, start_phys, page_count, flags) {
            Ok(a) => a,
            Err(e) => return Err(e),
        };
        let ghost m0 = self.table.mapping();
        let ef = flags.to_entry_flags();
        proof {
            lemma_held_in_range(self.vmm, a.0 as int, size as int, ObjectState::DMAAllocated(flags), name);
            assert(frames@ =~= Seq::new(
                page_count as nat,
                |k: int| (start_phys.0 - start_phys.0 % PAGE_SIZE + k * PAGE_SIZE) as u64,
            ));
            lemma_contiguous_backs(m0, frames@, 0, a.0 as int, ef);
            assert forall|k: int| 0 <= k < page_count implies #[trigger] frames@[0 + k] == (start_phys.0
                - start_phys.0 % PAGE_SIZE + k * PAGE_SIZE) as u64 by {
                assert(frames@[k] == (base + k * PAGE_SIZE) as u64);
            }
        }
        let ghost want = contiguous_spec(m0, frames@, 0, a.0 as int, ef);
        match self.table.map_contiguous_to_frames(a, &frames, ef) {
            Ok(()) => {
                proof {
                    let m1 = self.table.mapping();
                    assert(m1 == want.1);
                    assert forall|k: int| 0 <= k < page_count implies (#[trigger] m1.contains_key(
                        page_addr(a.0 as int, k),
                    ) && m1[page_addr(a.0 as int, k)] == (
                        (start_phys.0 - start_phys.0 % PAGE_SIZE + k * PAGE_SIZE) as u64,
                        entry_flags_of(flags),
                    )) by {
                        assert(want.1.contains_key(page_addr(a.0 as int, k)));
                        assert(frames@[0 + k] == (start_phys.0 - start_phys.0 % PAGE_SIZE + k * PAGE_SIZE) as u64);
                    }
                    assert(frames@.len() == page_count);
                    assert(same_outside(m0, m1, a.0 as int, page_count as int));
                    assert(holds_named(self.vmm.inner.objects@, a.0 as int, page_count * PAGE_SIZE,
                        ObjectState::DMAAllocated(flags), name));
                }
                Ok(a)
            },
            Err(_) => Err(VMMAllocError::OutOfMemory),
        }
    }

    /// Frees the region that starts at `start_addr` and unmaps its pages
    /// (every page it touches); the frames behind them are recorded in
    /// `pending` to be given back, except for a DMA region, whose frames
    /// belong to its device. `false` when the address lies outside the
    /// managed range, and then nothing changes.
    pub fn unmap(&mut self, pending: &mut PendingUnmaps, start_addr: VirtAddr) -> (r: bool)
        requires
            old(self).wf(),
            old(self).vmm.inner.can_free(start_addr.0 as int),
            old(self).vstart() + old(self).vsize() + PAGE_SIZE <= usize::MAX,
        ensures
            final(self).wf(),
            final(self).vmm.inner.start_addr == old(self).vmm.inner.start_addr,
            final(self).vmm.inner.size == old(self).vmm.inner.size,
            r == old(self).vmm.inner.in_range(start_addr.0 as int),
            !r ==> final(self).vmm.regions() == old(self).vmm.regions() && final(self).table.mapping() == old(
                self,
            ).table.mapping() && *final(pending) == *old(pending),
            r ==> {
                let s = old(self).vmm.regions();
                let j = first_starting(s, start_addr.0 as int);
                let n = pages_of(s[j].1);
                let u = unmapped_spec(old(self).table.mapping(), start_addr.0 as int, n);
                &&& final(self).vmm.regions() == free_at_spec(s, j)
                &&& final(self).table.mapping() == u.0
                &&& final(pending).frames@ == (if s[j].2 is DMAAllocated { old(pending).frames@ } else {
                    old(pending).frames@ + u.1
                })
                &&& final(pending).unmap_range == crate::paging::widened(
                    old(pending).unmap_range,
                    start_addr,
                    VirtAddr((start_addr.0 + n * PAGE_SIZE) as usize),
                )
            },
    {
        let ghost s = self.vmm.regions();
        match self.vmm.deallocate_at(start_addr) {
            None => false,
            Some((st, size)) => {
                let pages = size / PAGE_SIZE + if size % PAGE_SIZE != 0 { 1 } else { 0 };
                proof {
                    let j = first_starting(s, start_addr.0 as int);
                    assert(is_first_starting(s, start_addr.0 as int, j));
                    lemma_bounds(s, self.vstart(), self.vsize(), j);
                    lemma_pages_of(size as int);
                    assert(pages == pages_of(size as int));
                }
                let dealloc = match st {
                    ObjectState::DMAAllocated(_) => false,
                    _ => true,
                };
                self.table.unmap_pages(pending, start_addr, pages, dealloc);
                true
            },
        }
    }

    /// Grows the allocated region that holds `addr` by `needed` bytes (a
    /// whole number of pages) from its free right neighbour, and backs the
    /// new pages of an `Allocated` region with fresh frames taken from the
    /// end of `frames`, mapped with the region's entry flags; a lazily
    /// allocated region only grows. When the frames run out the region stays
    /// grown and the result is `OutOfMemory`.
    pub fn grow_map(&mut self, frames: &mut Vec<u64>, addr: VirtAddr, needed: usize) -> (r: Result<(), VMMAllocError>)
        requires
            old(self).wf(),
            old(self).vmm.inner.can_grow(addr.0 as int),
            needed % PAGE_SIZE == 0,
            old(self).vmm.inner.in_range(addr.0 as int) ==> {
                let s = old(self).vmm.regions();
                let i = first_containing(s, addr.0 as int);
                &&& !(s[i].2 is DMAAllocated)
                &&& grow_spec(s, i, needed as int).0 && s[i].2 is Allocated ==> pages_unmapped(
                    old(self).table.mapping(),
                    s[i].0 + s[i].1,
                    (needed / PAGE_SIZE) as int,
                )
            },
        ensures
            final(self).wf(),
            final(self).vmm.inner.start_addr == old(self).vmm.inner.start_addr,
            final(self).vmm.inner.size == old(self).vmm.inner.size,
            !old(self).vmm.inner.in_range(addr.0 as int) ==> r == Err::<(), VMMAllocError>(VMMAllocError::OutOfRange)
                && final(self).vmm.regions() == old(self).vmm.regions(),
            old(self).vmm.inner.in_range(addr.0 as int) ==> {
                let s = old(self).vmm.regions();
                let i = first_containing(s, addr.0 as int);
                let (grew, t) = grow_spec(s, i, needed as int);
                &&& final(self).vmm.regions() == t
                &&& !grew ==> r == Err::<(), VMMAllocError>(VMMAllocError::Used)
                &&& grew && s[i].2 is LazyAllocated ==> r == Ok::<(), VMMAllocError>(())
                &&& grew ==> (s[i].2 matches ObjectState::Allocated(f) ==> {
                    let b = alloc_map_spec(old(self).table.mapping(), old(frames)@, s[i].0 + s[i].1,
                        (needed / PAGE_SIZE) as int, entry_flags_of(f));
                    &&& final(self).table.mapping() == b.1
                    &&& final(frames)@ == b.2
                    &&& r == (if b.0 is Ok { Ok::<(), VMMAllocError>(()) } else { Err(VMMAllocError::OutOfMemory) })
                    &&& old(frames)@.len() >= (needed / PAGE_SIZE) as int ==> r is Ok
                })
            },
            !(final(self).table.mapping() == old(self).table.mapping() && final(frames)@ == old(frames)@) ==> {
                let s = old(self).vmm.regions();
                let i = first_containing(s, addr.0 as int);
                &&& old(self).vmm.inner.in_range(addr.0 as int)
                &&& grow_spec(s, i, needed as int).0
                &&& s[i].2 is Allocated
            },
    {
        let ghost s = self.vmm.regions();
        let ghost i = first_containing(s, addr.0 as int);
        match self.vmm.inner.grow_region(addr, needed) {
            Err(e) => Err(e),
            Ok((a, st, sz)) => {
                match st {
                    ObjectState::Allocated(f) => {
                        let count = needed / PAGE_SIZE;
                        let ghost m0 = self.table.mapping();
                        let ghost pool = frames@;
                        proof {
                            let t = self.vmm.regions();
                            assert(t[i] == (s[i].0, s[i].1 + needed, s[i].2));
                            lemma_bounds(t, self.vstart(), self.vsize(), i);
                            lemma_whole_pages(needed as int);
                        }
                        let ef = f.to_entry_flags();
                        match self.table.alloc_map(frames, VirtAddr(a.0 + (sz - needed)), count, ef) {
                            Ok(()) => Ok(()),
                            Err(_) => {
                                proof {
                                    if pool.len() >= count {
                                        lemma_alloc_map_backs(m0, pool, a.0 + (sz - needed), count as int, ef);
                                    }
                                }
                                Err(VMMAllocError::OutOfMemory)
                            },
                        }
                    },
                    _ => Ok(()),
                }
            },
        }
    }
}

} // verus!
