//! Per-CPU storage: CPU IDs, where each CPU's copy of the per-CPU section
//! lives, and storage that is initialised once per CPU.
use crate::addr::{VirtAddr, PAGE_SIZE};
use crate::address_space::{entry_flags_of, AddressSpace};
use crate::page_table::{alloc_map_spec, pages_unmapped};
use crate::vmm::{holds_named, place_spec, Location, ObjectState, VMMAllocError, VMMAllocMode, VMMMFlags};
use vstd::prelude::*;

verus! {

/// The ID that the kernel gives each CPU, from 0 for the boot CPU.
#[derive(Clone, Copy, Debug, PartialEq, Eq, Structural)]
pub struct CpuID(pub u16);

impl CpuID {
    /// The ID `id`, or `None` unless it is below `max`, the number of IDs
    /// handed out so far.
    pub fn from_u16(id: u16, max: u16) -> (r: Option<CpuID>)
        ensures
            r == (if id < max { Some(CpuID(id)) } else { None::<CpuID> }),
    {
        if id < max {
            Some(CpuID(id))
        } else {
            None
        }
    }

    /// The text that names the CPU: `CPU #` and its number.
    pub fn to_string(&self) -> (r: Vec<u8>)
        ensures
            r@ == seq![0x43u8, 0x50, 0x55, 0x20, 0x23] + crate::decimal::decimal(self.0 as nat),
    {
        let mut r: Vec<u8> = Vec::new();
        r.push(0x43);
        r.push(0x50);
        r.push(0x55);
        r.push(0x20);
        r.push(0x23);
        crate::decimal::push_decimal(&mut r, self.0 as u64);
        r
    }
}

/// The counter that hands out CPU IDs: the boot CPU has ID 0, so the next
/// ID starts at 1, and each CPU brought up takes the next one.
pub struct CpuIdCounter {
    pub next: u16,
}

impl CpuIdCounter {
    /// The next ID is 1: only the boot CPU's ID is in use.
    pub fn new() -> (r: Self)
        ensures
            r.next == 1,
    {
        CpuIdCounter { next: 1 }
    }

    /// Takes the next ID for a CPU being brought up; the counter wraps past
    /// `u16::MAX` as an atomic 16-bit addition does.
    pub fn allocate_next(&mut self) -> (r: CpuID)
        ensures
            r == CpuID(old(self).next),
            final(self).next == (if old(self).next == u16::MAX { 0 } else { (old(self).next + 1) as u16 }),
    {
        let id = self.next;
        self.next = if id == u16::MAX { 0 } else { id + 1 };
        CpuID(id)
    }

    /// The ID `id`, or `None` unless it was handed out.
    pub fn from_u16(&self, id: u16) -> (r: Option<CpuID>)
        ensures
            r == (if id < self.next { Some(CpuID(id)) } else { None::<CpuID> }),
    {
        CpuID::from_u16(id, self.next)
    }
}

/// Until the counter wraps, the boot CPU's ID 0 is always valid, and an ID
/// once valid stays valid after another CPU takes an ID.
pub proof fn law_cpu_ids_stay_valid(next: u16, id: u16)
    requires
        1 <= next < u16::MAX,
    ensures
        0 < next,
        id < next ==> id < (next + 1) as u16,
        (next + 1) as u16 >= 1,
{
}

/// An iterator over the CPUs that are online, by ID.
#[derive(Clone, Copy, Debug)]
pub struct CpuLocalStoragesIter {
    pub current_id: CpuID,
    pub max: u16,
}

/// The first online CPU at or after `i` below `max`, given which CPUs are online.
pub open spec fn next_online(online: Seq<bool>, i: int, max: int) -> Option<int>
    decreases max - i,
{
    if i >= max || i < 0 {
        None
    } else if i < online.len() && online[i] {
        Some(i)
    } else {
        next_online(online, i + 1, max)
    }
}

impl CpuLocalStoragesIter {
    /// An iterator over the CPUs with IDs below `max`.
    pub fn new(max: u16) -> (r: Self)
        ensures
            r.current_id.0 == 0,
            r.max == max,
    {
        CpuLocalStoragesIter { current_id: CpuID(0), max }
    }

    /// The number of CPUs it walks over, online or not.
    pub fn len_hint(&self) -> (r: usize)
        ensures
            r == self.max,
    {
        self.max as usize
    }

    /// The next CPU that is online, given which CPUs are online, by ID.
    pub fn next(&mut self, online: &Vec<bool>) -> (r: Option<CpuID>)
        ensures
            final(self).max == old(self).max,
            match next_online(online@, old(self).current_id.0 as int, old(self).max as int) {
                Some(i) => r == Some(CpuID(i as u16)) && final(self).current_id.0 == i + 1,
                None => r is None && final(self).current_id.0 == (if old(self).current_id.0 < old(self).max {
                    old(self).max
                } else {
                    old(self).current_id.0
                }),
            },
    {
        while self.current_id.0 < self.max
            invariant
                self.max == old(self).max,
                self.current_id.0 <= self.max || self.current_id == old(self).current_id,
                next_online(online@, self.current_id.0 as int, self.max as int) == next_online(
                    online@,
                    old(self).current_id.0 as int,
                    old(self).max as int,
                ),
                self.current_id.0 >= old(self).current_id.0,
            decreases self.max - self.current_id.0,
        {
            let id = self.current_id;
            self.current_id = CpuID(id.0 + 1);
            if (id.0 as usize) < online.len() && online[id.0 as usize] {
                return Some(id);
            }
        }
        None
    }
}

/// Where the copy of the per-CPU section of the CPU `id` starts, for a
/// section of `section_size` bytes at `section_start`.
pub fn cpu_local_addr(section_start: VirtAddr, section_size: usize, id: CpuID) -> (r: VirtAddr)
    requires
        section_start.0 + section_size * id.0 <= usize::MAX,
    ensures
        r.0 == section_start.0 + section_size * id.0,
{
    assert(section_size * id.0 <= usize::MAX) by (nonlinear_arith)
        requires
            section_start.0 + section_size * id.0 <= usize::MAX,
    ;
    section_start.add(section_size * id.0 as usize)
}

/// Maps the copies of the per-CPU section for the CPUs after the boot CPU,
/// right after the boot CPU's section, in `space`: one region named
/// `.percpu.ap`, writable and zeroed, whose pages are backed by fresh frames
/// taken from the end of `frames`; nothing when there is only one CPU.
pub fn init_memory(space: &mut AddressSpace, frames: &mut Vec<u64>, cpu_count: usize, section_start: VirtAddr,
    section_end: VirtAddr) -> (r: Result<(), VMMAllocError>)
    requires
        old(space).wf(),
        cpu_count >= 1,
        section_start.0 <= section_end.0,
        (section_end.0 - section_start.0) % (PAGE_SIZE as int) == 0,
        section_end.0 + (cpu_count - 1) * (section_end.0 - section_start.0) <= usize::MAX,
        pages_unmapped(old(space).table.mapping(), section_end.0 as int,
            (cpu_count - 1) * (section_end.0 - section_start.0) / (PAGE_SIZE as int)),
    ensures
        final(space).wf(),
        ({
            let size = (cpu_count - 1) * (section_end.0 - section_start.0);
            let flags = VMMMFlags((VMMMFlags::ZEROED | VMMMFlags::WRITEABLE) as u8);
            if size == 0 {
                &&& r is Ok
                &&& final(space).vmm.regions() == old(space).vmm.regions()
                &&& final(space).table.mapping() == old(space).table.mapping()
                &&& final(frames)@ == old(frames)@
            } else {
                let p = place_spec(
                    old(space).vmm.regions(),
                    old(space).vstart(),
                    old(space).vsize(),
                    Some(Location::Fixed(section_end)),
                    size,
                    ObjectState::Allocated(flags),
                );
                &&& final(space).vmm.regions() == p.1
                &&& p.0 matches Err(e) ==> r == Err::<(), VMMAllocError>(e)
                    && final(space).table.mapping() == old(space).table.mapping()
                &&& p.0 is Ok ==> {
                    let b = alloc_map_spec(old(space).table.mapping(), old(frames)@, section_end.0 as int,
                        size / (PAGE_SIZE as int), entry_flags_of(flags));
                    &&& final(space).table.mapping() == b.1
                    &&& final(frames)@ == b.2
                    &&& r == (if b.0 is Ok { Ok::<(), VMMAllocError>(()) } else { Err(VMMAllocError::OutOfMemory) })
                }
                &&& r is Ok ==> holds_named(
                    final(space).vmm.inner.objects@,
                    section_end.0 as int,
                    size,
                    ObjectState::Allocated(flags),
                    ".percpu.ap",
                )
            }
        }),
{
    let section_size = section_end.0 - section_start.0;
    assert((cpu_count - 1) * section_size <= usize::MAX) by (nonlinear_arith)
        requires
            section_end.0 + (cpu_count - 1) * section_size <= usize::MAX,
    ;
    let size = (cpu_count - 1) * section_size;
    if size == 0 {
        return Ok(());
    }
    proof {
        let q = section_size as int / 4096;
        assert(section_size as int == 4096 * q) by (nonlinear_arith)
            requires
                section_size as int % 4096 == 0,
                q == section_size as int / 4096,
        ;
        let m = (cpu_count - 1) as int * q;
        assert(size as int == 4096 * m) by (nonlinear_arith)
            requires
                size as int == (cpu_count - 1) as int * section_size as int,
                section_size as int == 4096 * q,
                m == (cpu_count - 1) as int * q,
        ;
        vstd::arithmetic::div_mod::lemma_mod_multiples_basic(m, 4096);
    }
    match space.map_new(frames, ".percpu.ap", Some(Location::Fixed(section_end)), size,
        VMMMFlags(VMMMFlags::ZEROED | VMMMFlags::WRITEABLE), VMMAllocMode::Normal) {
        Ok(_) => Ok(()),
        Err(e) => Err(e),
    }
}

/// The storage of a per-CPU static for one CPU: a value, and whether it was
/// initialised.
pub struct PerCpuStorage<T> {
    pub initialized: bool,
    pub data: Option<T>,
}

impl<T> PerCpuStorage<T> {
    /// Storage that holds nothing yet.
    pub fn new_zeroed() -> (r: Self)
        ensures
            !r.initialized,
            r.data is None,
    {
        PerCpuStorage { initialized: false, data: None }
    }

    /// Storage that holds `placeholder` but is not initialised.
    pub fn new_uninit(placeholder: T) -> (r: Self)
        ensures
            !r.initialized,
            r.data == Some(placeholder),
    {
        PerCpuStorage { initialized: false, data: Some(placeholder) }
    }

    /// Storage initialised with `constant`.
    pub fn new_const(constant: T) -> (r: Self)
        ensures
            r.initialized,
            r.data == Some(constant),
    {
        PerCpuStorage { initialized: true, data: Some(constant) }
    }

    /// Initialises the storage with `v`, unless it already is.
    pub fn init(&mut self, v: T)
        ensures
            old(self).initialized ==> *final(self) == *old(self),
            !old(self).initialized ==> final(self).initialized && final(self).data == Some(v),
    {
        if self.initialized {
            return;
        }
        self.data = Some(v);
        self.initialized = true;
    }

    /// The value, which must have been initialised.
    pub fn borrow_this(&self) -> (r: &T)
        requires
            self.initialized,
            self.data is Some,
        ensures
            Some(*r) == self.data,
    {
        match &self.data {
            Some(v) => v,
            None => vstd::pervasive::unreached(),
        }
    }

    /// The value if it was initialised.
    pub fn maybe_borrow_this(&self) -> (r: Option<&T>)
        requires
            self.initialized ==> self.data is Some,
        ensures
            self.initialized ==> r.is_some() && Some(*r.unwrap()) == self.data,
            !self.initialized ==> r.is_none(),
    {
        if self.initialized {
            match &self.data {
                Some(v) => Some(v),
                None => None,
            }
        } else {
            None
        }
    }
}

} // verus!
