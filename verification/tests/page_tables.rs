use safa_core::addr::{PhysAddr, VirtAddr, PAGE_SIZE};
use safa_core::address_space::AddressSpace;
use safa_core::page_table::PageTable;
use safa_core::paging::{MapToError, PageEntryFlags, PendingUnmaps};
use safa_core::percpu::{init_memory, CpuID, CpuIdCounter};
use safa_core::vmm::{Location, ObjectState, VMMAllocError, VMMAllocMode, VMMMFlags, VirtualMemoryManager};

const P: u64 = PAGE_SIZE as u64;

fn flags() -> PageEntryFlags {
    PageEntryFlags(PageEntryFlags::WRITE)
}

#[test]
fn page_table_map_and_unmap_one_page() {
    let mut t = PageTable::new();
    assert_eq!(t.get_frame_of(0x1000), None);
    assert_eq!(t.map_to(0x1000, 0x9000, flags()), Ok(()));
    assert_eq!(t.get_frame_of(0x1000), Some(0x9000));
    // a mapped page stays as it was
    assert_eq!(t.map_to(0x1000, 0xA000, flags()), Err(MapToError::AlreadyMapped));
    assert_eq!(t.get_frame_of(0x1000), Some(0x9000));
    assert_eq!(t.unmap_page(0x1000), Some(0x9000));
    assert_eq!(t.get_frame_of(0x1000), None);
    assert_eq!(t.unmap_page(0x1000), None);
}

#[test]
fn page_table_alloc_map_takes_frames_from_the_end() {
    let mut t = PageTable::new();
    let mut pool = vec![0x10000, 0x20000, 0x30000];
    assert_eq!(t.alloc_map(&mut pool, VirtAddr::from(0x4000), 2, flags()), Ok(()));
    assert_eq!(t.get_frame_of(0x4000), Some(0x30000));
    assert_eq!(t.get_frame_of(0x5000), Some(0x20000));
    assert_eq!(pool, vec![0x10000]);
    // running out: the first page is mapped, then the pool is empty
    assert_eq!(t.alloc_map(&mut pool, VirtAddr::from(0x8000), 2, flags()), Err(MapToError::FrameAllocationFailed));
    assert_eq!(t.get_frame_of(0x8000), Some(0x10000));
    assert_eq!(t.get_frame_of(0x9000), None);
    // a page mapped already uses up its frame
    let mut pool = vec![0x50000];
    assert_eq!(t.alloc_map(&mut pool, VirtAddr::from(0x4000), 1, flags()), Err(MapToError::AlreadyMapped));
    assert!(pool.is_empty());
    assert_eq!(t.get_frame_of(0x4000), Some(0x30000));
}

#[test]
fn page_table_maps_contiguous_frames_in_order() {
    let mut t = PageTable::new();
    let frames = vec![0x7000, 0x3000, 0x5000];
    assert_eq!(t.map_contiguous_to_frames(VirtAddr::from(0x10000), &frames, flags()), Ok(()));
    assert_eq!(t.get_frame_of(0x10000), Some(0x7000));
    assert_eq!(t.get_frame_of(0x11000), Some(0x3000));
    assert_eq!(t.get_frame_of(0x12000), Some(0x5000));
    assert_eq!(
        t.map_contiguous_to_frames(VirtAddr::from(0x12000), &frames, flags()),
        Err(MapToError::AlreadyMapped)
    );
}

#[test]
fn page_table_unmap_pages_records_frames() {
    let mut t = PageTable::new();
    let frames = vec![0x7000, 0x8000];
    t.map_contiguous_to_frames(VirtAddr::from(0x10000), &frames, flags()).unwrap();
    let mut pending = PendingUnmaps::new();
    // three pages, the last one never mapped
    t.unmap_pages(&mut pending, VirtAddr::from(0x10000), 3, true);
    assert_eq!(pending.frames, vec![0x7000, 0x8000]);
    assert_eq!(pending.unmap_range, Some((VirtAddr::from(0x10000), VirtAddr::from(0x13000))));
    assert_eq!(t.get_frame_of(0x10000), None);
    assert_eq!(t.get_frame_of(0x11000), None);
    // without giving the frames back nothing is recorded, but the range widens
    t.map_to(0x20000, 0x9000, flags()).unwrap();
    t.unmap_pages(&mut pending, VirtAddr::from(0x20000), 1, false);
    assert_eq!(pending.frames, vec![0x7000, 0x8000]);
    assert_eq!(pending.unmap_range, Some((VirtAddr::from(0x10000), VirtAddr::from(0x21000))));
}

#[test]
fn address_space_map_new_backs_pages() {
    let mut space = AddressSpace::new(VirtualMemoryManager::new(VirtAddr::from(0x10000), 0x100000));
    let mut pool = vec![0xA0000, 0xB0000, 0xC0000];
    let f = VMMMFlags(VMMMFlags::WRITEABLE);
    let a = space
        .map_new(&mut pool, "data", Some(Location::Fixed(VirtAddr::from(0x20000))), 0x2000, f, VMMAllocMode::Normal)
        .unwrap();
    assert_eq!(a, VirtAddr::from(0x20000));
    assert_eq!(space.table.get_frame_of(0x20000), Some(0xC0000));
    assert_eq!(space.table.get_frame_of(0x21000), Some(0xB0000));
    assert_eq!(space.table.entries.get(&0x20000).unwrap().1, f.to_entry_flags());
    assert_eq!(space.vmm.lookup_addr(a).unwrap().state, ObjectState::Allocated(f));
    // too few frames: the region is placed, the result is OutOfMemory
    let e = space.map_new(&mut pool, "more", Some(Location::Fixed(VirtAddr::from(0x40000))), 0x2000, f,
        VMMAllocMode::Lazy);
    assert_eq!(e, Err(VMMAllocError::OutOfMemory));
    assert_eq!(space.table.get_frame_of(0x40000), Some(0xA0000));
    assert_eq!(space.table.get_frame_of(0x41000), None);
    assert_eq!(space.vmm.lookup_addr(VirtAddr::from(0x40000)).unwrap().state, ObjectState::LazyAllocated(f));
    // a placement error leaves the table and the pool alone
    let mut pool = vec![0xD0000];
    let e = space.map_new(&mut pool, "clash", Some(Location::Fixed(VirtAddr::from(0x20000))), 0x1000, f,
        VMMAllocMode::Normal);
    assert_eq!(e, Err(VMMAllocError::Used));
    assert_eq!(pool, vec![0xD0000]);
}

#[test]
fn address_space_map_direct_maps_given_frames() {
    let mut space = AddressSpace::new(VirtualMemoryManager::new(VirtAddr::from(0x10000), 0x100000));
    let f = VMMMFlags(0);
    let frames = vec![0x9000_0000, 0x9000_3000];
    let a = space.map_direct("dev", None, 0x2000, f, &frames).unwrap();
    assert_eq!(space.table.get_frame_of(a.0 as u64), Some(0x9000_0000));
    assert_eq!(space.table.get_frame_of(a.0 as u64 + P), Some(0x9000_3000));
    assert_eq!(space.vmm.lookup_addr(a).unwrap().state, ObjectState::DMAAllocated(f));
    assert_eq!(space.map_direct("dev", None, 0x3000, f, &frames), Err(VMMAllocError::InvalidSize));
}

#[test]
fn address_space_map_direct_phys_follows_start_phys() {
    let mut space = AddressSpace::new(VirtualMemoryManager::new(VirtAddr::from(0x10000), 0x100000));
    let a = space
        .map_direct_phys("fb", Some(Location::Hint(VirtAddr::from(0x50000))), PhysAddr(0x12345), 3, VMMMFlags(0))
        .unwrap();
    assert!(a.0 >= 0x50000);
    assert_eq!(space.table.get_frame_of(a.0 as u64), Some(0x12000));
    assert_eq!(space.table.get_frame_of(a.0 as u64 + P), Some(0x13000));
    assert_eq!(space.table.get_frame_of(a.0 as u64 + 2 * P), Some(0x14000));
    assert_eq!(space.table.get_frame_of(a.0 as u64 + 3 * P), None);
}

#[test]
fn address_space_unmap_frees_and_collects_frames() {
    let mut space = AddressSpace::new(VirtualMemoryManager::new(VirtAddr::from(0x10000), 0x100000));
    let mut pool = vec![0xA0000, 0xB0000];
    let f = VMMMFlags(VMMMFlags::WRITEABLE);
    let a = space.map_new(&mut pool, "heap", None, 0x2000, f, VMMAllocMode::Normal).unwrap();
    let d = space.map_direct("dev", None, 0x1000, f, &vec![0x7000_0000]).unwrap();
    let mut pending = PendingUnmaps::new();
    assert!(space.unmap(&mut pending, a));
    assert_eq!(pending.frames, vec![0xB0000, 0xA0000]);
    assert_eq!(space.table.get_frame_of(a.0 as u64), None);
    assert!(!space.vmm.lookup_addr(a).unwrap().allocated());
    // a DMA region's frames belong to its device
    assert!(space.unmap(&mut pending, d));
    assert_eq!(pending.frames, vec![0xB0000, 0xA0000]);
    assert_eq!(space.table.get_frame_of(d.0 as u64), None);
    // outside the managed range
    assert!(!space.unmap(&mut pending, VirtAddr::from(0x1000)));
}

#[test]
fn address_space_grow_map_backs_new_pages() {
    let mut space = AddressSpace::new(VirtualMemoryManager::new(VirtAddr::from(0x10000), 0x100000));
    let mut pool = vec![0xA0000, 0xB0000, 0xC0000];
    let f = VMMMFlags(VMMMFlags::WRITEABLE);
    let a = space
        .map_new(&mut pool, "heap", Some(Location::Fixed(VirtAddr::from(0x20000))), 0x1000, f, VMMAllocMode::Normal)
        .unwrap();
    assert_eq!(space.grow_map(&mut pool, a, 0x2000), Ok(()));
    assert_eq!(space.vmm.lookup_addr(a).unwrap().size, 0x3000);
    assert_eq!(space.table.get_frame_of(0x21000), Some(0xB0000));
    assert_eq!(space.table.get_frame_of(0x22000), Some(0xA0000));
    assert_eq!(space.grow_map(&mut pool, VirtAddr::from(0x1000), 0x1000), Err(VMMAllocError::OutOfRange));
    // a lazily allocated region only grows
    let l = space
        .map_new(&mut vec![0xE0000], "lazy", Some(Location::Fixed(VirtAddr::from(0x40000))), 0x1000, f,
            VMMAllocMode::Lazy)
        .unwrap();
    assert_eq!(space.grow_map(&mut pool, l, 0x1000), Ok(()));
    assert_eq!(space.table.get_frame_of(0x41000), None);
}

#[test]
fn percpu_memory_is_backed() {
    let mut space = AddressSpace::new(VirtualMemoryManager::new(VirtAddr::from(0x10000), 0x100000));
    let mut pool = vec![0xA0000, 0xB0000, 0xC0000, 0xD0000];
    // three CPUs, a two-page section at 0x20000
    assert_eq!(init_memory(&mut space, &mut pool, 3, VirtAddr::from(0x20000), VirtAddr::from(0x22000)), Ok(()));
    let obj = space.vmm.lookup_addr(VirtAddr::from(0x22000)).unwrap();
    assert_eq!(obj.name, ".percpu.ap");
    assert_eq!(obj.size, 0x4000);
    assert_eq!(obj.state, ObjectState::Allocated(VMMMFlags(VMMMFlags::ZEROED | VMMMFlags::WRITEABLE)));
    assert_eq!(space.table.get_frame_of(0x22000), Some(0xD0000));
    assert_eq!(space.table.get_frame_of(0x25000), Some(0xA0000));
    assert!(pool.is_empty());
    // one CPU: nothing to map
    let mut other = AddressSpace::new(VirtualMemoryManager::new(VirtAddr::from(0x10000), 0x100000));
    assert_eq!(init_memory(&mut other, &mut pool, 1, VirtAddr::from(0x20000), VirtAddr::from(0x22000)), Ok(()));
    assert_eq!(other.vmm.len(), 1);
}

#[test]
fn cpu_ids_start_at_one_and_grow() {
    let mut c = CpuIdCounter::new();
    assert_eq!(c.from_u16(0), Some(CpuID(0)));
    assert_eq!(c.from_u16(1), None);
    assert_eq!(c.allocate_next(), CpuID(1));
    assert_eq!(c.allocate_next(), CpuID(2));
    assert_eq!(c.from_u16(0), Some(CpuID(0)));
    assert_eq!(c.from_u16(2), Some(CpuID(2)));
    assert_eq!(c.from_u16(3), None);
}

#[test]
fn unmapping_undoes_backing() {
    let mut t = PageTable::new();
    t.map_to(0x1000, 0x5000, flags()).unwrap();
    let mut pool = vec![0x10000, 0x20000, 0x30000];
    t.alloc_map(&mut pool, VirtAddr::from(0x8000), 2, flags()).unwrap();
    let mut pending = PendingUnmaps::new();
    t.unmap_pages(&mut pending, VirtAddr::from(0x8000), 2, true);
    // the frames come back in page order, the last of the pool first
    assert_eq!(pending.frames, vec![0x30000, 0x20000]);
    let mut rebuilt = pool.clone();
    rebuilt.extend(pending.frames.iter().rev());
    assert_eq!(rebuilt, vec![0x10000, 0x20000, 0x30000]);
    // the mapping is as it was
    assert_eq!(t.get_frame_of(0x1000), Some(0x5000));
    assert_eq!(t.get_frame_of(0x8000), None);
    assert_eq!(t.entries.len(), 1);
}
