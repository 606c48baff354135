use safa_core::addr::{align_down, align_up, to_next_page, to_previous_page, PhysAddr, VirtAddr, PAGE_SIZE};
use safa_core::paging::{copy_plan, copy_within_plan, CopyChunk, CopyWithinChunk, PendingUnmaps};
use safa_core::buddy::{actual_size, next_power_of_two, BuddyAllocator, BLOCK_HEADER_SIZE, INIT_HEAP_SIZE};
use safa_core::vmm::{Location, ObjectState, VMMAlloc, VMMAllocError, VMMAllocMode, VMMMFlags, VirtualMemoryManager};

/// A small deterministic source of indices standing in for the cycle counter.
struct Lcg(u64);

impl Lcg {
    fn next(&mut self) -> usize {
        self.0 = self.0.wrapping_mul(6364136223846793005).wrapping_add(1442695040888963407);
        (self.0 >> 33) as usize
    }
}

fn empty_flags() -> ObjectState {
    ObjectState::Allocated(VMMMFlags(0))
}

#[test]
fn allocate_random_regions() {
    const RUNS: usize = 1000;
    let mut vmm = VirtualMemoryManager::new(VirtAddr::from(0x1000), 0xFFFFFFFFFFF);
    let size_choices = [1024usize, 2048, 4096, 8192];
    let mut results = Vec::new();
    for curr_i in 0..RUNS {
        let size = size_choices[curr_i % size_choices.len()];
        let addr = vmm.allocate_next_region(size, empty_flags()).expect("Allocations ran out of memory");
        results.push(addr);
    }
    assert_eq!(vmm.len(), RUNS + 1, "Not all regions allocated");

    let mut rng = Lcg(7);
    for index in 0..RUNS {
        let random_i = (index + rng.next()) % results.len();
        let addr = results.swap_remove(random_i);
        vmm.deallocate_at(addr).expect("Failed to deallocate a region");
    }
    assert_eq!(vmm.len(), 1, "Failed to deallocate and combine all regions");
}

#[test]
fn allocate_random_regions_advanced() {
    #[derive(Clone, Copy)]
    enum Instruction {
        AllocateRandom(usize),
        NextSpecificAllocation,
    }
    const RUNS: usize = 1000;
    let mut vmm = VirtualMemoryManager::new(VirtAddr::from(0x1000), 0xFFFFFFFFFFF);
    let mut specific_allocations: Vec<(usize, usize)> = vec![
        (0x5000, 0x1000),
        (0xA000, 0x1000),
        (0x10000, 0x1000),
        (0xB000000, 0x1000),
        (0xF21000, 0x1000),
        (0xAFAF000, 0x1000),
        (0x12345000, 0x1000),
        (0x1f1000, 0x1000),
        (0x30000000, 0x1000),
        (0x20000000, 0x1000),
        (0x20001000, 0x1000),
    ];
    let instructions = [
        Instruction::AllocateRandom(1024),
        Instruction::AllocateRandom(2048),
        Instruction::AllocateRandom(4096),
        Instruction::AllocateRandom(8192),
        Instruction::NextSpecificAllocation,
    ];
    let mut results = Vec::new();
    for curr_i in 0..RUNS {
        let addr = match instructions[curr_i % instructions.len()] {
            Instruction::AllocateRandom(size) => {
                vmm.allocate_next_region(size, empty_flags()).expect("Allocations ran out of memory")
            }
            Instruction::NextSpecificAllocation => {
                let Some((addr, size)) = specific_allocations.pop() else {
                    continue;
                };
                let addr = VirtAddr::from(addr);
                if let Err(err) = vmm.allocate_at(addr, size, empty_flags()) {
                    panic!("Failed to allocate specific region: {:?}, addr: {:?}, size: {}", err, addr, size);
                }
                addr
            }
        };
        results.push(addr);
    }
    assert!(vmm.len() >= results.len(), "VMM has {} objects, but expected at least {}", vmm.len(), results.len());

    let mut rng = Lcg(11);
    let to_deallocate = results.len();
    for index in 0..to_deallocate {
        let random_i = (index + rng.next()) % results.len();
        let addr = results.swap_remove(random_i);
        vmm.deallocate_at(addr).expect("Failed to deallocate a region");
    }
    assert_eq!(vmm.len(), 1, "Failed to deallocate and combine all regions");
}

#[test]
fn vmm_next_region_takes_start_of_free_space() {
    let mut vmm = VirtualMemoryManager::new(VirtAddr::from(0x1000), 0x10000);
    let a = vmm.allocate_next_region(0x1000, empty_flags()).unwrap();
    let b = vmm.allocate_next_region(0x2000, empty_flags()).unwrap();
    assert_eq!(a, VirtAddr::from(0x1000));
    assert_eq!(b, VirtAddr::from(0x2000));
    assert_eq!(vmm.len(), 3);
    let regions = vmm.debug_regions();
    assert_eq!(regions[2].addr, VirtAddr::from(0x4000));
    assert_eq!(regions[2].size, 0x10000 - 0x3000);
    assert_eq!(regions[2].state, ObjectState::Free);
}

#[test]
fn vmm_alloc_then_free_restores_layout() {
    let mut vmm = VirtualMemoryManager::new(VirtAddr::from(0x1000), 0x10000);
    let before = vmm.debug_regions();
    let a = vmm.allocate_next_region(0x3000, empty_flags()).unwrap();
    assert_eq!(vmm.deallocate_at(a), Some((empty_flags(), 0x3000)));
    let after = vmm.debug_regions();
    assert_eq!(before.len(), after.len());
    assert_eq!(before[0].addr, after[0].addr);
    assert_eq!(before[0].size, after[0].size);

    vmm.allocate_at(VirtAddr::from(0x5000), 0x1000, empty_flags()).unwrap();
    assert_eq!(vmm.len(), 3);
    assert!(vmm.unmap(VirtAddr::from(0x5000)));
    assert_eq!(vmm.len(), 1);
}

#[test]
fn vmm_errors() {
    let mut vmm = VirtualMemoryManager::new(VirtAddr::from(0x1000), 0x4000);
    assert_eq!(vmm.allocate_next_region(0x5000, empty_flags()), Err(VMMAllocError::OutOfMemory));
    assert_eq!(vmm.allocate_at(VirtAddr::from(0x10000), 0x1000, empty_flags()), Err(VMMAllocError::OutOfRange));
    vmm.allocate_at(VirtAddr::from(0x2000), 0x1000, empty_flags()).unwrap();
    assert_eq!(vmm.allocate_at(VirtAddr::from(0x2000), 0x1000, empty_flags()), Err(VMMAllocError::Used));
    assert_eq!(vmm.deallocate_at(VirtAddr::from(0x10000)), None);
    assert!(!vmm.unmap(VirtAddr::from(0x100)));
    assert_eq!(vmm.deallocate_at(VirtAddr::from(0x2000)), Some((empty_flags(), 0x1000)));
}

#[test]
fn vmm_map_new_fixed_and_hint() {
    let mut vmm = VirtualMemoryManager::new(VirtAddr::from(0x10000), 0x100000);
    let flags = VMMMFlags(VMMMFlags::WRITEABLE);
    let fixed = vmm
        .map_new("fixed", Some(Location::Fixed(VirtAddr::from(0x20000))), 0x2000, flags, VMMAllocMode::Normal)
        .unwrap();
    assert_eq!(fixed, VirtAddr::from(0x20000));
    let hinted = vmm
        .map_new("hinted", Some(Location::Hint(VirtAddr::from(0x40000))), 0x1000, flags, VMMAllocMode::Lazy)
        .unwrap();
    assert_eq!(hinted, VirtAddr::from(0x40000));
    let obj = vmm.lookup_addr(VirtAddr::from(0x40800)).unwrap();
    assert_eq!(obj.state, ObjectState::LazyAllocated(flags));
    let next = VMMAlloc::new("next").allocate_new(&mut vmm, 0x1000).unwrap();
    assert_eq!(next, VirtAddr::from(0x41000));
}

#[test]
fn vmm_flags_to_entry_flags() {
    let f = VMMMFlags(VMMMFlags::WRITEABLE | VMMMFlags::USER_ACCESSIBLE).to_entry_flags();
    // writable, user accessible, never executable
    assert_eq!(f.0, 1 | 2 | 4);
    let g = VMMMFlags(VMMMFlags::EXECUTABLE).to_entry_flags();
    assert_eq!(g.0, 0);
}

#[test]
fn buddy_allocator_test() {
    let mut heap = BuddyAllocator::create(VirtAddr::from(0x10_0000));
    let start = heap.heap_start();
    let mut given = Vec::new();
    for i in 1..=100usize {
        let (addr, room) = heap.allocmut(i * 4).expect("heap exhausted");
        assert!(room >= i * 4);
        assert!(addr.0 >= start.0 + BLOCK_HEADER_SIZE);
        given.push(addr);
    }
    for w in given.windows(2) {
        assert_ne!(w[0], w[1]);
    }
    for addr in given {
        heap.deallocmut(addr);
    }
    assert_eq!(heap.blocks.len(), 1);
    assert!(heap.blocks[0].free);
}

#[test]
fn buddy_sizes() {
    assert_eq!(next_power_of_two(1), 1);
    assert_eq!(next_power_of_two(17), 32);
    assert_eq!(next_power_of_two(64), 64);
    assert_eq!(actual_size(100), 128);
    assert_eq!(actual_size(16), 32);
    let heap = BuddyAllocator::create(VirtAddr::from(0x1000));
    assert_eq!(heap.blocks[0].size, INIT_HEAP_SIZE);
    assert_eq!(heap.heap_end().0, 0x1000 + INIT_HEAP_SIZE);
}

#[test]
fn buddy_alloc_then_free_is_single_block() {
    let mut heap = BuddyAllocator::create(VirtAddr::from(0x1000));
    let (a, room) = heap.allocmut(100).unwrap();
    assert_eq!(room, 128 - BLOCK_HEADER_SIZE);
    // splitting the lone first block hands out the last buddy split off
    assert_eq!(a.0, 0x1000 + 128 + BLOCK_HEADER_SIZE);
    assert!(heap.blocks.len() > 1);
    heap.deallocmut(a);
    assert_eq!(heap.blocks.len(), 1);
    assert_eq!(heap.blocks[0].size, INIT_HEAP_SIZE);
}

#[test]
fn address_arithmetic() {
    assert_eq!(align_up(0x1001, 0x1000), 0x2000);
    assert_eq!(align_up(0x1000, 0x1000), 0x1000);
    assert_eq!(align_down(0x1fff, 0x1000), 0x1000);
    assert_eq!(to_next_page(1), PAGE_SIZE);
    assert_eq!(to_previous_page(PAGE_SIZE + 5), PAGE_SIZE);
    let v = VirtAddr::from(0x1234);
    assert_eq!(v.to_next_page(), VirtAddr::from(0x2000));
    assert_eq!(v.to_previous_page(), VirtAddr::from(0x1000));
    assert_eq!(v.add(0x10).diff(v), 0x10);
    assert!(v.is_in_lower_half());
    assert!(!VirtAddr::from(usize::MAX).is_in_lower_half());
    assert!(VirtAddr::from(usize::MAX / 2).is_in_lower_half());
    assert!(!VirtAddr::from(usize::MAX / 2 + 1).is_in_lower_half());
    let p = PhysAddr::from(0x5000);
    assert_eq!(p.into_virt().into_phys(), p);
}

#[test]
fn copying_into_mapped_pages() {
    let chunk = |page: usize, offset: usize, from: usize, len: usize| CopyChunk { page: VirtAddr::from(page), offset, from, len };
    assert_eq!(
        copy_plan(VirtAddr::from(0x1ff0), 0x30),
        vec![chunk(0x1000, 0xff0, 0, 0x10), chunk(0x2000, 0, 0x10, 0x20)]
    );
    assert_eq!(
        copy_plan(VirtAddr::from(0x1000), 0x2000),
        vec![chunk(0x1000, 0, 0, 0x1000), chunk(0x2000, 0, 0x1000, 0x1000)]
    );
    assert_eq!(copy_plan(VirtAddr::from(0x1234), 0), vec![]);
    let plan = copy_plan(VirtAddr::from(0x7777), 0x5432);
    assert_eq!(plan.iter().map(|c| c.len).sum::<usize>(), 0x5432);
    assert!(plan.iter().all(|c| c.offset + c.len <= PAGE_SIZE && c.page.0 + c.offset == 0x7777 + c.from));
}

#[test]
fn regions_carry_their_names() {
    let mut vmm = VirtualMemoryManager::new(VirtAddr::from(0x1000), 0x10000);
    vmm.inner
        .allocate_at("t", VirtAddr::from(0x3000), 0x2000, ObjectState::Allocated(VMMMFlags(VMMMFlags::WRITEABLE)))
        .unwrap();
    assert_eq!(vmm.len(), 3);
    let names: Vec<&str> = vmm.inner.objects.iter().map(|o| o.name).collect();
    assert_eq!(names, vec!["UNNAMED", "t", "UNNAMED"]);
    assert_eq!(vmm.inner.objects[1].addr.0, 0x3000);
    assert_eq!(vmm.inner.objects[1].size, 0x2000);
    vmm.allocate_at(VirtAddr::from(0x8000), 0x1000, ObjectState::Allocated(VMMMFlags(0))).unwrap();
    assert!(vmm.inner.objects.iter().any(|o| o.addr.0 == 0x8000 && o.name == "UNNAMED"));
    let a = vmm.map_new("heap", None, 0x1000, VMMMFlags(0), VMMAllocMode::Normal).unwrap();
    assert!(vmm.inner.objects.iter().any(|o| o.addr == a && o.name == "heap"));
}

#[test]
fn copying_within_a_page_table() {
    let chunk = |sp: usize, so: usize, dp: usize, d_off: usize, len: usize| CopyWithinChunk {
        src_page: VirtAddr(sp),
        src_offset: so,
        dest_page: VirtAddr(dp),
        dest_offset: d_off,
        len,
    };
    assert_eq!(
        copy_within_plan(VirtAddr(0x1010), VirtAddr(0x3010), 0x1000),
        vec![chunk(0x1000, 0x10, 0x3000, 0x10, 0xff0), chunk(0x2000, 0, 0x4000, 0, 0x10)]
    );
    // a page-aligned copy also steps through the page where it ends, taking nothing there
    assert_eq!(
        copy_within_plan(VirtAddr(0x1000), VirtAddr(0x5000), 0x1000),
        vec![chunk(0x1000, 0, 0x5000, 0, 0x1000), chunk(0x2000, 0, 0x6000, 0, 0)]
    );
    assert_eq!(
        copy_within_plan(VirtAddr(0x1100), VirtAddr(0x2200), 0x20),
        vec![chunk(0x1000, 0x100, 0x2000, 0x200, 0x20)]
    );
}

#[test]
fn pending_unmaps_widen_and_flush() {
    let mut p = PendingUnmaps::new();
    assert!(p.apply().is_none());
    p.on_each_unmap(0x7000);
    p.after_unmap(VirtAddr(0x5000), VirtAddr(0x6000));
    p.on_each_unmap(0x9000);
    p.after_unmap(VirtAddr(0x3000), VirtAddr(0x4000));
    p.after_unmap(VirtAddr(0x8000), VirtAddr(0x9000));
    let (start, end, frames) = p.apply().unwrap();
    assert_eq!(start, VirtAddr(0x3000));
    assert_eq!(end, VirtAddr(0xA000));
    assert_eq!(frames, vec![0x7000, 0x9000]);
}

#[test]
fn freeing_everything_in_any_order_leaves_one_region() {
    let mut vmm = VirtualMemoryManager::new(VirtAddr::from(0x1000), 0x10_0000);
    let flags = ObjectState::Allocated(VMMMFlags(0));
    let mut addrs = Vec::new();
    for size in [0x1000usize, 0x3000, 0x2000, 0x1000, 0x4000] {
        addrs.push(vmm.allocate_next_region(size, flags).unwrap());
    }
    for i in [3usize, 0, 4, 1, 2] {
        assert!(vmm.deallocate_at(addrs[i]).is_some());
    }
    assert_eq!(vmm.len(), 1);
}

#[test]
fn hhdm_addresses_lie_in_the_upper_half() {
    let v = PhysAddr(0x1000).into_virt();
    assert_eq!(v, VirtAddr(0xffff_8000_0000_1000));
    assert!(!v.is_in_lower_half());
}
