use safa_core::addr::{VirtAddr, PAGE_SIZE};
use safa_core::address_space::AddressSpace;
use safa_core::elf::TLSInfo;
use safa_core::process_mem::{
    allocate_kernel_stack, allocate_root_user_env, allocate_tls, allocate_user_stack, mem_map, root_env_layout,
    DEFAULT_STACK_SIZE,
};
use safa_core::threads::{new_with_root_thread, RemovedThread, ThreadWait, ThreadsManager};
use safa_core::vmm::{Location, ObjectState, VMMAllocError, VMMMFlags, VirtualMemoryManager};

fn word(x: usize) -> [u8; 8] {
    (x as u64).to_le_bytes()
}

fn strings(v: &[&str]) -> Vec<Vec<u8>> {
    v.iter().map(|s| s.as_bytes().to_vec()).collect()
}

#[test]
fn root_environment_block() {
    let mut vmm = VirtualMemoryManager::new(VirtAddr::from(0x10_0000), 0x100_0000);
    let env = strings(&["A=1"]);
    let args = strings(&["prog", "x"]);
    let abi = vec![0xAAu8; 8];
    let layout = root_env_layout(0x1000, &env, &args, abi.len());
    assert_eq!(layout.raw_args_section_start, 12);
    assert_eq!(layout.env_pointers_off, 32);
    assert_eq!(layout.args_pointers_off, 48);
    assert_eq!(layout.abi_structures_off, 80);
    assert_eq!(layout.stack_off, 96);
    assert_eq!(layout.raw_size, 88 + 0x1000);

    let (alloc, (stack_end, envv, argv, abi_at), image) =
        allocate_root_user_env(&mut vmm, 0x1000, &env, &args, &abi).unwrap();
    let a = alloc.start().0;
    assert_eq!(a, 0x10_0000);
    assert_eq!(envv.0, a + 32);
    assert_eq!(argv.0, a + 48);
    assert_eq!(abi_at.0, a + 80);
    assert_eq!(stack_end.0, a + 96 + 0x1000);

    let mut expected = Vec::new();
    expected.extend_from_slice(&word(1));
    expected.extend_from_slice(b"A=1\0");
    expected.extend_from_slice(&word(2));
    expected.extend_from_slice(b"prog\0x\0");
    expected.extend_from_slice(&[0; 5]);
    expected.extend_from_slice(&word(a + 8));
    expected.extend_from_slice(&word(3));
    expected.extend_from_slice(&word(a + 20));
    expected.extend_from_slice(&word(4));
    expected.extend_from_slice(&word(a + 25));
    expected.extend_from_slice(&word(1));
    expected.extend_from_slice(&abi);
    assert_eq!(image, expected);

    // the block takes whole pages of user memory
    let obj = vmm.lookup_addr(VirtAddr::from(a)).unwrap();
    assert_eq!(obj.size, 2 * PAGE_SIZE);
    assert!(matches!(obj.state, ObjectState::Allocated(_)));
}

#[test]
fn empty_root_environment() {
    let layout = root_env_layout(0, &Vec::new(), &Vec::new(), 0);
    assert_eq!(layout.env_pointers_off, 16);
    assert_eq!(layout.raw_size, 16);
}

#[test]
fn tls_block() {
    let mut vmm = VirtualMemoryManager::new(VirtAddr::from(0x20_0000), 0x10_0000);
    let (alloc, tp, info) = allocate_tls(&mut vmm, VirtAddr::from(0x40_1000), 16, 20, 10).unwrap();
    let base = alloc.start().0;
    assert_eq!(tp.0, base + 32);
    let mut expected = Vec::new();
    expected.extend_from_slice(&word(base + 32));
    expected.extend_from_slice(&word(base));
    expected.extend_from_slice(&word(20));
    assert_eq!(info, expected);
    // alignment below 8 still rounds to 8
    let (alloc2, tp2, _) = allocate_tls(&mut vmm, VirtAddr::from(0x40_1000), 1, 9, 9).unwrap();
    assert_eq!(tp2.0, alloc2.start().0 + 16);
}

#[test]
fn stacks() {
    let mut vmm = VirtualMemoryManager::new(VirtAddr::from(0x1000), 0x100_0000);
    let (user, end) = allocate_user_stack(&mut vmm, 0x1800).unwrap();
    assert_eq!(end.0, user.start().0 + 0x1800);
    let mut kernel = VirtualMemoryManager::new(VirtAddr::from(0x8000_0000), 0x100_0000);
    let (k, kend) = allocate_kernel_stack(&mut kernel, DEFAULT_STACK_SIZE).unwrap();
    assert!(kend.0 > k.start().0);
    assert!(kend.0 <= k.start().0 + DEFAULT_STACK_SIZE + PAGE_SIZE);
    let mut tiny = VirtualMemoryManager::new(VirtAddr::from(0x1000), 0x1000);
    assert!(allocate_user_stack(&mut tiny, 0x2000).is_err());
}

#[test]
fn mapping_user_memory() {
    let mut space = AddressSpace::new(VirtualMemoryManager::new(VirtAddr::from(0x1000), 0x10_0000));
    let mut pool: Vec<u64> = vec![0xA000, 0xB000, 0xC000, 0xD000];
    let lazy = mem_map(&mut space, &mut pool, None, 2, VMMMFlags(VMMMFlags::WRITEABLE), false, None).unwrap();
    let obj = space.vmm.lookup_addr(lazy.start()).unwrap();
    assert_eq!(obj.size, 2 * PAGE_SIZE);
    assert_eq!(
        obj.state,
        ObjectState::LazyAllocated(VMMMFlags(VMMMFlags::USER_ACCESSIBLE | VMMMFlags::ZEROED | VMMMFlags::WRITEABLE))
    );
    // both pages are backed, from the end of the pool
    assert_eq!(space.table.get_frame_of(lazy.start().0 as u64), Some(0xD000));
    assert_eq!(space.table.get_frame_of(lazy.start().0 as u64 + PAGE_SIZE as u64), Some(0xC000));
    assert_eq!(pool, vec![0xA000, 0xB000]);
    let fixed = mem_map(&mut space, &mut pool, Some(Location::Fixed(VirtAddr::from(0x8000))), 1, VMMMFlags(0), true, None)
        .unwrap();
    assert_eq!(fixed.start(), VirtAddr::from(0x8000));
    assert_eq!(space.table.get_frame_of(0x8000), Some(0xB000));
    let device =
        mem_map(&mut space, &mut pool, None, 2, VMMMFlags(0), false, Some((7, vec![0x7000_0000, 0x7000_1000]))).unwrap();
    assert!(matches!(space.vmm.lookup_addr(device.start()).unwrap().state, ObjectState::DMAAllocated(_)));
    assert_eq!(device.interface, Some(7));
    // page k of the device region maps to the device's frame k
    assert_eq!(space.table.get_frame_of(device.start().0 as u64), Some(0x7000_0000));
    assert_eq!(space.table.get_frame_of(device.start().0 as u64 + PAGE_SIZE as u64), Some(0x7000_1000));
    assert_eq!(
        mem_map(&mut space, &mut pool, None, 3, VMMMFlags(0), false, Some((7, vec![0x7000_0000, 0x7000_1000]))).err(),
        Some(VMMAllocError::InvalidSize)
    );
    // a populated mapping with too few frames left
    assert_eq!(
        mem_map(&mut space, &mut pool, None, 2, VMMMFlags(0), true, None).err(),
        Some(VMMAllocError::OutOfMemory)
    );
}

#[test]
fn thread_ids_and_table() {
    let mut m = ThreadsManager::new_uninit();
    assert_eq!(m.next_tid(), 0);
    assert_eq!(m.new_tid(), 0);
    assert_eq!(m.new_tid(), 1);
    m.insert_thread(0, 100);
    m.insert_thread(1, 101);
    assert_eq!(m.remove_tid(1), Err(101));
    assert_eq!(m.remove(1), RemovedThread::Removed { handle: 101, was_last: false });
    assert_eq!(m.remove(1), RemovedThread::NotFound);
    assert_eq!(m.remove_tid(1), Ok(true));
    assert_eq!(m.remove_tid(1), Ok(false));
    assert_eq!(m.next_tid(), 1);
    assert_eq!(m.remove(0), RemovedThread::Removed { handle: 100, was_last: true });
    assert!(m.is_empty());
}

#[test]
fn root_thread_of_new_process() {
    let mut vmm = VirtualMemoryManager::new(VirtAddr::from(0x10_0000), 0x1000_0000);
    let mut kernel = VirtualMemoryManager::new(VirtAddr::from(0x8000_0000), 0x1000_0000);
    let tls = TLSInfo { addr: VirtAddr::from(0x40_2000), memsize: 0x30, filesize: 0x10, alignment: 8 };
    let (manager, root) = new_with_root_thread(
        &mut vmm,
        &mut kernel,
        Some(0x4000),
        &strings(&["init"]),
        &strings(&[]),
        &vec![0u8; 16],
        true,
        Some(tls),
    )
    .unwrap();
    assert_eq!(root.tid, 0);
    assert_eq!(manager.next_tid(), 1);
    assert_eq!(root.entry_args[0], 1);
    assert_eq!(root.entry_args[2], 0);
    let a = root.memory.user_stack.start().0;
    assert_eq!(root.entry_args[3], a + 24);
    assert_eq!(root.entry_args[1], a + 24);
    assert_eq!(root.entry_args[4], a + 40);
    assert_eq!(root.memory.stack_end.0, a + 64 + 0x4000);
    assert!(root.memory.tls.is_some());
    let create = manager.create_thread(&mut vmm, &mut kernel, None).unwrap();
    assert_eq!(create.1, 1);
}

#[test]
fn releasing_allocations() {
    let mut vmm = VirtualMemoryManager::new(VirtAddr::from(0x1000), 0x10_0000);
    let (stack, _) = allocate_user_stack(&mut vmm, 0x3000).unwrap();
    assert_eq!(vmm.len(), 2);
    assert!(stack.release(&mut vmm));
    assert_eq!(vmm.len(), 1);
}

#[test]
fn failed_thread_creation_releases_its_memory() {
    let tls = TLSInfo { addr: VirtAddr::from(0x40_2000), memsize: 0x30, filesize: 0x10, alignment: 8 };
    let mut manager = ThreadsManager::new_uninit();
    manager.master_tls = Some(tls);
    let mut vmm = VirtualMemoryManager::new(VirtAddr::from(0x1000), 0x100_0000);
    // a kernel manager too small for a kernel stack
    let mut kernel = VirtualMemoryManager::new(VirtAddr::from(0x8000_0000), 0x1000);
    assert!(manager.create_thread(&mut vmm, &mut kernel, Some(0x2000)).is_err());
    assert_eq!(vmm.len(), 1);
    assert_eq!(kernel.len(), 1);

    let mut kernel = VirtualMemoryManager::new(VirtAddr::from(0x8000_0000), 0x1000_0000);
    // room for the user stack but not for the TLS block after it
    let mut tight = VirtualMemoryManager::new(VirtAddr::from(0x1000), 0x2000);
    assert!(manager.create_thread(&mut tight, &mut kernel, Some(0x2000)).is_err());
    assert_eq!(tight.len(), 1);
    assert_eq!(kernel.len(), 1);
}

#[test]
fn failed_root_thread_releases_its_memory() {
    let tls = TLSInfo { addr: VirtAddr::from(0x40_2000), memsize: 0x30, filesize: 0x10, alignment: 8 };
    let mut kernel = VirtualMemoryManager::new(VirtAddr::from(0x8000_0000), 0x1000_0000);
    // room for the environment block and stack, but not for the TLS block
    let mut vmm = VirtualMemoryManager::new(VirtAddr::from(0x10_0000), 0x5000);
    let r = new_with_root_thread(
        &mut vmm,
        &mut kernel,
        Some(0x4000),
        &strings(&["init"]),
        &strings(&[]),
        &vec![0u8; 16],
        true,
        Some(tls),
    );
    assert!(r.is_err());
    assert_eq!(vmm.len(), 1);
    assert_eq!(kernel.len(), 1);
}

#[test]
fn kernel_stacks_start_on_pages() {
    let mut kernel = VirtualMemoryManager::new(VirtAddr::from(0x8000_0000), 0x100_0000);
    let (k, _) = allocate_kernel_stack(&mut kernel, 0x1800).unwrap();
    assert_eq!(k.start().0 % PAGE_SIZE, 0);
    let (k2, _) = allocate_kernel_stack(&mut kernel, 0x10).unwrap();
    assert_eq!(k2.start().0 % PAGE_SIZE, 0);
}

#[test]
fn waiting_for_a_thread() {
    let mut m = ThreadsManager::new_uninit();
    assert_eq!(m.new_tid(), 0);
    assert_eq!(m.new_tid(), 1);
    m.insert_thread(1, 501);
    assert_eq!(m.wait_for_thread(7, |_| false), ThreadWait::NotFound);
    assert_eq!(m.wait_for_thread(1, |_| false), ThreadWait::Wait(501));
    assert_eq!(m.wait_for_thread(1, |h| h == 501), ThreadWait::Done);
    assert_eq!(m.wait_for_thread(0, |_| false), ThreadWait::Done);
    assert_eq!(m.wait_for_thread(0, |_| false), ThreadWait::NotFound);
    assert_eq!(m.next_tid(), 0);
}
