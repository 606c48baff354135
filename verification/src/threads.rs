//! The threads of a process: thread IDs handed out by a slab, the table of
//! live threads, and the memory that a new thread needs.
use crate::addr::{align_up_spec, to_next_page, VirtAddr, PAGE_SIZE};
use crate::elf::TLSInfo;
use crate::paging::MapToError;
use crate::process_mem::{
    allocate_kernel_stack, allocate_root_user_env, allocate_tls, allocate_user_stack, le8, lemma_align_up_ge,
    mask_align_up, undo_allocation,
    root_env_fits, root_env_image, root_layout, user_flags, views, TrackedMemoryAllocation, DEFAULT_STACK_SIZE,
    UTHREAD_INFO_ALIGN, UTHREAD_INFO_SIZE,
};
use crate::table::{table_contents, HandleTable, IdSlab};
use crate::thread::Tid;
use crate::vmm::{
    alloc_next_spec, all_nonempty, coalesced, lemma_alloc_next_nonempty, tiles, ObjectState, Region, VMMAllocError,
    VMMMFlags, VirtualMemoryManager,
};
use vstd::prelude::*;

verus! {

/// The threads of a process.
pub struct ThreadsManager {
    pub thread_ids: IdSlab,
    pub threads: HandleTable,
    pub userspace_process: bool,
    /// The master TLS image of the process, if it has one.
    pub master_tls: Option<TLSInfo>,
}

/// The memory of a new thread: its user stack and where it ends, its kernel
/// stack and where it ends, and its TLS block with the thread pointer and the
/// bytes of the thread-local information block.
pub struct ThreadMemory {
    pub user_stack: TrackedMemoryAllocation,
    pub stack_end: VirtAddr,
    pub kernel_stack: TrackedMemoryAllocation,
    pub kernel_stack_end: VirtAddr,
    pub tls: Option<(TrackedMemoryAllocation, VirtAddr, Vec<u8>)>,
}

/// Where waiting for a thread stands.
#[derive(Clone, Copy, Debug, PartialEq, Eq, Structural)]
pub enum ThreadWait {
    /// No thread ever had that ID.
    NotFound,
    /// The thread has exited.
    Done,
    /// The thread with this handle is alive: sleep until it exits.
    Wait(u64),
}

/// What became of a thread that left the table.
#[derive(Clone, Copy, Debug, PartialEq, Eq, Structural)]
pub enum RemovedThread {
    /// No thread has that ID.
    NotFound,
    /// The thread left; when it was the last one, the process is cleaned up.
    Removed { handle: u64, was_last: bool },
}

/// Whether a TLS block for `tls` can be laid out in the address space.
pub open spec fn tls_fits(tls: TLSInfo) -> bool {
    let a = if tls.alignment > UTHREAD_INFO_ALIGN { tls.alignment } else { UTHREAD_INFO_ALIGN };
    &&& tls.alignment >= 1
    &&& tls.memsize + a - 1 <= usize::MAX
    &&& mask_align_up(tls.memsize as int, a as int) + UTHREAD_INFO_SIZE + PAGE_SIZE <= usize::MAX
}

/// The alignment of a TLS block for `tls`: its own, at least 8.
pub open spec fn tls_alignment(tls: TLSInfo) -> int {
    if tls.alignment > UTHREAD_INFO_ALIGN { tls.alignment as int } else { 8 }
}

/// The TLS block's size before the information block: the image rounded
/// up to the alignment.
pub open spec fn tls_aligned_size(tls: TLSInfo) -> int {
    mask_align_up(tls.memsize as int, tls_alignment(tls))
}

/// Allocating the TLS block for `tls`, if any, in the regions `s`: where it
/// starts (0 without TLS) and the regions after.
pub open spec fn tls_alloc(s: Seq<Region>, tls: Option<TLSInfo>) -> (Result<int, VMMAllocError>, Seq<Region>) {
    match tls {
        None => (Ok(0), s),
        Some(t) => alloc_next_spec(
            s,
            align_up_spec(UTHREAD_INFO_SIZE + tls_aligned_size(t), PAGE_SIZE as int),
            ObjectState::Allocated(user_flags()),
        ),
    }
}

/// Allocating a kernel stack of the default size in the regions `s`.
pub open spec fn kernel_stack_alloc(s: Seq<Region>) -> (Result<int, VMMAllocError>, Seq<Region>) {
    alloc_next_spec(
        s,
        align_up_spec(DEFAULT_STACK_SIZE as int, PAGE_SIZE as int),
        ObjectState::Allocated(VMMMFlags((VMMMFlags::ZEROED | VMMMFlags::WRITEABLE) as u8)),
    )
}

/// `m` is the memory of a thread whose user stack is `user_stack` ending at
/// `stack_end`, with a TLS block at `tls_base` for `tls` if there is one and
/// a kernel stack at `kstack`.
pub open spec fn memory_is(
    m: ThreadMemory,
    user_stack: TrackedMemoryAllocation,
    stack_end: VirtAddr,
    tls: Option<TLSInfo>,
    tls_base: int,
    kstack: int,
) -> bool {
    &&& m.user_stack == user_stack
    &&& m.stack_end == stack_end
    &&& m.kernel_stack.addr.0 == kstack && !m.kernel_stack.process_owned && m.kernel_stack.interface is None
    &&& m.kernel_stack_end.0 == kstack + align_up_spec(DEFAULT_STACK_SIZE as int, PAGE_SIZE as int)
    &&& tls_is(m.tls, tls, tls_base)
}

/// `x` is the TLS block at `tls_base` for `tls`, if there is one: the
/// allocation, the thread pointer past the aligned image, and the bytes of
/// the thread-local information block.
pub open spec fn tls_is(x: Option<(TrackedMemoryAllocation, VirtAddr, Vec<u8>)>, tls: Option<TLSInfo>, tls_base: int) -> bool {
    match tls {
        None => x is None,
        Some(t) => x matches Some((alloc, tp, info)) && alloc.addr.0 == tls_base && alloc.process_owned
            && alloc.interface is None && tp.0 == tls_base + tls_aligned_size(t) && info@ == le8(
            tls_base + tls_aligned_size(t),
        ) + le8(tls_base) + le8(t.memsize as int),
    }
}

/// The bytes a TLS block for `tls` takes, in whole pages.
pub open spec fn tls_pages(t: TLSInfo) -> int {
    align_up_spec(UTHREAD_INFO_SIZE + tls_aligned_size(t), PAGE_SIZE as int)
}

/// The bytes of a kernel stack, in whole pages.
pub open spec fn kernel_stack_pages() -> int {
    align_up_spec(DEFAULT_STACK_SIZE as int, PAGE_SIZE as int)
}

/// The state of a kernel stack's region.
pub open spec fn kernel_stack_state() -> ObjectState {
    ObjectState::Allocated(VMMMFlags((VMMMFlags::ZEROED | VMMMFlags::WRITEABLE) as u8))
}

impl ThreadsManager {
    /// The IDs in use.
    pub open spec fn ids(&self) -> Set<usize> {
        self.thread_ids.keys()
    }

    /// The ID the next thread gets.
    pub open spec fn next_id(&self) -> usize {
        self.thread_ids.next()
    }

    /// The live threads, by ID.
    pub open spec fn threads(&self) -> Map<u64, u64> {
        table_contents(self.threads)
    }

    fn new(userspace_process: bool, master_tls: Option<TLSInfo>) -> (r: Self)
        ensures
            r.ids() == Set::<usize>::empty(),
            r.next_id() == 0,
            r.threads() == Map::<u64, u64>::empty(),
            r.userspace_process == userspace_process,
            r.master_tls == master_tls,
    {
        ThreadsManager { thread_ids: IdSlab::new(), threads: HandleTable::new(), userspace_process, master_tls }
    }

    /// A manager of no threads, of a kernel process without TLS.
    pub fn new_uninit() -> (r: Self)
        ensures
            r.ids() == Set::<usize>::empty(),
            r.next_id() == 0,
            r.threads() == Map::<u64, u64>::empty(),
            !r.userspace_process,
            r.master_tls is None,
    {
        Self::new(false, None)
    }

    /// The ID that the next thread gets.
    pub fn next_tid(&self) -> (r: Tid)
        ensures
            r == self.next_id() as Tid,
    {
        self.thread_ids.vacant_key() as Tid
    }

    /// Takes the next ID.
    pub fn new_tid(&mut self) -> (r: Tid)
        ensures
            r == old(self).next_id() as Tid,
            final(self).ids() == old(self).ids().insert(old(self).next_id()),
            final(self).threads() == old(self).threads(),
            final(self).userspace_process == old(self).userspace_process,
            final(self).master_tls == old(self).master_tls,
    {
        self.thread_ids.insert() as Tid
    }

    /// Records the thread `handle` under the ID `tid`.
    pub fn insert_thread(&mut self, tid: Tid, handle: u64)
        ensures
            final(self).threads() == old(self).threads().insert(tid as u64, handle),
            final(self).ids() == old(self).ids(),
            final(self).next_id() == old(self).next_id(),
            final(self).userspace_process == old(self).userspace_process,
            final(self).master_tls == old(self).master_tls,
    {
        self.threads.insert(tid as u64, handle);
    }

    /// Whether no thread is live.
    pub fn is_empty(&self) -> (r: bool)
        ensures
            r == (self.threads().len() == 0),
    {
        self.threads.len() == 0
    }

    /// Removes the thread `tid` from the table; the process is cleaned up
    /// when it was the last one.
    pub fn remove(&mut self, tid: Tid) -> (r: RemovedThread)
        requires
            old(self).threads().dom().finite(),
        ensures
            final(self).threads() == old(self).threads().remove(tid as u64),
            final(self).ids() == old(self).ids(),
            final(self).next_id() == old(self).next_id(),
            final(self).userspace_process == old(self).userspace_process,
            final(self).master_tls == old(self).master_tls,
            match r {
                RemovedThread::NotFound => !old(self).threads().contains_key(tid as u64),
                RemovedThread::Removed { handle, was_last } => old(self).threads().contains_key(tid as u64)
                    && handle == old(self).threads()[tid as u64] && was_last == (final(self).threads().len() == 0),
            },
    {
        match self.threads.remove(tid as u64) {
            Some(handle) => {
                let was_last = self.is_empty();
                RemovedThread::Removed { handle, was_last }
            },
            None => RemovedThread::NotFound,
        }
    }

    /// Releases the ID `tid` when no live thread has it: `Ok(true)` when it
    /// was in use, `Ok(false)` when it never was, and the thread that has it
    /// otherwise.
    pub fn remove_tid(&mut self, tid: Tid) -> (r: Result<bool, u64>)
        ensures
            old(self).threads().contains_key(tid as u64) ==> r == Err::<bool, u64>(old(self).threads()[tid as u64])
                && final(self).ids() == old(self).ids() && final(self).next_id() == old(self).next_id(),
            !old(self).threads().contains_key(tid as u64) ==> r == Ok::<bool, u64>(
                old(self).ids().contains(tid as usize),
            ) && final(self).ids() == old(self).ids().remove(tid as usize) && final(self).next_id() == (if old(
                self,
            ).ids().contains(tid as usize) {
                tid as usize
            } else {
                old(self).next_id()
            }),
            final(self).threads() == old(self).threads(),
            final(self).userspace_process == old(self).userspace_process,
            final(self).master_tls == old(self).master_tls,
    {
        match self.threads.get(tid as u64) {
            Some(handle) => Err(handle),
            None => Ok(self.thread_ids.try_remove(tid as usize)),
        }
    }

    /// Begins waiting for the thread `tid` to exit: its ID is released when
    /// no live thread has it (`Done` when it was in use, `NotFound` when it
    /// never was); a thread that has it is `Done` when `is_dead` says it has
    /// died, and otherwise must be waited for (`Wait`, with its handle).
    pub fn wait_for_thread<F: Fn(u64) -> bool>(&mut self, tid: Tid, is_dead: F) -> (r: ThreadWait)
        requires
            forall|h: u64| is_dead.requires((h,)),
        ensures
            old(self).threads().contains_key(tid as u64) ==> {
                let h = old(self).threads()[tid as u64];
                &&& final(self).ids() == old(self).ids()
                &&& final(self).next_id() == old(self).next_id()
                &&& (is_dead.ensures((h,), true) && r == ThreadWait::Done) || (is_dead.ensures((h,), false) && r
                    == ThreadWait::Wait(h))
            },
            !old(self).threads().contains_key(tid as u64) ==> r == (if old(self).ids().contains(tid as usize) {
                ThreadWait::Done
            } else {
                ThreadWait::NotFound
            }) && final(self).ids() == old(self).ids().remove(tid as usize) && final(self).next_id() == (if old(
                self,
            ).ids().contains(tid as usize) {
                tid as usize
            } else {
                old(self).next_id()
            }),
            final(self).threads() == old(self).threads(),
            final(self).userspace_process == old(self).userspace_process,
            final(self).master_tls == old(self).master_tls,
    {
        match self.remove_tid(tid) {
            Ok(false) => ThreadWait::NotFound,
            Err(h) => {
                if is_dead(h) {
                    ThreadWait::Done
                } else {
                    ThreadWait::Wait(h)
                }
            },
            Ok(true) => ThreadWait::Done,
        }
    }

    /// The TLS block of a new thread of this process, when the process has
    /// a master TLS.
    fn tls_memory(&self, vmm: &mut VirtualMemoryManager) -> (r: Result<
        Option<(TrackedMemoryAllocation, VirtAddr, Vec<u8>)>,
        MapToError,
    >)
        requires
            old(vmm).wf(),
            self.master_tls matches Some(tls) ==> tls_fits(tls),
        ensures
            final(vmm).wf(),
            final(vmm).inner.start_addr == old(vmm).inner.start_addr,
            final(vmm).inner.size == old(vmm).inner.size,
            ({
                let t = tls_alloc(old(vmm).regions(), self.master_tls);
                &&& final(vmm).regions() == t.1
                &&& match t.0 {
                    Err(_) => r == Err::<Option<(TrackedMemoryAllocation, VirtAddr, Vec<u8>)>, MapToError>(
                        MapToError::FrameAllocationFailed,
                    ),
                    Ok(tb) => r matches Ok(x) && tls_is(x, self.master_tls, tb),
                }
            }),
    {
        match self.master_tls {
            Some(tls) => match allocate_tls(vmm, tls.addr, tls.alignment, tls.memsize, tls.filesize) {
                Ok(t) => Ok(Some(t)),
                Err(e) => Err(e),
            },
            None => Ok(None),
        }
    }

    /// Releases the TLS block `x` just allocated when the regions of `vmm`
    /// were `before`: they are `before` again.
    fn undo_tls(
        &self,
        vmm: &mut VirtualMemoryManager,
        x: &Option<(TrackedMemoryAllocation, VirtAddr, Vec<u8>)>,
        Ghost(before): Ghost<Seq<Region>>,
    )
        requires
            old(vmm).wf(),
            tiles(before, old(vmm).inner.start_addr.0 as int, old(vmm).inner.size as int),
            coalesced(before),
            all_nonempty(before),
            tls_alloc(before, self.master_tls).0 matches Ok(tb) && tls_is(*x, self.master_tls, tb),
            old(vmm).regions() == tls_alloc(before, self.master_tls).1,
        ensures
            final(vmm).wf(),
            final(vmm).inner.start_addr == old(vmm).inner.start_addr,
            final(vmm).inner.size == old(vmm).inner.size,
            final(vmm).regions() == before,
    {
        match x {
            Some(block) => {
                let ghost t = self.master_tls->Some_0;
                proof {
                    lemma_align_up_ge(UTHREAD_INFO_SIZE + tls_aligned_size(t), PAGE_SIZE as int);
                }
                undo_allocation(vmm, &block.0, Ghost(before), Ghost(tls_pages(t)), Ghost(ObjectState::Allocated(user_flags())));
            },
            None => {},
        }
    }

    /// Prepares the memory of a new thread of this process, with a stack of
    /// `custom_stack_size` bytes rounded up to whole pages, or of the default
    /// size, and returns it with the ID that the thread will get: the user
    /// stack, then the TLS block, then the kernel stack. When one of them
    /// cannot be had, those already taken are released. The caller builds
    /// the thread and records it with [`Self::new_tid`] and
    /// [`Self::insert_thread`].
    pub fn create_thread(
        &self,
        vmm: &mut VirtualMemoryManager,
        kernel: &mut VirtualMemoryManager,
        custom_stack_size: Option<usize>,
    ) -> (r: Result<(ThreadMemory, Tid), MapToError>)
        requires
            old(vmm).wf(),
            old(kernel).wf(),
            all_nonempty(old(vmm).regions()),
            all_nonempty(old(kernel).regions()),
            self.master_tls matches Some(tls) ==> tls_fits(tls),
            custom_stack_size matches Some(s) ==> s > 0 && s + 2 * PAGE_SIZE <= usize::MAX,
        ensures
            final(vmm).wf(),
            final(kernel).wf(),
            all_nonempty(final(vmm).regions()),
            all_nonempty(final(kernel).regions()),
            ({
                let stack = match custom_stack_size {
                    Some(s) => align_up_spec(s as int, PAGE_SIZE as int),
                    None => DEFAULT_STACK_SIZE as int,
                };
                let u = alloc_next_spec(
                    old(vmm).regions(),
                    align_up_spec(stack, PAGE_SIZE as int),
                    ObjectState::Allocated(user_flags()),
                );
                let t = tls_alloc(u.1, self.master_tls);
                let k = kernel_stack_alloc(old(kernel).regions());
                if u.0 is Err || t.0 is Err || k.0 is Err {
                    &&& r == Err::<(ThreadMemory, Tid), MapToError>(MapToError::FrameAllocationFailed)
                    &&& final(vmm).regions() == old(vmm).regions()
                    &&& final(kernel).regions() == old(kernel).regions()
                } else {
                    let a = u.0->Ok_0;
                    &&& final(vmm).regions() == t.1
                    &&& final(kernel).regions() == k.1
                    &&& r matches Ok((m, tid)) && tid == self.next_id() as Tid && m.user_stack.addr.0 == a
                        && m.user_stack.process_owned && m.user_stack.interface is None && m.stack_end.0 == a + stack
                        && memory_is(m, m.user_stack, m.stack_end, self.master_tls, t.0->Ok_0, k.0->Ok_0)
                }
            }),
    {
        let stack_size = match custom_stack_size {
            Some(s) => to_next_page(s),
            None => DEFAULT_STACK_SIZE,
        };
        let tid = self.next_tid();
        let ghost s0 = vmm.regions();
        let ghost k0 = kernel.regions();
        let ghost ust = ObjectState::Allocated(user_flags());
        let ghost ureq = align_up_spec(stack_size as int, PAGE_SIZE as int);
        proof {
            if custom_stack_size is Some {
                lemma_align_up_ge(custom_stack_size->Some_0 as int, PAGE_SIZE as int);
            }
            lemma_align_up_ge(stack_size as int, PAGE_SIZE as int);
            lemma_alloc_next_nonempty(s0, vmm.inner.start_addr.0 as int, vmm.inner.size as int, ureq, ust);
            lemma_align_up_ge(DEFAULT_STACK_SIZE as int, PAGE_SIZE as int);
            lemma_alloc_next_nonempty(k0, kernel.inner.start_addr.0 as int, kernel.inner.size as int,
                kernel_stack_pages(), kernel_stack_state());
        }
        let (user_stack, stack_end) = match allocate_user_stack(vmm, stack_size) {
            Ok(s) => s,
            Err(e) => return Err(e),
        };
        let ghost s1 = vmm.regions();
        proof {
            if self.master_tls is Some {
                let t = self.master_tls->Some_0;
                lemma_align_up_ge(UTHREAD_INFO_SIZE + tls_aligned_size(t), PAGE_SIZE as int);
                lemma_alloc_next_nonempty(s1, vmm.inner.start_addr.0 as int, vmm.inner.size as int, tls_pages(t),
                    ObjectState::Allocated(user_flags()));
            }
        }
        let tls = match self.tls_memory(vmm) {
            Ok(t) => t,
            Err(e) => {
                undo_allocation(vmm, &user_stack, Ghost(s0), Ghost(ureq), Ghost(ust));
                return Err(e);
            },
        };
        let (kernel_stack, kernel_stack_end) = match allocate_kernel_stack(kernel, DEFAULT_STACK_SIZE) {
            Ok(k) => k,
            Err(e) => {
                self.undo_tls(vmm, &tls, Ghost(s1));
                undo_allocation(vmm, &user_stack, Ghost(s0), Ghost(ureq), Ghost(ust));
                return Err(e);
            },
        };
        Ok((ThreadMemory { user_stack, stack_end, kernel_stack, kernel_stack_end, tls }, tid))
    }
}

/// The root thread of a new process: its memory, the arguments its entry
/// point receives (argument count, argument slices, environment count,
/// environment slices, ABI structures), and the bytes of its environment
/// block.
pub struct RootThread {
    pub memory: ThreadMemory,
    pub entry_args: [usize; 5],
    pub env_image: Vec<u8>,
    pub tid: Tid,
}

/// Creates the threads manager of a new process with its root thread's ID
/// taken: the root thread's environment block and stack of
/// `custom_stack_size` bytes (or the default size) in `vmm`, then its kernel
/// stack in `kernel`, then its TLS block when the process has a master TLS.
/// When one of them cannot be had, those already taken are released. The
/// caller builds the thread and records it with [`ThreadsManager::insert_thread`].
pub fn new_with_root_thread(
    vmm: &mut VirtualMemoryManager,
    kernel: &mut VirtualMemoryManager,
    custom_stack_size: Option<usize>,
    args: &Vec<Vec<u8>>,
    env: &Vec<Vec<u8>>,
    abi_structures: &Vec<u8>,
    userspace_process: bool,
    master_tls: Option<TLSInfo>,
) -> (r: Result<(ThreadsManager, RootThread), MapToError>)
    requires
        old(vmm).wf(),
        old(kernel).wf(),
        all_nonempty(old(vmm).regions()),
        all_nonempty(old(kernel).regions()),
        old(vmm).inner.start_addr.0 + old(vmm).inner.size + 16 <= usize::MAX,
        master_tls matches Some(tls) ==> tls_fits(tls),
        root_env_fits(
            match custom_stack_size {
                Some(s) => s as int,
                None => DEFAULT_STACK_SIZE as int,
            },
            views(env@),
            views(args@),
            abi_structures@.len() as int,
        ),
    ensures
        final(vmm).wf(),
        final(kernel).wf(),
        all_nonempty(final(vmm).regions()),
        all_nonempty(final(kernel).regions()),
        ({
            let l = root_layout(
                match custom_stack_size {
                    Some(s) => s as int,
                    None => DEFAULT_STACK_SIZE as int,
                },
                views(env@),
                views(args@),
                abi_structures@.len() as int,
            );
            let u = alloc_next_spec(
                old(vmm).regions(),
                align_up_spec(l.6, PAGE_SIZE as int),
                ObjectState::Allocated(user_flags()),
            );
            let k = kernel_stack_alloc(old(kernel).regions());
            let t = tls_alloc(u.1, master_tls);
            if u.0 is Err || k.0 is Err || t.0 is Err {
                &&& r == Err::<(ThreadsManager, RootThread), MapToError>(MapToError::FrameAllocationFailed)
                &&& final(vmm).regions() == old(vmm).regions()
                &&& final(kernel).regions() == old(kernel).regions()
            } else {
                let a = u.0->Ok_0;
                &&& final(vmm).regions() == t.1
                &&& final(kernel).regions() == k.1
                &&& r matches Ok((m, root)) && {
                    &&& root.tid == 0
                    &&& m.ids() == set![0usize]
                    &&& m.threads() == Map::<u64, u64>::empty()
                    &&& m.userspace_process == userspace_process
                    &&& m.master_tls == master_tls
                    &&& root.memory.user_stack.addr.0 == a
                    &&& root.memory.user_stack.process_owned
                    &&& root.memory.user_stack.interface is None
                    &&& root.memory.stack_end.0 == a + l.4 + l.5
                    &&& memory_is(root.memory, root.memory.user_stack, root.memory.stack_end, master_tls, t.0->Ok_0,
                        k.0->Ok_0)
                    &&& root.entry_args[0] == args@.len()
                    &&& root.entry_args[1] == a + l.2
                    &&& root.entry_args[2] == env@.len()
                    &&& root.entry_args[3] == a + l.1
                    &&& root.entry_args[4] == a + l.3
                    &&& root.env_image@ == root_env_image(a, views(env@), views(args@), abi_structures@)
                }
            }
        }),
{
    let mut this = ThreadsManager::new(userspace_process, master_tls);
    let stack_size = match custom_stack_size {
        Some(s) => s,
        None => DEFAULT_STACK_SIZE,
    };
    let ghost l = root_layout(stack_size as int, views(env@), views(args@), abi_structures@.len() as int);
    let ghost s0 = vmm.regions();
    let ghost k0 = kernel.regions();
    let ghost ust = ObjectState::Allocated(user_flags());
    let ghost ureq = align_up_spec(l.6, PAGE_SIZE as int);
    proof {
        lemma_root_size_positive(stack_size as int, views(env@), views(args@), abi_structures@.len() as int);
        lemma_align_up_ge(l.6, PAGE_SIZE as int);
        lemma_alloc_next_nonempty(s0, vmm.inner.start_addr.0 as int, vmm.inner.size as int, ureq, ust);
        lemma_align_up_ge(DEFAULT_STACK_SIZE as int, PAGE_SIZE as int);
        lemma_alloc_next_nonempty(k0, kernel.inner.start_addr.0 as int, kernel.inner.size as int,
            kernel_stack_pages(), kernel_stack_state());
    }
    let (user_stack, (stack_end, envv, argv, abi), env_image) = match allocate_root_user_env(
        vmm,
        stack_size,
        env,
        args,
        abi_structures,
    ) {
        Ok(x) => x,
        Err(e) => return Err(e),
    };
    let ghost s1 = vmm.regions();
    let ghost k1 = kernel.regions();
    let (kernel_stack, kernel_stack_end) = match allocate_kernel_stack(kernel, DEFAULT_STACK_SIZE) {
        Ok(k) => k,
        Err(e) => {
            undo_allocation(vmm, &user_stack, Ghost(s0), Ghost(ureq), Ghost(ust));
            return Err(e);
        },
    };
    proof {
        if master_tls is Some {
            let t = master_tls->Some_0;
            lemma_align_up_ge(UTHREAD_INFO_SIZE + tls_aligned_size(t), PAGE_SIZE as int);
            lemma_alloc_next_nonempty(s1, vmm.inner.start_addr.0 as int, vmm.inner.size as int, tls_pages(t),
                ObjectState::Allocated(user_flags()));
        }
    }
    let tls = match this.tls_memory(vmm) {
        Ok(t) => t,
        Err(e) => {
            undo_allocation(kernel, &kernel_stack, Ghost(k0), Ghost(kernel_stack_pages()), Ghost(kernel_stack_state()));
            undo_allocation(vmm, &user_stack, Ghost(s0), Ghost(ureq), Ghost(ust));
            return Err(e);
        },
    };
    let memory = ThreadMemory { user_stack, stack_end, kernel_stack, kernel_stack_end, tls };
    let entry_args = [args.len(), argv.0, env.len(), envv.0, abi.0];
    let tid = this.new_tid();
    Ok((this, RootThread { memory, entry_args, env_image, tid }))
}

/// The root environment block takes at least one byte.
proof fn lemma_root_size_positive(stack_size: int, env: Seq<Seq<u8>>, args: Seq<Seq<u8>>, abi_len: int)
    requires
        stack_size >= 0,
        abi_len >= 0,
    ensures
        root_layout(stack_size, env, args, abi_len).6 > 0,
{
    let raw_env: int = 8 + crate::process_mem::terminated(env).len() as int;
    let raw_args: int = 8 + crate::process_mem::terminated(args).len() as int;
    lemma_align_up_ge(raw_env + raw_args, 8);
    lemma_align_up_ge(stack_size, 16);
    reveal(root_layout);
    let l = root_layout(stack_size, env, args, abi_len);
    assert(l.0 == raw_env);
    assert(l.1 == align_up_spec(raw_env + raw_args, 8));
    assert(l.1 >= 16);
    assert(l.2 >= l.1);
    assert(l.3 >= l.2);
    assert(l.5 == align_up_spec(stack_size, 16));
    assert(l.6 == l.3 + abi_len + l.5);
}

} // verus!
