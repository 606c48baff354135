//! Memory of processes: tracked allocations, the root thread's environment
//! block and stack, thread stacks, and thread-local storage blocks.
use crate::addr::{align_up, align_up_spec, is_pow2, to_next_page, VirtAddr, PAGE_SIZE};
use crate::address_space::{entry_flags_of, AddressSpace};
use crate::page_table::{alloc_map_spec, contiguous_spec, pages_unmapped};
use crate::paging::MapToError;
use crate::vmm::{
    addr_result, alloc_next_spec, lemma_alloc_next_page_aligned, page_aligned, all_nonempty, coalesced, tiles,
    is_allocated, is_first_starting, lemma_alloc_next_nonempty, law_alloc_next_then_free, first_starting, fits, free_at_spec, is_last_fit, lemma_bounds, rend, Location,
    ObjectState, Region,
    VMMAllocError, VMMAllocMode, VMMMFlags, VirtualMemoryManager,
};
use vstd::arithmetic::power2::{lemma2_to64, pow2};
use vstd::prelude::*;

verus! {

/// The default size of a thread stack: one MiB.
pub const DEFAULT_STACK_SIZE: usize = 0x10_0000;

/// A memory allocation of a process, unmapped by its owner when it is dropped.
#[derive(Debug)]
pub struct TrackedMemoryAllocation {
    /// Where the allocation starts.
    pub addr: VirtAddr,
    /// Whether the process's manager owns it; otherwise the kernel's does.
    pub process_owned: bool,
    /// The memory-mapped device behind it, if any.
    pub interface: Option<u64>,
}

impl TrackedMemoryAllocation {
    /// An allocation at `addr`.
    pub fn new(process_owned: bool, addr: VirtAddr, interface: Option<u64>) -> (r: Self)
        ensures
            r.addr == addr,
            r.process_owned == process_owned,
            r.interface == interface,
    {
        TrackedMemoryAllocation { addr, process_owned, interface }
    }

    /// Releases the allocation: its region is freed in `vmm`, the process's
    /// manager or the kernel's as it belongs; `false` when the address lies
    /// outside that manager's range. The device behind it, if any, is to be
    /// synced by the caller first.
    pub fn release(&self, vmm: &mut VirtualMemoryManager) -> (r: bool)
        requires
            old(vmm).wf(),
            old(vmm).inner.can_free(self.addr.0 as int),
        ensures
            final(vmm).wf(),
            final(vmm).inner.start_addr == old(vmm).inner.start_addr,
            final(vmm).inner.size == old(vmm).inner.size,
            r == old(vmm).inner.in_range(self.addr.0 as int),
            r ==> final(vmm).regions() == free_at_spec(old(vmm).regions(),
                first_starting(old(vmm).regions(), self.addr.0 as int)),
            !r ==> final(vmm).regions() == old(vmm).regions(),
    {
        vmm.unmap(self.addr)
    }

    /// Where the allocation starts.
    pub fn start(&self) -> (r: VirtAddr)
        ensures
            r == self.addr,
    {
        self.addr
    }
}

/// The flags of user memory: user-accessible, zeroed, writable and executable.
pub open spec fn user_flags() -> VMMMFlags {
    VMMMFlags(
        (VMMMFlags::USER_ACCESSIBLE | VMMMFlags::ZEROED | VMMMFlags::WRITEABLE | VMMMFlags::EXECUTABLE) as u8,
    )
}

/// The error of mapping memory that a failed placement stands for.
pub open spec fn map_error(r: Result<int, VMMAllocError>) -> Result<int, MapToError> {
    match r {
        Ok(a) => Ok(a),
        Err(_) => Err(MapToError::FrameAllocationFailed),
    }
}

/// The address of a result, as an integer.
pub open spec fn map_result(r: Result<VirtAddr, MapToError>) -> Result<int, MapToError> {
    match r {
        Ok(a) => Ok(a.0 as int),
        Err(e) => Err(e),
    }
}

/// A region placed anywhere lies within the managed range.
proof fn lemma_placed_in_range(s: Seq<Region>, start: int, size: int, n: int, st: ObjectState)
    requires
        crate::vmm::tiles(s, start, size),
    ensures
        alloc_next_spec(s, n, st).0 matches Ok(a) ==> start <= a && a + n <= start + size,
{
    if exists|i: int| is_last_fit(s, n, i) {
        let i = crate::vmm::last_fit(s, n);
        assert(is_last_fit(s, n, i));
        lemma_bounds(s, start, size, i);
        assert(fits(s[i], n));
    }
}

proof fn lemma_small_pow2s()
    ensures
        is_pow2(8),
        is_pow2(16),
{
    lemma2_to64();
    assert(pow2(3) == 8);
    assert(pow2(4) == 16);
}

/// Rounding up never goes down.
pub proof fn lemma_align_up_ge(x: int, a: int)
    requires
        x >= 0,
        a > 0,
    ensures
        align_up_spec(x, a) >= x,
{
    let q = (x + a - 1) / a;
    assert(q * a >= x) by (nonlinear_arith)
        requires
            q == (x + a - 1) / a,
            x >= 0,
            a > 0,
    ;
}

/// Releases the block `t` just allocated, when the regions were `before`,
/// by taking `req` bytes in state `st` in the highest free region that held
/// them: the regions are `before` again.
pub(crate) fn undo_allocation(
    vmm: &mut VirtualMemoryManager,
    t: &TrackedMemoryAllocation,
    Ghost(before): Ghost<Seq<Region>>,
    Ghost(req): Ghost<int>,
    Ghost(st): Ghost<ObjectState>,
)
    requires
        old(vmm).wf(),
        tiles(before, old(vmm).inner.start_addr.0 as int, old(vmm).inner.size as int),
        coalesced(before),
        all_nonempty(before),
        req > 0,
        is_allocated(st),
        alloc_next_spec(before, req, st).0 == Ok::<int, VMMAllocError>(t.addr.0 as int),
        old(vmm).regions() == alloc_next_spec(before, req, st).1,
    ensures
        final(vmm).wf(),
        final(vmm).inner.start_addr == old(vmm).inner.start_addr,
        final(vmm).inner.size == old(vmm).inner.size,
        final(vmm).regions() == before,
{
    proof {
        law_alloc_next_then_free(before, old(vmm).inner.start_addr.0 as int, old(vmm).inner.size as int, req, st);
        lemma_alloc_next_nonempty(before, old(vmm).inner.start_addr.0 as int, old(vmm).inner.size as int, req, st);
        let a = t.addr.0 as int;
        let after = old(vmm).regions();
        assert(is_first_starting(after, a, first_starting(after, a)));
    }
    let _ = t.release(vmm);
}

/// Allocates `size` bytes of user memory, rounded up to whole pages, anywhere
/// in `vmm`; running out of room fails to allocate frames.
pub fn allocate_user_stuff(name: &'static str, vmm: &mut VirtualMemoryManager, size: usize) -> (r: Result<
    VirtAddr,
    MapToError,
>)
    requires
        old(vmm).wf(),
        size + PAGE_SIZE - 1 <= usize::MAX,
    ensures
        final(vmm).wf(),
        final(vmm).inner.start_addr == old(vmm).inner.start_addr,
        final(vmm).inner.size == old(vmm).inner.size,
        ({
            let p = alloc_next_spec(
                old(vmm).regions(),
                align_up_spec(size as int, PAGE_SIZE as int),
                ObjectState::Allocated(user_flags()),
            );
            map_result(r) == map_error(p.0) && final(vmm).regions() == p.1
        }),
        r matches Ok(a) ==> old(vmm).inner.start_addr.0 <= a.0 && a.0 + align_up_spec(size as int, PAGE_SIZE as int)
            <= old(vmm).inner.start_addr.0 + old(vmm).inner.size,
{
    let pages = to_next_page(size);
    let flags = VMMMFlags(VMMMFlags::USER_ACCESSIBLE | VMMMFlags::ZEROED | VMMMFlags::WRITEABLE | VMMMFlags::EXECUTABLE);
    proof {
        lemma_placed_in_range(
            old(vmm).regions(),
            old(vmm).inner.start_addr.0 as int,
            old(vmm).inner.size as int,
            pages as int,
            ObjectState::Allocated(flags),
        );
    }
    let r = vmm.map_new(name, None, pages, flags, VMMAllocMode::Normal);
    match r {
        Ok(a) => Ok(a),
        Err(_) => Err(MapToError::FrameAllocationFailed),
    }
}

/// Allocates a thread's user stack of `size` bytes; the stack grows down from
/// its end, `size` bytes past its start.
pub fn allocate_user_stack(vmm: &mut VirtualMemoryManager, size: usize) -> (r: Result<
    (TrackedMemoryAllocation, VirtAddr),
    MapToError,
>)
    requires
        old(vmm).wf(),
        size + PAGE_SIZE - 1 <= usize::MAX,
    ensures
        final(vmm).wf(),
        final(vmm).inner.start_addr == old(vmm).inner.start_addr,
        final(vmm).inner.size == old(vmm).inner.size,
        ({
            let p = alloc_next_spec(
                old(vmm).regions(),
                align_up_spec(size as int, PAGE_SIZE as int),
                ObjectState::Allocated(user_flags()),
            );
            &&& final(vmm).regions() == p.1
            &&& match (r, p.0) {
                (Ok((t, end)), Ok(a)) => t.addr.0 == a && t.process_owned && t.interface is None && end.0 == a + size,
                (Err(e), Err(_)) => e == MapToError::FrameAllocationFailed,
                _ => false,
            }
        }),
{
    let addr = allocate_user_stuff("thread.stack", vmm, size)?;
    Ok((TrackedMemoryAllocation::new(true, addr, None), addr.add(size)))
}

/// Allocates a thread's kernel stack of `size` bytes, rounded up to whole
/// pages, in the kernel's manager; the stack ends past the rounded size.
pub fn allocate_kernel_stack(root: &mut VirtualMemoryManager, size: usize) -> (r: Result<
    (TrackedMemoryAllocation, VirtAddr),
    MapToError,
>)
    requires
        old(root).wf(),
        size + PAGE_SIZE - 1 <= usize::MAX,
    ensures
        final(root).wf(),
        final(root).inner.start_addr == old(root).inner.start_addr,
        final(root).inner.size == old(root).inner.size,
        ({
            let n = align_up_spec(size as int, PAGE_SIZE as int);
            let p = alloc_next_spec(
                old(root).regions(),
                n,
                ObjectState::Allocated(VMMMFlags((VMMMFlags::ZEROED | VMMMFlags::WRITEABLE) as u8)),
            );
            &&& final(root).regions() == p.1
            &&& match (r, p.0) {
                (Ok((t, end)), Ok(a)) => t.addr.0 == a && !t.process_owned && t.interface is None && end.0 == a + n,
                (Err(e), Err(_)) => e == MapToError::FrameAllocationFailed,
                _ => false,
            }
        }),
        page_aligned(old(root).regions()) ==> page_aligned(final(root).regions()) && (r matches Ok((t, _)) ==> t.addr.0
            % PAGE_SIZE == 0),
{
    let size = to_next_page(size);
    let flags = VMMMFlags(VMMMFlags::ZEROED | VMMMFlags::WRITEABLE);
    proof {
        lemma_placed_in_range(
            old(root).regions(),
            old(root).inner.start_addr.0 as int,
            old(root).inner.size as int,
            size as int,
            ObjectState::Allocated(flags),
        );
    }
    proof {
        if page_aligned(old(root).regions()) {
            lemma_alloc_next_page_aligned(old(root).regions(), size as int, ObjectState::Allocated(flags));
        }
    }
    match root.map_new("thread.ke_stack", None, size, flags, VMMAllocMode::Normal) {
        Ok(addr) => Ok((TrackedMemoryAllocation::new(false, addr, None), addr.add(size))),
        Err(_) => Err(MapToError::FrameAllocationFailed),
    }
}

} // verus!

verus! {

/// The little-endian bytes of the machine word `x`.
pub open spec fn le8(x: int) -> Seq<u8> {
    seq![
        (x % 0x100) as u8,
        ((x / 0x100) % 0x100) as u8,
        ((x / 0x1_0000) % 0x100) as u8,
        ((x / 0x100_0000) % 0x100) as u8,
        ((x / 0x1_0000_0000) % 0x100) as u8,
        ((x / 0x100_0000_0000) % 0x100) as u8,
        ((x / 0x1_0000_0000_0000) % 0x100) as u8,
        ((x / 0x100_0000_0000_0000) % 0x100) as u8,
    ]
}

/// Appends the little-endian bytes of the machine word `x`.
pub fn push_word(out: &mut Vec<u8>, x: u64)
    ensures
        final(out)@ == old(out)@ + le8(x as int),
{
    out.push((x % 0x100) as u8);
    out.push(((x / 0x100) % 0x100) as u8);
    out.push(((x / 0x1_0000) % 0x100) as u8);
    out.push(((x / 0x100_0000) % 0x100) as u8);
    out.push(((x / 0x1_0000_0000) % 0x100) as u8);
    out.push(((x / 0x100_0000_0000) % 0x100) as u8);
    out.push(((x / 0x1_0000_0000_0000) % 0x100) as u8);
    out.push(((x / 0x100_0000_0000_0000) % 0x100) as u8);
    assert(out@ =~= old(out)@ + le8(x as int));
}

/// Appends `b`.
pub fn append_bytes(out: &mut Vec<u8>, b: &Vec<u8>)
    ensures
        final(out)@ == old(out)@ + b@,
{
    let mut i: usize = 0;
    while i < b.len()
        invariant
            0 <= i <= b@.len(),
            out@ == old(out)@ + b@.subrange(0, i as int),
        decreases b@.len() - i,
    {
        out.push(b[i]);
        i = i + 1;
        assert(out@ =~= old(out)@ + b@.subrange(0, i as int));
    }
    assert(b@.subrange(0, b@.len() as int) =~= b@);
}

/// The byte strings held by `v`.
pub open spec fn views(v: Seq<Vec<u8>>) -> Seq<Seq<u8>> {
    Seq::new(v.len(), |i: int| v[i]@)
}

/// Each of `items` followed by a zero byte.
pub open spec fn terminated(items: Seq<Seq<u8>>) -> Seq<u8>
    decreases items.len(),
{
    if items.len() == 0 {
        Seq::empty()
    } else {
        terminated(items.drop_last()) + items.last() + seq![0u8]
    }
}

/// A raw section: the count of `items` as a word, then each item followed
/// by a zero byte.
pub open spec fn raw_section(items: Seq<Seq<u8>>) -> Seq<u8> {
    le8(items.len() as int) + terminated(items)
}

/// The table of slices of `items`, whose raw section starts at `base`: for
/// each item the address of its bytes and its length, as words.
pub open spec fn pointer_table(base: int, items: Seq<Seq<u8>>) -> Seq<u8>
    decreases items.len(),
{
    if items.len() == 0 {
        Seq::empty()
    } else {
        let before = items.drop_last();
        pointer_table(base, before) + le8(base + 8 + terminated(before).len()) + le8(items.last().len() as int)
    }
}

/// The offsets of the root environment block of a stack of `stack_size`
/// bytes with the raw sections `env` and `args` and `abi_len` bytes of ABI
/// structures: the raw argument section, the environment pointers, the
/// argument pointers, the ABI structures, the stack, the stack's size
/// rounded to 16 bytes, and the size of the block.
#[verifier::opaque]
pub open spec fn root_layout(stack_size: int, env: Seq<Seq<u8>>, args: Seq<Seq<u8>>, abi_len: int) -> (
    int,
    int,
    int,
    int,
    int,
    int,
    int,
) {
    let stack16 = align_up_spec(stack_size, 16);
    let raw_env: int = 8 + terminated(env).len() as int;
    let raw_args: int = 8 + terminated(args).len() as int;
    let env_ptrs = align_up_spec(raw_env + raw_args, 8);
    let args_ptrs = env_ptrs + 16 * env.len();
    let abi = args_ptrs + 16 * args.len();
    let stack = align_up_spec(abi + abi_len, 16);
    (raw_env, env_ptrs, args_ptrs, abi, stack, stack16, abi + abi_len + stack16)
}

/// The bytes of the root environment block at `addr`, up to the stack: the
/// raw sections, zero padding, the two pointer tables and the ABI structures.
pub open spec fn root_env_image(addr: int, env: Seq<Seq<u8>>, args: Seq<Seq<u8>>, abi: Seq<u8>) -> Seq<u8> {
    let l = root_layout(0, env, args, abi.len() as int);
    raw_section(env) + raw_section(args) + Seq::new((l.1 - (l.0 + 8 + terminated(args).len())) as nat, |i: int| 0u8)
        + pointer_table(addr, env) + pointer_table(addr + l.0, args) + abi
}

/// The environment block fits in the address space with room for rounding.
pub open spec fn root_env_fits(stack_size: int, env: Seq<Seq<u8>>, args: Seq<Seq<u8>>, abi_len: int) -> bool {
    let l = root_layout(stack_size, env, args, abi_len);
    &&& stack_size + 15 <= usize::MAX
    &&& l.4 + l.5 + PAGE_SIZE <= usize::MAX
    &&& l.6 + PAGE_SIZE <= usize::MAX
}

proof fn lemma_terminated_len(items: Seq<Seq<u8>>, k: int)
    requires
        0 <= k <= items.len(),
    ensures
        terminated(items.subrange(0, k)).len() <= terminated(items).len(),
    decreases items.len() - k,
{
    if k < items.len() {
        lemma_terminated_len(items, k + 1);
        let s = items.subrange(0, k + 1);
        assert(s.drop_last() =~= items.subrange(0, k));
    } else {
        assert(items.subrange(0, k) =~= items);
    }
}

/// Appends the raw section of `items`.
fn push_raw_section(out: &mut Vec<u8>, items: &Vec<Vec<u8>>)
    requires
        old(out)@.len() + 8 + terminated(views(items@)).len() <= usize::MAX,
    ensures
        final(out)@ == old(out)@ + raw_section(views(items@)),
{
    let ghost all = views(items@);
    push_word(out, items.len() as u64);
    let ghost head = out@;
    let mut k: usize = 0;
    while k < items.len()
        invariant
            0 <= k <= items@.len(),
            all == views(items@),
            head == old(out)@ + le8(items@.len() as int),
            out@ == head + terminated(all.subrange(0, k as int)),
            old(out)@.len() + 8 + terminated(all).len() <= usize::MAX,
        decreases items@.len() - k,
    {
        proof {
            lemma_terminated_len(all, k as int + 1);
            let s = all.subrange(0, k as int + 1);
            assert(s.drop_last() =~= all.subrange(0, k as int));
            assert(s.last() == items@[k as int]@);
        }
        append_bytes(out, &items[k]);
        out.push(0u8);
        k = k + 1;
        proof {
            let s = all.subrange(0, k as int);
            assert(out@ =~= head + terminated(s));
        }
    }
    assert(all.subrange(0, items@.len() as int) =~= all);
}

/// The length of the terminated items of `items`.
fn terminated_len(items: &Vec<Vec<u8>>) -> (r: usize)
    requires
        terminated(views(items@)).len() <= usize::MAX,
    ensures
        r == terminated(views(items@)).len(),
{
    let ghost all = views(items@);
    let mut total: usize = 0;
    let mut k: usize = 0;
    while k < items.len()
        invariant
            0 <= k <= items@.len(),
            all == views(items@),
            total == terminated(all.subrange(0, k as int)).len(),
            terminated(all).len() <= usize::MAX,
        decreases items@.len() - k,
    {
        proof {
            lemma_terminated_len(all, k as int + 1);
            let s = all.subrange(0, k as int + 1);
            assert(s.drop_last() =~= all.subrange(0, k as int));
            assert(s.last() == items@[k as int]@);
        }
        total = total + items[k].len() + 1;
        k = k + 1;
    }
    assert(all.subrange(0, items@.len() as int) =~= all);
    total
}

/// Appends the table of slices of `items` whose raw section starts at `base`.
fn push_pointer_table(out: &mut Vec<u8>, base: usize, items: &Vec<Vec<u8>>)
    requires
        base + 8 + terminated(views(items@)).len() <= usize::MAX,
    ensures
        final(out)@ == old(out)@ + pointer_table(base as int, views(items@)),
{
    let ghost all = views(items@);
    let mut ptr_at: usize = 8;
    let mut k: usize = 0;
    while k < items.len()
        invariant
            0 <= k <= items@.len(),
            all == views(items@),
            ptr_at == 8 + terminated(all.subrange(0, k as int)).len(),
            out@ == old(out)@ + pointer_table(base as int, all.subrange(0, k as int)),
            base + 8 + terminated(all).len() <= usize::MAX,
        decreases items@.len() - k,
    {
        proof {
            lemma_terminated_len(all, k as int + 1);
            let s = all.subrange(0, k as int + 1);
            assert(s.drop_last() =~= all.subrange(0, k as int));
            assert(s.last() == items@[k as int]@);
        }
        let len = items[k].len();
        push_word(out, (base + ptr_at) as u64);
        push_word(out, len as u64);
        ptr_at = ptr_at + len + 1;
        k = k + 1;
        proof {
            let s = all.subrange(0, k as int);
            assert(out@ =~= old(out)@ + pointer_table(base as int, s));
        }
    }
    assert(all.subrange(0, items@.len() as int) =~= all);
}

/// The offsets before the stack do not depend on the stack's size.
pub proof fn lemma_layout_prefix(stack_size: int, env: Seq<Seq<u8>>, args: Seq<Seq<u8>>, abi_len: int)
    ensures
        ({
            let l = root_layout(stack_size, env, args, abi_len);
            let l0 = root_layout(0, env, args, abi_len);
            l.0 == l0.0 && l.1 == l0.1 && l.2 == l0.2 && l.3 == l0.3 && l.1 <= l.2 <= l.3
                && l.0 == 8 + terminated(env).len() && l.1 >= l.0 + 8 + terminated(args).len()
                && l.2 == l.1 + 16 * env.len() && l.3 == l.2 + 16 * args.len()
                && (stack_size >= 0 ==> l.3 + abi_len <= l.4 <= l.3 + abi_len + 15 && l.5 >= stack_size
                && l.6 == l.3 + abi_len + l.5)
        }),
{
    reveal(root_layout);
    lemma_small_pow2s();
}

proof fn lemma_page_multiple_aligned(x: int)
    requires
        x >= 0,
        x % (PAGE_SIZE as int) == 0,
    ensures
        align_up_spec(x, PAGE_SIZE as int) == x,
{
    assert((x + 4095) / 4096 == x / 4096) by (nonlinear_arith)
        requires
            x >= 0,
            x % 4096 == 0,
    ;
    assert((x / 4096) * 4096 == x) by (nonlinear_arith)
        requires
            x >= 0,
            x % 4096 == 0,
    ;
}

/// The offsets of a root environment block; see [`root_layout`].
#[derive(Clone, Copy, Debug, PartialEq, Eq, Structural)]
pub struct RootEnvLayout {
    pub raw_args_section_start: usize,
    pub env_pointers_off: usize,
    pub args_pointers_off: usize,
    pub abi_structures_off: usize,
    pub stack_off: usize,
    pub stack_size: usize,
    pub raw_size: usize,
}

impl RootEnvLayout {
    /// These offsets are `root_layout(..)`.
    pub open spec fn is(&self, l: (int, int, int, int, int, int, int)) -> bool {
        &&& self.raw_args_section_start == l.0
        &&& self.env_pointers_off == l.1
        &&& self.args_pointers_off == l.2
        &&& self.abi_structures_off == l.3
        &&& self.stack_off == l.4
        &&& self.stack_size == l.5
        &&& self.raw_size == l.6
    }
}

/// The offsets of the root environment block; see [`root_layout`].
pub fn root_env_layout(stack_size: usize, env: &Vec<Vec<u8>>, args: &Vec<Vec<u8>>, abi_len: usize) -> (r: RootEnvLayout)
    requires
        root_env_fits(stack_size as int, views(env@), views(args@), abi_len as int),
    ensures
        r.is(root_layout(stack_size as int, views(env@), views(args@), abi_len as int)),
{
    proof {
        lemma_small_pow2s();
        reveal(root_layout);
    }
    let stack_size = align_up(stack_size, 16);
    let env_total = terminated_len(env);
    let args_total = terminated_len(args);
    let raw_env_section_size = 8 + env_total;
    let raw_args_section_size = 8 + args_total;
    let raw_slices_section_size = raw_args_section_size + raw_env_section_size;
    let env_pointers_off = align_up(raw_slices_section_size, 8);
    let args_pointers_off = env_pointers_off + env.len() * 16;
    let abi_structures_off = args_pointers_off + args.len() * 16;
    let after_abi = abi_structures_off + abi_len;
    let stack_off = align_up(after_abi, 16);
    RootEnvLayout {
        raw_args_section_start: raw_env_section_size,
        env_pointers_off,
        args_pointers_off,
        abi_structures_off,
        stack_off,
        stack_size,
        raw_size: after_abi + stack_size,
    }
}

/// The bytes of the root environment block at `addr`; see [`root_env_image`].
pub fn root_env_bytes(addr: usize, env: &Vec<Vec<u8>>, args: &Vec<Vec<u8>>, abi_structures: &Vec<u8>) -> (r: Vec<u8>)
    requires
        ({
            let l = root_layout(0, views(env@), views(args@), abi_structures@.len() as int);
            addr + l.3 + abi_structures@.len() <= usize::MAX
        }),
    ensures
        r@ == root_env_image(addr as int, views(env@), views(args@), abi_structures@),
{
    let ghost ev = views(env@);
    let ghost av = views(args@);
    let ghost l = root_layout(0, ev, av, abi_structures@.len() as int);
    proof {
        lemma_small_pow2s();
        lemma_terminated_len(ev, 0);
        lemma_terminated_len(av, 0);
        lemma_layout_prefix(0, ev, av, abi_structures@.len() as int);
    }
    let raw_args_section_start = 8 + terminated_len(env);
    let raw_slices_section_size = raw_args_section_start + 8 + terminated_len(args);
    let env_pointers_off = align_up(raw_slices_section_size, 8);
    let mut image: Vec<u8> = Vec::new();
    push_raw_section(&mut image, env);
    push_raw_section(&mut image, args);
    let ghost before_pad = image@;
    while image.len() < env_pointers_off
        invariant
            before_pad.len() == raw_slices_section_size,
            before_pad.len() <= image@.len() <= env_pointers_off,
            image@ == before_pad + Seq::new((image@.len() - before_pad.len()) as nat, |i: int| 0u8),
        decreases env_pointers_off - image@.len(),
    {
        image.push(0u8);
        assert(image@ =~= before_pad + Seq::new((image@.len() - before_pad.len()) as nat, |i: int| 0u8));
    }
    push_pointer_table(&mut image, addr, env);
    push_pointer_table(&mut image, addr + raw_args_section_start, args);
    append_bytes(&mut image, abi_structures);
    assert(image@ =~= root_env_image(addr as int, ev, av, abi_structures@)) by {
        reveal(root_layout);
    }
    image
}

/// Allocates the root thread's environment block and stack in `vmm`: the
/// raw environment variables and arguments, their slice tables, the ABI
/// structures and a stack of `stack_size` bytes rounded up to 16. Returns the
/// allocation, the stack's end and the addresses of the environment
/// pointers, argument pointers and ABI structures, and the bytes to copy to
/// the start of the block (the rest of it is zeroed).
#[verifier::rlimit(40)]
pub fn allocate_root_user_env(
    vmm: &mut VirtualMemoryManager,
    stack_size: usize,
    env: &Vec<Vec<u8>>,
    args: &Vec<Vec<u8>>,
    abi_structures: &Vec<u8>,
) -> (r: Result<(TrackedMemoryAllocation, (VirtAddr, VirtAddr, VirtAddr, VirtAddr), Vec<u8>), MapToError>)
    requires
        old(vmm).wf(),
        old(vmm).inner.start_addr.0 + old(vmm).inner.size + 16 <= usize::MAX,
        root_env_fits(stack_size as int, views(env@), views(args@), abi_structures@.len() as int),
    ensures
        final(vmm).wf(),
        final(vmm).inner.start_addr == old(vmm).inner.start_addr,
        final(vmm).inner.size == old(vmm).inner.size,
        ({
            let l = root_layout(stack_size as int, views(env@), views(args@), abi_structures@.len() as int);
            let p = alloc_next_spec(
                old(vmm).regions(),
                align_up_spec(l.6, PAGE_SIZE as int),
                ObjectState::Allocated(user_flags()),
            );
            &&& final(vmm).regions() == p.1
            &&& match (r, p.0) {
                (Ok((t, (stack_end, envv, argv, abi), image)), Ok(a)) => {
                    &&& t.addr.0 == a && t.process_owned && t.interface is None
                    &&& stack_end.0 == a + l.4 + l.5
                    &&& envv.0 == a + l.1
                    &&& argv.0 == a + l.2
                    &&& abi.0 == a + l.3
                    &&& image@ == root_env_image(a, views(env@), views(args@), abi_structures@)
                },
                (Err(e), Err(_)) => e == MapToError::FrameAllocationFailed,
                _ => false,
            }
        }),
{
    let ghost l = root_layout(stack_size as int, views(env@), views(args@), abi_structures@.len() as int);
    let ghost l0 = root_layout(0, views(env@), views(args@), abi_structures@.len() as int);
    let layout = root_env_layout(stack_size, env, args, abi_structures.len());
    let allocation_size = to_next_page(layout.raw_size);
    proof {
        lemma_page_multiple_aligned(allocation_size as int);
    }
    let addr = match allocate_user_stuff("thread.root_stack", vmm, allocation_size) {
        Ok(a) => a,
        Err(e) => return Err(e),
    };
    proof {
        lemma_layout_prefix(stack_size as int, views(env@), views(args@), abi_structures@.len() as int);
        assert(addr.0 + allocation_size <= old(vmm).inner.start_addr.0 + old(vmm).inner.size);
        assert(layout.raw_size <= allocation_size);
        assert(layout.stack_off + layout.stack_size <= layout.raw_size + 15);
    }
    let image = root_env_bytes(addr.0, env, args, abi_structures);
    let stack_end_off = layout.stack_off + layout.stack_size;
    Ok((
        TrackedMemoryAllocation::new(true, addr, None),
        (
            addr.add(stack_end_off),
            addr.add(layout.env_pointers_off),
            addr.add(layout.args_pointers_off),
            addr.add(layout.abi_structures_off),
        ),
        image,
    ))
}

/// `x` rounded up with the mask of `alignment`, as the kernel's alignment
/// helper computes it (a multiple of `alignment` when it is a power of two).
pub open spec fn mask_align_up(x: int, alignment: int) -> int {
    (((x + alignment - 1) as usize) & !((alignment - 1) as usize)) as int
}

/// The size of the thread-local information block that precedes or follows
/// a thread's TLS: on x86_64 a pointer to itself, the TLS pointer and the TLS size.
pub const UTHREAD_INFO_SIZE: usize = 24;
/// The alignment of that block.
pub const UTHREAD_INFO_ALIGN: usize = 8;

/// Allocates a thread's TLS block for a master TLS image of `size` bytes
/// (`tls_file_size` of them initialised) aligned to `tls_alignment`, with the
/// x86_64 placement: the TLS first, rounded up to the alignment (at least 8),
/// then the thread-local information block. Returns the allocation, the
/// address of the information block (the thread pointer), and the block's
/// bytes: the thread pointer, the TLS address and `size`. The caller copies
/// those bytes to the thread pointer and `tls_file_size` bytes from
/// `master_tls_addr_within` to the allocation's start.
pub fn allocate_tls(
    vmm: &mut VirtualMemoryManager,
    master_tls_addr_within: VirtAddr,
    tls_alignment: usize,
    size: usize,
    tls_file_size: usize,
) -> (r: Result<(TrackedMemoryAllocation, VirtAddr, Vec<u8>), MapToError>)
    requires
        old(vmm).wf(),
        tls_alignment >= 1,
        size + (if tls_alignment > UTHREAD_INFO_ALIGN { tls_alignment } else { UTHREAD_INFO_ALIGN }) - 1 <= usize::MAX,
        mask_align_up(size as int, if tls_alignment > UTHREAD_INFO_ALIGN { tls_alignment as int } else { 8 })
            + UTHREAD_INFO_SIZE + PAGE_SIZE <= usize::MAX,
    ensures
        final(vmm).wf(),
        final(vmm).inner.start_addr == old(vmm).inner.start_addr,
        final(vmm).inner.size == old(vmm).inner.size,
        ({
            let a = if tls_alignment > UTHREAD_INFO_ALIGN { tls_alignment as int } else { 8 };
            let aligned = mask_align_up(size as int, a);
            let p = alloc_next_spec(
                old(vmm).regions(),
                align_up_spec(UTHREAD_INFO_SIZE + aligned, PAGE_SIZE as int),
                ObjectState::Allocated(user_flags()),
            );
            &&& final(vmm).regions() == p.1
            &&& match (r, p.0) {
                (Ok((t, uthread, info)), Ok(base)) => {
                    &&& t.addr.0 == base && t.process_owned && t.interface is None
                    &&& uthread.0 == base + aligned
                    &&& info@ == le8(base + aligned) + le8(base) + le8(size as int)
                },
                (Err(e), Err(_)) => e == MapToError::FrameAllocationFailed,
                _ => false,
            }
        }),
{
    let alloc_alignment = if tls_alignment > UTHREAD_INFO_ALIGN {
        tls_alignment
    } else {
        UTHREAD_INFO_ALIGN
    };
    let tls_aligned_size = align_up(size, alloc_alignment);
    let tls_total_size = UTHREAD_INFO_SIZE + tls_aligned_size;
    let tls_alloc_addr = match allocate_user_stuff("thread.tls", vmm, tls_total_size) {
        Ok(a) => a,
        Err(e) => return Err(e),
    };
    let uthread_addr = tls_alloc_addr.add(tls_aligned_size);
    let tls_addr = tls_alloc_addr;
    let mut info: Vec<u8> = Vec::new();
    push_word(&mut info, uthread_addr.0 as u64);
    push_word(&mut info, tls_addr.0 as u64);
    push_word(&mut info, size as u64);
    Ok((TrackedMemoryAllocation::new(true, tls_alloc_addr, None), uthread_addr, info))
}

/// The state of memory mapped for a user program.
pub open spec fn mem_map_state(flags: VMMMFlags, populate: bool, device: bool) -> ObjectState {
    let f = VMMMFlags((VMMMFlags::USER_ACCESSIBLE | VMMMFlags::ZEROED | flags.0) as u8);
    if device {
        ObjectState::DMAAllocated(f)
    } else if populate {
        ObjectState::Allocated(f)
    } else {
        ObjectState::LazyAllocated(f)
    }
}

/// Maps `page_count` pages into a process's address space `space` at
/// `location`, or where it chooses: user-accessible, zeroed, with `flags`.
/// When `interface` names a memory-mapped device with its frames, the region
/// is placed for DMA and its page `k` maps to the device's frame `k`
/// (`InvalidSize` when the frames hold fewer bytes); else each page is backed
/// by a fresh frame taken from the end of `frames` (the region's state says
/// whether the program asked for it populated or lazily).
pub fn mem_map(
    space: &mut AddressSpace,
    frames: &mut Vec<u64>,
    location: Option<Location>,
    page_count: usize,
    flags: VMMMFlags,
    populate: bool,
    interface: Option<(u64, Vec<u64>)>,
) -> (r: Result<TrackedMemoryAllocation, VMMAllocError>)
    requires
        old(space).wf(),
        page_count * PAGE_SIZE <= usize::MAX,
        crate::vmm::location_ok(location, page_count * PAGE_SIZE),
        ({
            let st = mem_map_state(flags, populate, interface is Some);
            let p = crate::vmm::place_spec(old(space).vmm.regions(), old(space).vstart(), old(space).vsize(),
                location, page_count * PAGE_SIZE, st);
            match interface {
                Some((_, fs)) => fs@.len() * PAGE_SIZE <= usize::MAX && (fs@.len() >= page_count ==> (p.0 matches Ok(
                    a,
                ) ==> a + fs@.len() * PAGE_SIZE <= usize::MAX && pages_unmapped(old(space).table.mapping(), a,
                    fs@.len() as int))),
                None => p.0 matches Ok(a) ==> pages_unmapped(old(space).table.mapping(), a, page_count as int),
            }
        }),
    ensures
        final(space).wf(),
        ({
            let size = page_count * PAGE_SIZE;
            let st = mem_map_state(flags, populate, interface is Some);
            let f = VMMMFlags((VMMMFlags::USER_ACCESSIBLE | VMMMFlags::ZEROED | flags.0) as u8);
            let p = crate::vmm::place_spec(old(space).vmm.regions(), old(space).vstart(), old(space).vsize(),
                location, size, st);
            match interface {
                Some((_, fs)) if fs@.len() * PAGE_SIZE < size => r == Err::<TrackedMemoryAllocation, VMMAllocError>(
                    VMMAllocError::InvalidSize,
                ) && final(space).vmm.regions() == old(space).vmm.regions() && final(space).table.mapping() == old(
                    space,
                ).table.mapping(),
                Some((h, fs)) => final(space).vmm.regions() == p.1 && match p.0 {
                    Ok(a) => r matches Ok(t) && t.addr.0 == a && t.process_owned && t.interface == Some(h)
                        && final(space).table.mapping() == contiguous_spec(old(space).table.mapping(), fs@, 0, a,
                        entry_flags_of(f)).1,
                    Err(e) => r == Err::<TrackedMemoryAllocation, VMMAllocError>(e) && final(space).table.mapping()
                        == old(space).table.mapping(),
                },
                None => final(space).vmm.regions() == p.1 && match p.0 {
                    Ok(a) => {
                        let b = alloc_map_spec(old(space).table.mapping(), old(frames)@, a, page_count as int,
                            entry_flags_of(f));
                        &&& final(space).table.mapping() == b.1
                        &&& final(frames)@ == b.2
                        &&& b.0 is Ok ==> (r matches Ok(t) && t.addr.0 == a && t.process_owned && t.interface is None)
                        &&& !(b.0 is Ok) ==> r == Err::<TrackedMemoryAllocation, VMMAllocError>(
                            VMMAllocError::OutOfMemory,
                        )
                    },
                    Err(e) => r == Err::<TrackedMemoryAllocation, VMMAllocError>(e) && final(space).table.mapping()
                        == old(space).table.mapping(),
                },
            }
        }),
{
    let size_bytes = page_count * PAGE_SIZE;
    assert(size_bytes % PAGE_SIZE == 0 && size_bytes / PAGE_SIZE == page_count) by (nonlinear_arith)
        requires
            size_bytes == page_count * PAGE_SIZE,
    ;
    let flags = VMMMFlags(VMMMFlags::USER_ACCESSIBLE | VMMMFlags::ZEROED | flags.0);
    match interface {
        Some((h, device_frames)) => {
            assert(device_frames@.len() * PAGE_SIZE >= size_bytes <==> device_frames@.len() >= page_count) by (
            nonlinear_arith)
                requires
                    size_bytes == page_count * PAGE_SIZE,
            ;
            match space.map_direct("MemMappedDevice", location, size_bytes, flags, &device_frames) {
                Ok(a) => Ok(TrackedMemoryAllocation::new(true, a, Some(h))),
                Err(e) => Err(e),
            }
        },
        None => {
            let mode = if populate {
                VMMAllocMode::Normal
            } else {
                VMMAllocMode::Lazy
            };
            match space.map_new(frames, "MemMap", location, size_bytes, flags, mode) {
                Ok(a) => Ok(TrackedMemoryAllocation::new(true, a, None)),
                Err(e) => Err(e),
            }
        },
    }
}

} // verus!
