//! Virtual and physical addresses, power-of-two alignment and the HHDM mapping.
use vstd::prelude::*;
use vstd::arithmetic::power2::{pow2, lemma2_to64, lemma_pow2_pos};
use vstd::arithmetic::div_mod::lemma_fundamental_div_mod;
use vstd::bits::{low_bits_mask, lemma_usize_low_bits_mask_is_mod, lemma_usize_pow2_no_overflow};

verus! {

/// `a` is a power of two that fits in a `usize`.
pub open spec fn is_pow2(a: int) -> bool {
    exists|k: nat| k < usize::BITS && #[trigger] pow2(k) == a
}

/// The largest multiple of `a` that is not above `x`.
pub open spec fn align_down_spec(x: int, a: int) -> int {
    (x / a) * a
}

/// The smallest multiple of `a` that is not below `x`.
pub open spec fn align_up_spec(x: int, a: int) -> int {
    ((x + a - 1) / a) * a
}

proof fn lemma_mask_is_align_down(x: usize, a: usize)
    requires
        is_pow2(a as int),
    ensures
        x & !((a - 1) as usize) == align_down_spec(x as int, a as int),
        a >= 1,
{
    let k = choose|k: nat| k < usize::BITS && #[trigger] pow2(k) == a as int;
    lemma_usize_pow2_no_overflow(k);
    lemma_pow2_pos(k);
    lemma_usize_low_bits_mask_is_mod(x, k);
    assert(low_bits_mask(k) == a - 1);
    let m: usize = (a - 1) as usize;
    assert((x & !m) + (x & m) == x) by (bit_vector);
    lemma_fundamental_div_mod(x as int, a as int);
    assert(low_bits_mask(k) as usize == m);
    assert(x & m == x % a);
    assert((x / a) * a == a * (x / a)) by (nonlinear_arith);
}

/// Rounds `x` down to a multiple of the power of two `alignment`.
pub fn align_down(x: usize, alignment: usize) -> (r: usize)
    requires
        alignment >= 1,
    ensures
        r == x & !((alignment - 1) as usize),
        is_pow2(alignment as int) ==> r == align_down_spec(x as int, alignment as int),
{
    proof {
        if is_pow2(alignment as int) {
            lemma_mask_is_align_down(x, alignment);
        }
    }
    x & !(alignment - 1)
}

/// Rounds `x` up to a multiple of the power of two `alignment`.
pub fn align_up(x: usize, alignment: usize) -> (r: usize)
    requires
        alignment >= 1,
        x + alignment - 1 <= usize::MAX,
    ensures
        r == ((x + alignment - 1) as usize) & !((alignment - 1) as usize),
        is_pow2(alignment as int) ==> r == align_up_spec(x as int, alignment as int),
{
    let y = x + (alignment - 1);
    proof {
        if is_pow2(alignment as int) {
            lemma_mask_is_align_down(y, alignment);
        }
    }
    y & !(alignment - 1)
}

} // verus!

verus! {

/// The size of a page and of a frame, in bytes.
pub const PAGE_SIZE: usize = 4096;

/// The base of the higher-half direct map (HHDM) in virtual memory.
pub open spec fn hhdm() -> usize {
    0xffff_8000_0000_0000u64 as usize
}

/// Returns the base of the higher-half direct map.
pub fn hhdm_base() -> (r: usize)
    ensures
        r == hhdm(),
{
    0xffff_8000_0000_0000u64 as usize
}

proof fn lemma_page_size_pow2()
    ensures
        is_pow2(PAGE_SIZE as int),
{
    lemma2_to64();
    assert(pow2(12) == 4096);
}

/// A virtual memory address.
#[derive(Clone, Copy, Debug, PartialEq, Eq, Structural, PartialOrd, Ord, Hash)]
pub struct VirtAddr(pub usize);

/// A physical memory address.
#[derive(Clone, Copy, Debug, PartialEq, Eq, Structural, PartialOrd, Ord, Hash)]
pub struct PhysAddr(pub usize);

impl VirtAddr {
    /// The null address.
    pub fn null() -> (r: Self)
        ensures
            r.0 == 0,
    {
        VirtAddr(0)
    }

    /// Wraps a raw address.
    pub fn from(value: usize) -> (r: Self)
        ensures
            r.0 == value,
    {
        VirtAddr(value)
    }

    /// Wraps raw address bits.
    pub fn from_bits(bits: usize) -> (r: Self)
        ensures
            r.0 == bits,
    {
        VirtAddr(bits)
    }

    /// The raw address.
    pub fn into_raw(self) -> (r: usize)
        ensures
            r == self.0,
    {
        self.0
    }

    /// The raw address bits.
    pub fn into_bits(self) -> (r: usize)
        ensures
            r == self.0,
    {
        self.0
    }

    /// The address `rhs` bytes after `self`.
    pub fn add(self, rhs: usize) -> (r: Self)
        requires
            self.0 + rhs <= usize::MAX,
        ensures
            r.0 == self.0 + rhs,
    {
        VirtAddr(self.0 + rhs)
    }

    /// The address `rhs` bytes before `self`.
    pub fn sub(self, rhs: usize) -> (r: Self)
        requires
            self.0 >= rhs,
        ensures
            r.0 == self.0 - rhs,
    {
        VirtAddr(self.0 - rhs)
    }

    /// The distance in bytes from `rhs` up to `self`.
    pub fn diff(self, rhs: Self) -> (r: usize)
        requires
            self.0 >= rhs.0,
        ensures
            r == self.0 - rhs.0,
    {
        self.0 - rhs.0
    }

    /// Aligns the address up to a multiple of `alignment`.
    pub fn to_next_multiple_of(self, alignment: usize) -> (r: Self)
        requires
            alignment >= 1,
            self.0 + alignment - 1 <= usize::MAX,
        ensures
            is_pow2(alignment as int) ==> r.0 == align_up_spec(self.0 as int, alignment as int),
            r.0 == ((self.0 + alignment - 1) as usize) & !((alignment - 1) as usize),
    {
        VirtAddr(align_up(self.0, alignment))
    }

    /// Aligns the address down to a multiple of `alignment`.
    pub fn to_previous_multiple_of(self, alignment: usize) -> (r: Self)
        requires
            alignment >= 1,
        ensures
            is_pow2(alignment as int) ==> r.0 == align_down_spec(self.0 as int, alignment as int),
            r.0 == self.0 & !((alignment - 1) as usize),
    {
        VirtAddr(align_down(self.0, alignment))
    }

    /// Aligns the address up to the next page boundary.
    pub fn to_next_page(self) -> (r: Self)
        requires
            self.0 + PAGE_SIZE - 1 <= usize::MAX,
        ensures
            r.0 == align_up_spec(self.0 as int, PAGE_SIZE as int),
    {
        proof { lemma_page_size_pow2(); }
        self.to_next_multiple_of(PAGE_SIZE)
    }

    /// Aligns the address down to the start of its page.
    pub fn to_previous_page(self) -> (r: Self)
        ensures
            r.0 == align_down_spec(self.0 as int, PAGE_SIZE as int),
    {
        proof { lemma_page_size_pow2(); }
        self.to_previous_multiple_of(PAGE_SIZE)
    }

    /// Whether the address lies in the lower half of the address space: its
    /// top bit is clear, so `usize::MAX / 2` is the last such address.
    pub fn is_in_lower_half(self) -> (r: bool)
        ensures
            r == (self.0 <= usize::MAX / 2),
    {
        self.0 <= usize::MAX / 2
    }

    /// The physical address that this HHDM address maps.
    pub fn into_phys(self) -> (r: PhysAddr)
        requires
            self.0 >= hhdm(),
        ensures
            r.0 == self.0 - hhdm(),
    {
        PhysAddr(self.0 - hhdm_base())
    }

    /// The HHDM address of the physical address `value`.
    pub fn from_phys(value: usize) -> (r: VirtAddr)
        ensures
            r.0 == value | hhdm(),
    {
        PhysAddr::from(value).into_virt()
    }
}

impl PhysAddr {
    /// The null address.
    pub fn null() -> (r: Self)
        ensures
            r.0 == 0,
    {
        PhysAddr(0)
    }

    /// Wraps a raw address.
    pub fn from(value: usize) -> (r: Self)
        ensures
            r.0 == value,
    {
        PhysAddr(value)
    }

    /// The raw address.
    pub fn into_raw(self) -> (r: usize)
        ensures
            r == self.0,
    {
        self.0
    }

    /// The address `rhs` bytes after `self`.
    pub fn add(self, rhs: usize) -> (r: Self)
        requires
            self.0 + rhs <= usize::MAX,
        ensures
            r.0 == self.0 + rhs,
    {
        PhysAddr(self.0 + rhs)
    }

    /// The HHDM virtual address of this physical address; on a 64-bit
    /// machine it lies in the upper half of the address space.
    pub fn into_virt(self) -> (r: VirtAddr)
        ensures
            r.0 == self.0 | hhdm(),
            r.0 >= hhdm(),
            usize::BITS == 64 ==> r.0 > usize::MAX / 2,
    {
        let h = hhdm_base();
        let x = self.0;
        assert((x | h) >= h) by (bit_vector);
        proof {
            if usize::BITS == 64 {
                assert(usize::MAX == 0xffff_ffff_ffff_ffffu64);
                assert(h == 0xffff_8000_0000_0000u64) by (bit_vector)
                    requires
                        h == 0xffff_8000_0000_0000u64 as usize,
                        usize::BITS == 64,
                ;
                assert((x | h) as u64 >= h as u64);
            }
        }
        VirtAddr(x | h)
    }
}

/// Mapping a physical address into the HHDM and back gives the address back,
/// for every address that shares no bit with the HHDM base.
pub proof fn law_hhdm_round_trip(p: PhysAddr)
    requires
        p.0 & hhdm() == 0,
    ensures
        (p.0 | hhdm()) >= hhdm(),
        (p.0 | hhdm()) - hhdm() == p.0,
{
    let h = hhdm();
    let x = p.0;
    assert(x & h == 0 ==> (x | h) == x + h) by (bit_vector);
}

} // verus!

verus! {

/// Rounds a byte count up to a whole number of pages.
pub fn to_next_page(x: usize) -> (r: usize)
    requires
        x + PAGE_SIZE - 1 <= usize::MAX,
    ensures
        r == align_up_spec(x as int, PAGE_SIZE as int),
        r % PAGE_SIZE == 0,
        x <= r < x + PAGE_SIZE,
{
    proof { lemma_page_size_pow2(); }
    let r = align_up(x, PAGE_SIZE);
    proof {
        let xi = x as int;
        assert(((xi + 4095) / 4096) * 4096 % 4096 == 0) by (nonlinear_arith);
        assert(xi <= ((xi + 4095) / 4096) * 4096 < xi + 4096) by (nonlinear_arith);
    }
    r
}

/// Rounds a byte count down to a whole number of pages.
pub fn to_previous_page(x: usize) -> (r: usize)
    ensures
        r == align_down_spec(x as int, PAGE_SIZE as int),
        r % PAGE_SIZE == 0,
        r <= x < r + PAGE_SIZE,
{
    proof { lemma_page_size_pow2(); }
    let r = align_down(x, PAGE_SIZE);
    proof {
        let xi = x as int;
        assert((xi / 4096) * 4096 % 4096 == 0) by (nonlinear_arith);
        assert((xi / 4096) * 4096 <= xi < (xi / 4096) * 4096 + 4096) by (nonlinear_arith);
    }
    r
}

} // verus!
