//! ELF64 executables: the header and its checks, program and section
//! headers, symbols, and the layout of a loaded executable.
use crate::addr::{align_down_spec, align_up_spec, to_next_page, to_previous_page, VirtAddr, PAGE_SIZE};
use crate::vmm::{place_spec, Location, ObjectState, Region, VMMAllocError, VMMAllocMode, VMMMFlags, VirtualMemoryManager};
use crate::errors::ErrorStatus;
use crate::paging::MapToError;
use vstd::prelude::*;

verus! {

/// 256 to the power `n`.
pub open spec fn pow256(n: nat) -> int
    decreases n,
{
    if n == 0 {
        1
    } else {
        256 * pow256((n - 1) as nat)
    }
}

/// The little-endian unsigned integer of the `n` bytes of `b` at `off`.
pub open spec fn le_uint(b: Seq<u8>, off: int, n: nat) -> int
    decreases n,
{
    if n == 0 {
        0
    } else {
        b[off] + 256 * le_uint(b, off + 1, (n - 1) as nat)
    }
}

proof fn lemma_le_bound(b: Seq<u8>, off: int, n: nat)
    requires
        0 <= off,
        off + n <= b.len(),
    ensures
        0 <= le_uint(b, off, n) < pow256(n),
    decreases n,
{
    if n > 0 {
        lemma_le_bound(b, off + 1, (n - 1) as nat);
    }
}

proof fn lemma_pow256_8()
    ensures
        pow256(8) == 0x1_0000_0000_0000_0000,
        pow256(4) == 0x1_0000_0000,
        pow256(2) == 0x1_0000,
        pow256(7) == 0x100_0000_0000_0000,
{
    reveal_with_fuel(pow256, 9);
}

/// Reads the little-endian unsigned integer of the `n` bytes of `b` at `off`.
pub fn read_le(b: &[u8], off: usize, n: usize) -> (r: u64)
    requires
        off + n <= b@.len(),
        n <= 8,
    ensures
        r == le_uint(b@, off as int, n as nat),
{
    let mut r: u64 = 0;
    let mut i: usize = n;
    let len = b.len();
    while i > 0
        invariant
            0 <= i <= n <= 8,
            len == b@.len(),
            off + n <= b@.len(),
            r == le_uint(b@, off + i, (n - i) as nat),
        decreases i,
    {
        i = i - 1;
        proof {
            lemma_le_bound(b@, off + i + 1, (n - i - 1) as nat);
            lemma_pow256_8();
            lemma_pow256_mono((n - i - 1) as nat, 7);
            assert(r == le_uint(b@, off + i + 1, (n - i - 1) as nat));
            assert(r < 0x100_0000_0000_0000);
        }
        let byte = b[off + i] as u64;
        assert(r * 256 + byte <= 0xFFFF_FFFF_FFFF_FFFF) by (nonlinear_arith)
            requires
                r < 0x100_0000_0000_0000,
                byte < 256,
        ;
        r = r * 256 + byte;
    }
    r
}

proof fn lemma_pow256_pos(n: nat)
    ensures
        pow256(n) >= 1,
    decreases n,
{
    if n > 0 {
        lemma_pow256_pos((n - 1) as nat);
    }
}

proof fn lemma_pow256_mono(a: nat, b: nat)
    requires
        a <= b,
    ensures
        1 <= pow256(a) <= pow256(b),
    decreases b,
{
    lemma_pow256_pos(a);
    lemma_pow256_pos(b);
    if a < b {
        lemma_pow256_mono(a, (b - 1) as nat);
    }
}

/// The type of an ELF file.
#[derive(Clone, Copy, Debug, PartialEq, Eq, Structural)]
pub struct ElfType(pub u16);

impl ElfType {
    pub const RELOC: u16 = 1;
    pub const EXE: u16 = 2;
    pub const DYN: u16 = 3;
}

/// The instruction set of an ELF file.
#[derive(Clone, Copy, Debug, PartialEq, Eq, Structural)]
pub struct ElfInstrSet(pub u16);

impl ElfInstrSet {
    pub const AMD64: u16 = 0x3E;
    pub const AARCH64: u16 = 0xB7;
}

/// The instruction set that this kernel runs.
pub const SUPPORTED_INSTRUCTION_SET: u16 = 0x3E;

/// The byte order of an ELF file.
#[derive(Clone, Copy, Debug, PartialEq, Eq, Structural)]
pub struct ElfIEndianness(pub u8);

impl ElfIEndianness {
    pub const LITTLE: u8 = 1;
}

/// The word size of an ELF file.
#[derive(Clone, Copy, Debug, PartialEq, Eq, Structural)]
pub struct ElfClass(pub u8);

impl ElfClass {
    pub const ELF32: u8 = 1;
    pub const ELF64: u8 = 2;
}

/// The size of an ELF64 header.
pub const ELF_HEADER_SIZE: usize = 64;
/// The size of an ELF64 program header.
pub const PROGRAM_HEADER_SIZE: usize = 56;
/// The size of an ELF64 section header.
pub const SECTION_HEADER_SIZE: usize = 64;
/// The size of a symbol as the kernel lays it out.
pub const SYM_SIZE: usize = 24;

/// The header of an ELF64 file.
#[derive(Clone, Copy, Debug)]
pub struct ElfHeader {
    pub magic: [u8; 4],
    pub class: ElfClass,
    pub endianness: ElfIEndianness,
    pub version: u8,
    pub osabi: u8,
    pub abiver: u8,
    pub kind: ElfType,
    pub instruction_set: ElfInstrSet,
    pub version_2: u32,
    pub entry_point: VirtAddr,
    pub program_headers_table_offset: usize,
    pub section_header_table_offset: usize,
    pub flags: u32,
    pub size: u16,
    pub program_headers_table_entry_size: u16,
    pub program_headers_table_entries_number: u16,
    pub section_table_entry_size: u16,
    pub section_table_entries: u16,
    pub sections_names_section_offset: u16,
}

/// The ELF header that the first 64 bytes of `b` hold.
pub open spec fn header_of(h: ElfHeader, b: Seq<u8>) -> bool {
    &&& h.magic@ == b.subrange(0, 4)
    &&& h.class.0 == b[4]
    &&& h.endianness.0 == b[5]
    &&& h.version == b[6]
    &&& h.osabi == b[7]
    &&& h.abiver == b[8]
    &&& h.kind.0 == le_uint(b, 16, 2)
    &&& h.instruction_set.0 == le_uint(b, 18, 2)
    &&& h.version_2 == le_uint(b, 20, 4)
    &&& h.entry_point.0 == le_uint(b, 24, 8) as usize
    &&& h.program_headers_table_offset == le_uint(b, 32, 8) as usize
    &&& h.section_header_table_offset == le_uint(b, 40, 8) as usize
    &&& h.flags == le_uint(b, 48, 4)
    &&& h.size == le_uint(b, 52, 2)
    &&& h.program_headers_table_entry_size == le_uint(b, 54, 2)
    &&& h.program_headers_table_entries_number == le_uint(b, 56, 2)
    &&& h.section_table_entry_size == le_uint(b, 58, 2)
    &&& h.section_table_entries == le_uint(b, 60, 2)
    &&& h.sections_names_section_offset == le_uint(b, 62, 2)
}

/// Why an ELF file cannot be loaded.
#[derive(Clone, Copy, Debug, PartialEq, Eq, Structural)]
pub enum ElfError {
    UnsupportedClass,
    UnsupportedEndianness,
    UnsupportedKind,
    UnsupportedInstructionSet,
    NotAnElf,
    NotAnExecutable,
    MapToError,
    Corrupted,
}

impl ElfError {
    /// The ABI error status for this error.
    pub fn into_err(self) -> (r: ErrorStatus)
        ensures
            r == match self {
                ElfError::Corrupted => ErrorStatus::Corrupted,
                ElfError::NotAnExecutable | ElfError::NotAnElf => ErrorStatus::NotExecutable,
                ElfError::MapToError => ErrorStatus::MMapError,
                _ => ErrorStatus::NotSupported,
            },
    {
        match self {
            ElfError::Corrupted => ErrorStatus::Corrupted,
            ElfError::NotAnExecutable | ElfError::NotAnElf => ErrorStatus::NotExecutable,
            ElfError::MapToError => ErrorStatus::MMapError,
            ElfError::UnsupportedKind | ElfError::UnsupportedInstructionSet | ElfError::UnsupportedClass
            | ElfError::UnsupportedEndianness => ErrorStatus::NotSupported,
        }
    }

    /// Any failure to map memory is a mapping error.
    pub fn from_map_error(e: MapToError) -> (r: ElfError)
        ensures
            r == ElfError::MapToError,
    {
        ElfError::MapToError
    }
}

/// Whether `h` is a valid ELF header: the magic number and its own size.
pub open spec fn verify_spec(h: ElfHeader) -> bool {
    h.magic[0] == 0x7F && h.magic[1] == 0x45 && h.magic[2] == 0x4C && h.magic[3] == 0x46 && h.size == ELF_HEADER_SIZE
}

/// Whether this kernel can run the file of header `h`, or why not.
pub open spec fn supported_spec(h: ElfHeader) -> Result<(), ElfError> {
    if h.class.0 != ElfClass::ELF64 {
        Err(ElfError::UnsupportedClass)
    } else if h.endianness.0 != ElfIEndianness::LITTLE {
        Err(ElfError::UnsupportedEndianness)
    } else if h.kind.0 != ElfType::EXE && h.kind.0 != ElfType::RELOC && h.kind.0 != ElfType::DYN {
        Err(ElfError::UnsupportedKind)
    } else if h.instruction_set.0 != SUPPORTED_INSTRUCTION_SET {
        Err(ElfError::UnsupportedInstructionSet)
    } else {
        Ok(())
    }
}

impl ElfHeader {
    /// The header at the start of `b`, or `None` when `b` holds fewer than 64 bytes.
    pub fn from_bytes(b: &[u8]) -> (r: Option<ElfHeader>)
        ensures
            b@.len() < ELF_HEADER_SIZE ==> r is None,
            b@.len() >= ELF_HEADER_SIZE ==> (r matches Some(h) && header_of(h, b@)),
    {
        if b.len() < ELF_HEADER_SIZE {
            return None;
        }
        let magic = [b[0], b[1], b[2], b[3]];
        assert(magic@ =~= b@.subrange(0, 4));
        proof {
            lemma_le_bound(b@, 16, 2);
            lemma_le_bound(b@, 18, 2);
            lemma_le_bound(b@, 20, 4);
            lemma_le_bound(b@, 48, 4);
            lemma_le_bound(b@, 52, 2);
            lemma_le_bound(b@, 54, 2);
            lemma_le_bound(b@, 56, 2);
            lemma_le_bound(b@, 58, 2);
            lemma_le_bound(b@, 60, 2);
            lemma_le_bound(b@, 62, 2);
            lemma_pow256_8();
        }
        Some(ElfHeader {
            magic,
            class: ElfClass(b[4]),
            endianness: ElfIEndianness(b[5]),
            version: b[6],
            osabi: b[7],
            abiver: b[8],
            kind: ElfType(read_le(b, 16, 2) as u16),
            instruction_set: ElfInstrSet(read_le(b, 18, 2) as u16),
            version_2: read_le(b, 20, 4) as u32,
            entry_point: VirtAddr(read_le(b, 24, 8) as usize),
            program_headers_table_offset: read_le(b, 32, 8) as usize,
            section_header_table_offset: read_le(b, 40, 8) as usize,
            flags: read_le(b, 48, 4) as u32,
            size: read_le(b, 52, 2) as u16,
            program_headers_table_entry_size: read_le(b, 54, 2) as u16,
            program_headers_table_entries_number: read_le(b, 56, 2) as u16,
            section_table_entry_size: read_le(b, 58, 2) as u16,
            section_table_entries: read_le(b, 60, 2) as u16,
            sections_names_section_offset: read_le(b, 62, 2) as u16,
        })
    }

    /// Whether this is a valid ELF header: the magic number `\x7FELF` and
    /// the size of an ELF64 header.
    pub fn verify(&self) -> (r: bool)
        ensures
            r == verify_spec(*self),
    {
        self.magic[0] == 0x7F && self.magic[1] == 0x45 && self.magic[2] == 0x4C && self.magic[3] == 0x46
            && self.size as usize == ELF_HEADER_SIZE
    }

    /// Whether this kernel can run the file: 64-bit, little-endian, an
    /// executable, relocatable or shared object, for this instruction set.
    pub fn supported(&self) -> (r: Result<(), ElfError>)
        ensures
            r == supported_spec(*self),
    {
        if self.class.0 != ElfClass::ELF64 {
            Err(ElfError::UnsupportedClass)
        } else if self.endianness.0 != ElfIEndianness::LITTLE {
            Err(ElfError::UnsupportedEndianness)
        } else if self.kind.0 != ElfType::EXE && self.kind.0 != ElfType::RELOC && self.kind.0 != ElfType::DYN {
            Err(ElfError::UnsupportedKind)
        } else if self.instruction_set.0 != SUPPORTED_INSTRUCTION_SET {
            Err(ElfError::UnsupportedInstructionSet)
        } else {
            Ok(())
        }
    }
}

/// The type of a program header.
#[derive(Clone, Copy, Debug, PartialEq, Eq, Structural)]
pub struct ProgramType(pub u32);

impl ProgramType {
    pub const NULL: u32 = 0;
    pub const LOAD: u32 = 1;
    pub const INTERP: u32 = 3;
    pub const PHDR: u32 = 6;
    pub const TLS: u32 = 7;
}

/// The access flags of a program header.
#[derive(Clone, Copy, Debug, PartialEq, Eq, Structural)]
pub struct ProgramFlags(pub u32);

impl ProgramFlags {
    pub const EXEC: u32 = 1;
    pub const WRITE: u32 = 2;
    pub const READ: u32 = 4;

    /// Whether every bit of `bits` is set.
    pub fn contains(&self, bits: u32) -> (r: bool)
        ensures
            r == (self.0 & bits == bits),
    {
        self.0 & bits == bits
    }
}

/// A program header of an ELF64 file.
#[derive(Clone, Copy, Debug)]
pub struct ProgramHeader {
    pub ptype: ProgramType,
    pub flags: ProgramFlags,
    pub offset: usize,
    pub vaddr: VirtAddr,
    pub paddr: usize,
    pub filez: usize,
    pub memz: usize,
    pub align: usize,
}

/// The program header that the 56 bytes of `b` at `off` hold.
pub open spec fn program_header_of(p: ProgramHeader, b: Seq<u8>, off: int) -> bool {
    &&& p.ptype.0 == le_uint(b, off, 4)
    &&& p.flags.0 == le_uint(b, off + 4, 4)
    &&& p.offset == le_uint(b, off + 8, 8) as usize
    &&& p.vaddr.0 == le_uint(b, off + 16, 8) as usize
    &&& p.paddr == le_uint(b, off + 24, 8) as usize
    &&& p.filez == le_uint(b, off + 32, 8) as usize
    &&& p.memz == le_uint(b, off + 40, 8) as usize
    &&& p.align == le_uint(b, off + 48, 8) as usize
}

impl ProgramHeader {
    /// The program header at `off` in `b`, or `None` when `b` is too short.
    pub fn from_bytes(b: &[u8], off: usize) -> (r: Option<ProgramHeader>)
        ensures
            off + PROGRAM_HEADER_SIZE > b@.len() ==> r is None,
            off + PROGRAM_HEADER_SIZE <= b@.len() ==> (r matches Some(p) && program_header_of(p, b@, off as int)),
    {
        if b.len() < PROGRAM_HEADER_SIZE || off > b.len() - PROGRAM_HEADER_SIZE {
            return None;
        }
        proof {
            lemma_le_bound(b@, off as int, 4);
            lemma_le_bound(b@, off + 4, 4);
            lemma_pow256_8();
        }
        Some(ProgramHeader {
            ptype: ProgramType(read_le(b, off, 4) as u32),
            flags: ProgramFlags(read_le(b, off + 4, 4) as u32),
            offset: read_le(b, off + 8, 8) as usize,
            vaddr: VirtAddr(read_le(b, off + 16, 8) as usize),
            paddr: read_le(b, off + 24, 8) as usize,
            filez: read_le(b, off + 32, 8) as usize,
            memz: read_le(b, off + 40, 8) as usize,
            align: read_le(b, off + 48, 8) as usize,
        })
    }
}

/// A section header of an ELF64 file.
#[derive(Clone, Copy, Debug)]
pub struct SectionHeader {
    pub name_index: u32,
    pub section_type: u32,
    pub flags: usize,
    pub addr: VirtAddr,
    /// Where the section's data starts in the file.
    pub offset: usize,
    pub size: usize,
    pub link: u32,
    pub info: u32,
    pub alignment: usize,
    pub entry_size: usize,
}

/// The section header that the 64 bytes of `b` at `off` hold.
pub open spec fn section_header_of(s: SectionHeader, b: Seq<u8>, off: int) -> bool {
    &&& s.name_index == le_uint(b, off, 4)
    &&& s.section_type == le_uint(b, off + 4, 4)
    &&& s.flags == le_uint(b, off + 8, 8) as usize
    &&& s.addr.0 == le_uint(b, off + 16, 8) as usize
    &&& s.offset == le_uint(b, off + 24, 8) as usize
    &&& s.size == le_uint(b, off + 32, 8) as usize
    &&& s.link == le_uint(b, off + 40, 4)
    &&& s.info == le_uint(b, off + 44, 4)
    &&& s.alignment == le_uint(b, off + 48, 8) as usize
    &&& s.entry_size == le_uint(b, off + 56, 8) as usize
}

impl SectionHeader {
    /// The section header at `off` in `b`, or `None` when `b` is too short.
    pub fn from_bytes(b: &[u8], off: usize) -> (r: Option<SectionHeader>)
        ensures
            off + SECTION_HEADER_SIZE > b@.len() ==> r is None,
            off + SECTION_HEADER_SIZE <= b@.len() ==> (r matches Some(s) && section_header_of(s, b@, off as int)),
    {
        if b.len() < SECTION_HEADER_SIZE || off > b.len() - SECTION_HEADER_SIZE {
            return None;
        }
        proof {
            lemma_le_bound(b@, off as int, 4);
            lemma_le_bound(b@, off + 4, 4);
            lemma_le_bound(b@, off + 40, 4);
            lemma_le_bound(b@, off + 44, 4);
            lemma_pow256_8();
        }
        Some(SectionHeader {
            name_index: read_le(b, off, 4) as u32,
            section_type: read_le(b, off + 4, 4) as u32,
            flags: read_le(b, off + 8, 8) as usize,
            addr: VirtAddr(read_le(b, off + 16, 8) as usize),
            offset: read_le(b, off + 24, 8) as usize,
            size: read_le(b, off + 32, 8) as usize,
            link: read_le(b, off + 40, 4) as u32,
            info: read_le(b, off + 44, 4) as u32,
            alignment: read_le(b, off + 48, 8) as usize,
            entry_size: read_le(b, off + 56, 8) as usize,
        })
    }
}

/// A symbol, as the kernel lays it out: name, value, size, info, other and
/// section index.
#[derive(Clone, Copy, Debug)]
pub struct Sym {
    pub name_index: u32,
    pub value: VirtAddr,
    pub size: u32,
    pub info: u8,
    pub other: u8,
    pub section_index: u16,
}

/// The symbol that the 24 bytes of `b` at `off` hold.
pub open spec fn sym_of(s: Sym, b: Seq<u8>, off: int) -> bool {
    &&& s.name_index == le_uint(b, off, 4)
    &&& s.value.0 == le_uint(b, off + 8, 8) as usize
    &&& s.size == le_uint(b, off + 16, 4)
    &&& s.info == b[off + 20]
    &&& s.other == b[off + 21]
    &&& s.section_index == le_uint(b, off + 22, 2)
}

impl Sym {
    /// The symbol at `off` in `b`, or `None` when `b` is too short.
    pub fn from_bytes(b: &[u8], off: usize) -> (r: Option<Sym>)
        ensures
            off + SYM_SIZE > b@.len() ==> r is None,
            off + SYM_SIZE <= b@.len() ==> (r matches Some(s) && sym_of(s, b@, off as int)),
    {
        if b.len() < SYM_SIZE || off > b.len() - SYM_SIZE {
            return None;
        }
        proof {
            lemma_le_bound(b@, off as int, 4);
            lemma_le_bound(b@, off + 16, 4);
            lemma_le_bound(b@, off + 22, 2);
            lemma_pow256_8();
        }
        Some(Sym {
            name_index: read_le(b, off, 4) as u32,
            value: VirtAddr(read_le(b, off + 8, 8) as usize),
            size: read_le(b, off + 16, 4) as u32,
            info: b[off + 20],
            other: b[off + 21],
            section_index: read_le(b, off + 22, 2) as u16,
        })
    }
}

/// Whether `value` lies in the range of the symbol `s`, both ends included.
pub open spec fn sym_covers(s: Sym, value: usize) -> bool {
    s.value.0 <= value && s.value.0 + s.size >= value
}

/// The first symbol of `syms` whose range holds `value`.
pub fn sym_from_value_range(syms: &Vec<Sym>, value: VirtAddr) -> (r: Option<Sym>)
    requires
        forall|i: int| 0 <= i < syms@.len() ==> (#[trigger] syms@[i]).value.0 + syms@[i].size <= usize::MAX,
    ensures
        match r {
            Some(s) => exists|i: int|
                0 <= i < syms@.len() && syms@[i] == s && sym_covers(s, value.0) && forall|j: int|
                    0 <= j < i ==> !sym_covers(#[trigger] syms@[j], value.0),
            None => forall|i: int| 0 <= i < syms@.len() ==> !sym_covers(#[trigger] syms@[i], value.0),
        },
{
    let mut i: usize = 0;
    while i < syms.len()
        invariant
            0 <= i <= syms@.len(),
            forall|j: int| 0 <= j < i ==> !sym_covers(#[trigger] syms@[j], value.0),
            forall|k: int| 0 <= k < syms@.len() ==> (#[trigger] syms@[k]).value.0 + syms@[k].size <= usize::MAX,
        decreases syms@.len() - i,
    {
        let sym = syms[i];
        if sym.value.0 <= value.0 && sym.value.0 + sym.size as usize >= value.0 {
            assert(syms@[i as int] == sym);
            return Some(sym);
        }
        i = i + 1;
    }
    None
}

/// An ELF file whose header was checked.
#[derive(Clone, Copy, Debug)]
pub struct Elf {
    pub header: ElfHeader,
}

/// Opening the file that starts with `b`: `NotAnElf` when it has no valid
/// header, the reason this kernel cannot run it, or its header.
pub open spec fn elf_new_spec(b: Seq<u8>, r: Result<Elf, ElfError>) -> bool {
    if b.len() < ELF_HEADER_SIZE {
        r == Err::<Elf, ElfError>(ElfError::NotAnElf)
    } else {
        match r {
            Ok(e) => header_of(e.header, b) && verify_spec(e.header) && supported_spec(e.header) is Ok,
            Err(err) => exists|h: ElfHeader|
                header_of(h, b) && if !verify_spec(h) {
                    err == ElfError::NotAnElf
                } else {
                    supported_spec(h) == Err::<(), ElfError>(err)
                },
        }
    }
}

/// Whether a file starting with `b` has program and section headers of the
/// sizes this kernel reads; the kernel refuses to go on otherwise.
pub open spec fn entry_sizes_ok(b: Seq<u8>) -> bool {
    b.len() >= ELF_HEADER_SIZE ==> le_uint(b, 58, 2) == SECTION_HEADER_SIZE && le_uint(b, 54, 2) == PROGRAM_HEADER_SIZE
}

impl Elf {
    /// Opens the ELF file that starts with `header_bytes`.
    pub fn new(header_bytes: &[u8]) -> (r: Result<Elf, ElfError>)
        requires
            entry_sizes_ok(header_bytes@),
        ensures
            elf_new_spec(header_bytes@, r),
    {
        let header = match ElfHeader::from_bytes(header_bytes) {
            Some(h) => h,
            None => return Err(ElfError::NotAnElf),
        };
        if !header.verify() {
            return Err(ElfError::NotAnElf);
        }
        match header.supported() {
            Ok(()) => {},
            Err(e) => return Err(e),
        }
        Ok(Elf { header })
    }

    /// The header.
    pub fn header(&self) -> (r: &ElfHeader)
        ensures
            *r == self.header,
    {
        &self.header
    }

    /// Where in the file the program header `n` starts, or `None` past the last.
    pub fn get_program_offset(&self, n: usize) -> (r: Option<usize>)
        requires
            self.header.program_headers_table_offset + n * self.header.program_headers_table_entry_size <= usize::MAX,
        ensures
            n >= self.header.program_headers_table_entries_number ==> r is None,
            n < self.header.program_headers_table_entries_number ==> r == Some(
                (self.header.program_headers_table_offset + n * self.header.program_headers_table_entry_size) as usize,
            ),
    {
        if n >= self.header.program_headers_table_entries_number as usize {
            return None;
        }
        let size = self.header.program_headers_table_entry_size as usize;
        assert(n * size <= usize::MAX) by (nonlinear_arith)
            requires
                self.header.program_headers_table_offset + n * size <= usize::MAX,
        ;
        Some(self.header.program_headers_table_offset + n * size)
    }

    /// Where in the file the section header `n` starts, or `None` past the last.
    pub fn get_section_offset(&self, n: usize) -> (r: Option<usize>)
        requires
            self.header.section_header_table_offset + n * self.header.section_table_entry_size <= usize::MAX,
        ensures
            n >= self.header.section_table_entries ==> r is None,
            n < self.header.section_table_entries ==> r == Some(
                (self.header.section_header_table_offset + n * self.header.section_table_entry_size) as usize,
            ),
    {
        if n >= self.header.section_table_entries as usize {
            return None;
        }
        let size = self.header.section_table_entry_size as usize;
        assert(n * size <= usize::MAX) by (nonlinear_arith)
            requires
                self.header.section_header_table_offset + n * size <= usize::MAX,
        ;
        Some(self.header.section_header_table_offset + n * size)
    }
}

/// The master TLS image of an executable.
#[derive(Clone, Copy, Debug, PartialEq, Eq, Structural)]
pub struct TLSInfo {
    pub addr: VirtAddr,
    pub memsize: usize,
    pub filesize: usize,
    pub alignment: usize,
}

/// Where the program headers of a loaded executable are.
#[derive(Clone, Copy, Debug, PartialEq, Eq, Structural)]
pub struct ProgramHeaderInfo {
    pub addr: VirtAddr,
    pub ent_size: usize,
    pub ent_count: usize,
}

/// What loading an executable found: its entry point, the end of its image
/// (where the program break starts), its master TLS, where its program headers
/// are, and the file range of its interpreter's path.
#[derive(Clone, Copy, Debug)]
pub struct ElfInfo {
    pub entry: VirtAddr,
    pub elf_end: VirtAddr,
    pub master_tls: Option<TLSInfo>,
    pub program_header: Option<ProgramHeaderInfo>,
    pub program_interp: Option<(usize, usize)>,
}

/// A part of the file to copy into memory: its offset, its size, and where
/// it goes; the copy stops early at the end of the file.
#[derive(Clone, Copy, Debug, PartialEq, Eq, Structural)]
pub struct Segment {
    pub offset: usize,
    pub size: usize,
    pub dest: VirtAddr,
}

/// The state of a load: the program break, the master TLS, the program
/// headers' place, the interpreter's file range, and the segments to copy.
pub type LoadAcc = (int, Option<TLSInfo>, Option<ProgramHeaderInfo>, Option<(usize, usize)>, Seq<Segment>);

/// Whether the loader handles program headers of type `t`.
pub open spec fn loaded_type(t: u32) -> bool {
    t == ProgramType::LOAD || t == ProgramType::TLS || t == ProgramType::PHDR || t == ProgramType::INTERP
}

/// The flags of the memory of a segment with program flags `f`: user-
/// accessible and zeroed, writable and executable as the segment asks.
pub open spec fn segment_flags(f: u32) -> VMMMFlags {
    let base: u8 = VMMMFlags::USER_ACCESSIBLE | VMMMFlags::ZEROED;
    let w: u8 = if f & ProgramFlags::WRITE == ProgramFlags::WRITE { base | VMMMFlags::WRITEABLE } else { base };
    VMMMFlags(if f & ProgramFlags::EXEC == ProgramFlags::EXEC { w | VMMMFlags::EXECUTABLE } else { w })
}

/// Whether every loaded header of `hs`, placed at `load_at`, fits in the
/// address space with room to round up to a page, and has an alignment that
/// rounds up to 8.
pub open spec fn headers_fit(hs: Seq<ProgramHeader>, load_at: int) -> bool {
    forall|i: int|
        0 <= i < hs.len() ==> (#[trigger] hs[i]).vaddr.0 + load_at + hs[i].memz + PAGE_SIZE <= usize::MAX
            && hs[i].align + 7 <= usize::MAX
}

/// Loading the headers of `hs` from `k` on at `load_at` into the regions
/// `s` of a manager of `[vstart, vstart + vsize)`, for an ELF with header
/// `eh`: each loaded header raises the program break to its end; an
/// interpreter header with a path records its file range; any other is
/// mapped over its pages, where a page already in use is kept, running out
/// of memory is a mapping error and a bad range is corruption; its file
/// bytes are to be copied, and a TLS or PHDR header is recorded.
pub open spec fn load_from(
    hs: Seq<ProgramHeader>,
    k: int,
    s: Seq<Region>,
    vstart: int,
    vsize: int,
    load_at: int,
    eh: ElfHeader,
    acc: LoadAcc,
) -> (Result<LoadAcc, ElfError>, Seq<Region>)
    decreases hs.len() - k,
{
    if k < 0 || k >= hs.len() {
        (Ok(acc), s)
    } else {
        let h = hs[k];
        if !loaded_type(h.ptype.0) {
            load_from(hs, k + 1, s, vstart, vsize, load_at, eh, acc)
        } else {
            let vaddr = h.vaddr.0 + load_at;
            let end = vaddr + h.memz;
            let brk = if end > acc.0 { end } else { acc.0 };
            if h.ptype.0 == ProgramType::INTERP {
                let interp = if h.filez == 0 { acc.3 } else { Some((h.offset, h.filez)) };
                load_from(hs, k + 1, s, vstart, vsize, load_at, eh, (brk, acc.1, acc.2, interp, acc.4))
            } else {
                let start = align_down_spec(vaddr, PAGE_SIZE as int);
                let size = align_up_spec(end, PAGE_SIZE as int) - start;
                let p = place_spec(
                    s,
                    vstart,
                    vsize,
                    Some(Location::Fixed(VirtAddr(start as usize))),
                    size,
                    ObjectState::Allocated(segment_flags(h.flags.0)),
                );
                match p.0 {
                    Err(VMMAllocError::OutOfMemory) => (Err(ElfError::MapToError), p.1),
                    Err(VMMAllocError::InvalidSize) | Err(VMMAllocError::OutOfRange) => (Err(ElfError::Corrupted), p.1),
                    _ => {
                        let seg = Segment { offset: h.offset, size: h.filez, dest: VirtAddr(vaddr as usize) };
                        let tls = if h.ptype.0 == ProgramType::TLS {
                            Some(
                                TLSInfo {
                                    addr: VirtAddr(vaddr as usize),
                                    memsize: h.memz,
                                    filesize: h.filez,
                                    alignment: align_up_spec(h.align as int, 8) as usize,
                                },
                            )
                        } else {
                            acc.1
                        };
                        let phdr = if h.ptype.0 == ProgramType::PHDR {
                            Some(
                                ProgramHeaderInfo {
                                    addr: VirtAddr(vaddr as usize),
                                    ent_size: eh.program_headers_table_entry_size as usize,
                                    ent_count: eh.program_headers_table_entries_number as usize,
                                },
                            )
                        } else {
                            acc.2
                        };
                        load_from(hs, k + 1, p.1, vstart, vsize, load_at, eh, (brk, tls, phdr, acc.3, acc.4.push(seg)))
                    },
                }
            }
        }
    }
}

/// Where an executable of type `kind` asked to load at `load_at` is loaded:
/// a shared object asked for address zero goes to the second page.
pub open spec fn effective_load_at(kind: u16, load_at: usize) -> usize {
    if kind == ElfType::DYN && load_at == 0 { 0x1000 } else { load_at }
}

impl Elf {
    /// Maps the executable's loaded program headers `programs` into `vmm` at
    /// `load_at` (see [`load_from`]). Returns what the load found and the
    /// segments to copy from the file; `NotAnExecutable` for a file that is
    /// neither an executable nor a shared object.
    #[verifier::rlimit(40)]
    pub fn load_exec(&self, vmm: &mut VirtualMemoryManager, load_at: VirtAddr, programs: &Vec<ProgramHeader>) -> (r:
        Result<(ElfInfo, Vec<Segment>), ElfError>)
        requires
            old(vmm).wf(),
            self.header.kind.0 == ElfType::EXE ==> load_at.0 == 0,
            headers_fit(programs@, effective_load_at(self.header.kind.0, load_at.0) as int),
        ensures
            final(vmm).wf(),
            self.header.kind.0 != ElfType::EXE && self.header.kind.0 != ElfType::DYN ==> r
                == Err::<(ElfInfo, Vec<Segment>), ElfError>(ElfError::NotAnExecutable) && final(vmm).regions()
                == old(vmm).regions(),
            self.header.kind.0 == ElfType::EXE || self.header.kind.0 == ElfType::DYN ==> ({
                let l = load_from(
                    programs@,
                    0,
                    old(vmm).regions(),
                    old(vmm).inner.start_addr.0 as int,
                    old(vmm).inner.size as int,
                    effective_load_at(self.header.kind.0, load_at.0) as int,
                    self.header,
                    (0, None, None, None, Seq::empty()),
                );
                &&& final(vmm).regions() == l.1
                &&& match (r, l.0) {
                    (Ok((info, segs)), Ok(acc)) => info.entry == self.header.entry_point && info.elf_end.0 == acc.0
                        && info.master_tls == acc.1 && info.program_header == acc.2 && info.program_interp == acc.3
                        && segs@ == acc.4,
                    (Err(e), Err(e2)) => e == e2,
                    _ => false,
                }
            }),
    {
        let kind = self.header.kind.0;
        if kind != ElfType::EXE && kind != ElfType::DYN {
            return Err(ElfError::NotAnExecutable);
        }
        let base: usize = if kind == ElfType::DYN && load_at.0 == 0 {
            0x1000
        } else {
            load_at.0
        };
        let ghost vstart = vmm.inner.start_addr.0 as int;
        let ghost vsize = vmm.inner.size as int;
        let ghost target = load_from(programs@, 0, vmm.regions(), vstart, vsize, base as int, self.header,
            (0, None, None, None, Seq::empty()));
        let mut program_break: usize = 0;
        let mut master_tls: Option<TLSInfo> = None;
        let mut phdr: Option<ProgramHeaderInfo> = None;
        let mut interp: Option<(usize, usize)> = None;
        let mut segments: Vec<Segment> = Vec::new();
        let mut k: usize = 0;
        while k < programs.len()
            invariant
                0 <= k <= programs@.len(),
                vmm.wf(),
                kind == self.header.kind.0,
                kind == ElfType::EXE || kind == ElfType::DYN,
                base == effective_load_at(kind, load_at.0),
                vstart == old(vmm).inner.start_addr.0,
                vsize == old(vmm).inner.size,
                target == load_from(programs@, 0, old(vmm).regions(), vstart, vsize, base as int, self.header,
                    (0, None, None, None, Seq::empty())),
                vmm.inner.start_addr.0 == vstart,
                vmm.inner.size == vsize,
                headers_fit(programs@, base as int),
                load_from(programs@, k as int, vmm.regions(), vstart, vsize, base as int, self.header,
                    (program_break as int, master_tls, phdr, interp, segments@)) == target,
            decreases programs@.len() - k,
        {
            let h = programs[k];
            let t = h.ptype.0;
            if t == ProgramType::LOAD || t == ProgramType::TLS || t == ProgramType::PHDR || t == ProgramType::INTERP {
                assert(programs@[k as int] == h);
                let vaddr = h.vaddr.0 + base;
                let end = vaddr + h.memz;
                if end > program_break {
                    program_break = end;
                }
                if t == ProgramType::INTERP {
                    if h.filez != 0 {
                        interp = Some((h.offset, h.filez));
                    }
                } else {
                    let start = to_previous_page(vaddr);
                    let map_end = to_next_page(end);
                    let size = map_end - start;
                    let mut bits: u8 = VMMMFlags::USER_ACCESSIBLE | VMMMFlags::ZEROED;
                    if h.flags.contains(ProgramFlags::WRITE) {
                        bits = bits | VMMMFlags::WRITEABLE;
                    }
                    if h.flags.contains(ProgramFlags::EXEC) {
                        bits = bits | VMMMFlags::EXECUTABLE;
                    }
                    let alloc_flags = VMMMFlags(bits);
                    assert(alloc_flags == segment_flags(h.flags.0));
                    proof {
                        assert(size % PAGE_SIZE == 0);
                    }
                    match vmm.map_new("elf.load", Some(Location::Fixed(VirtAddr(start))), size, alloc_flags,
                        VMMAllocMode::Normal) {
                        Ok(_) => {},
                        Err(VMMAllocError::Used) => {},
                        Err(VMMAllocError::OutOfMemory) => return Err(ElfError::MapToError),
                        Err(_) => return Err(ElfError::Corrupted),
                    }
                    segments.push(Segment { offset: h.offset, size: h.filez, dest: VirtAddr(vaddr) });
                    if t == ProgramType::TLS {
                        let alignment = h.align + (8 - h.align % 8) % 8;
                        assert(alignment == align_up_spec(h.align as int, 8)) by (nonlinear_arith)
                            requires
                                alignment == h.align + (8 - h.align % 8) % 8,
                        ;
                        master_tls = Some(TLSInfo { addr: VirtAddr(vaddr), memsize: h.memz, filesize: h.filez, alignment });
                    }
                    if t == ProgramType::PHDR {
                        phdr = Some(ProgramHeaderInfo {
                            addr: VirtAddr(vaddr),
                            ent_size: self.header.program_headers_table_entry_size as usize,
                            ent_count: self.header.program_headers_table_entries_number as usize,
                        });
                    }
                }
            }
            k = k + 1;
        }
        Ok((ElfInfo {
            entry: self.header.entry_point,
            elf_end: VirtAddr(program_break),
            master_tls,
            program_header: phdr,
            program_interp: interp,
        }, segments))
    }
}


/// The memory of a loaded segment is always user-accessible and zeroed; it
/// is writable exactly when the program header asks for writing (`PF_W`,
/// bit 1) and executable exactly when it asks for execution (`PF_X`, bit 0),
/// and it is never uncached.
pub proof fn law_segment_permissions(f: u32)
    ensures
        ({
            let m = segment_flags(f).0;
            &&& m & VMMMFlags::USER_ACCESSIBLE == VMMMFlags::USER_ACCESSIBLE
            &&& m & VMMMFlags::ZEROED == VMMMFlags::ZEROED
            &&& (m & VMMMFlags::WRITEABLE == VMMMFlags::WRITEABLE) == (f & 2u32 == 2u32)
            &&& (m & VMMMFlags::EXECUTABLE == VMMMFlags::EXECUTABLE) == (f & 1u32 == 1u32)
            &&& m & VMMMFlags::UNCACHABLE == 0
            &&& m & VMMMFlags::FRAMEBUFFER_CACHED == 0
        }),
{
    let m = segment_flags(f).0;
    let w = f & 2u32 == 2u32;
    let x = f & 1u32 == 1u32;
    assert(m == (if x { (if w { 4u8 | 32u8 | 1u8 } else { 4u8 | 32u8 }) | 2u8 } else { if w { 4u8 | 32u8 | 1u8 }
        else { 4u8 | 32u8 } }));
    assert(m & 4 == 4 && m & 32 == 32 && (m & 1 == 1) == w && (m & 2 == 2) == x && m & 8 == 0 && m & 16 == 0) by (
    bit_vector)
        requires
            m == (if x { (if w { 4u8 | 32u8 | 1u8 } else { 4u8 | 32u8 }) | 2u8 } else { if w { 4u8 | 32u8 | 1u8 } else {
                4u8 | 32u8
            } }),
    ;
}
} // verus!
