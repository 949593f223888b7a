// Layout of an x86-64 page table entry (any level):
//                                                                 Present ──────┐
//                                                             Read/Write ──────┐|
//                                                       User/Supervisor ──────┐||
//                                                   Page Write Through ──────┐|||
//                                                Page Cache Disabled ──────┐ ||||
//                                                          Accessed ──────┐| ||||
//                                                            Dirty ──────┐|| ||||
//                                                       Huge Page ──────┐||| ||||
//                                                          Global ────┐ |||| ||||
// ┌─ NX                                                  Ignored ──┬┬┐| |||| ||||
// |┌───────────┐ ┌───────────────────────────────────────────────┐ |||| |||| ||||
// ||  Ignored  | |                Physical Address               | |||| |||| ||||
// 0000 0000 0000 0000 0000 0000 0000 0001 0010 0011 1111 1100 1010 0000 0110 0111
//        56        48        40        32        24        16         8         0
use crate::memory::addr::PhysicalAddress;
use crate::memory::page_table::PageTableLevel;
use vstd::prelude::*;

verus! {

/// Mask of the frame address of a 4 KiB page or of a page table (bits 12 to 51).
pub const PFN_4KIB_MASK: u64 = 0x000F_FFFF_FFFF_F000;

/// Mask of the frame address of a 2 MiB page (bits 21 to 51).
pub const PFN_2MIB_MASK: u64 = 0x000F_FFFF_FFE0_0000;

/// Mask of the frame address of a 1 GiB page (bits 30 to 51).
pub const PFN_1GIB_MASK: u64 = 0x000F_FFFF_C000_0000;

/// Mask of the 40 bits of a 4 KiB based frame number.
pub const PFN_MASK: u64 = 0x0000_00FF_FFFF_FFFF;

/// Bit `n` of `v` is set.
pub open spec fn bit_set(v: u64, n: u64) -> bool {
    (v >> n) & 1 != 0
}

/// The bits of the entry built from a frame number and flags.
pub open spec fn spec_entry_bits(pfn: u64, flags: u64) -> u64 {
    ((pfn & PFN_MASK) << 12) | flags
}

/// The physical address that an entry with bits `v` names at the given level: the frame
/// of the next table, or of the mapped page where the huge-page bit makes it a 2 MiB
/// (level 2) or 1 GiB (level 3) page.
pub open spec fn spec_entry_address(v: u64, level: PageTableLevel) -> u64 {
    match level {
        PageTableLevel::Level1 => v & PFN_4KIB_MASK,
        PageTableLevel::Level2 => if bit_set(v, 7) {
            v & PFN_2MIB_MASK
        } else {
            v & PFN_4KIB_MASK
        },
        PageTableLevel::Level3 => if bit_set(v, 7) {
            v & PFN_1GIB_MASK
        } else {
            v & PFN_4KIB_MASK
        },
        PageTableLevel::Level4 => v & PFN_4KIB_MASK,
    }
}

#[derive(Debug, Clone, Copy)]
pub struct PageTableEntry {
    value: u64,
}

impl View for PageTableEntry {
    type V = u64;

    closed spec fn view(&self) -> u64 {
        self.value
    }
}

impl PageTableEntry {
    /// `pfn` is the 4 KiB based frame number (`physical_address >> 12`); a 52-bit
    /// physical address limit keeps its lower 40 bits.
    pub fn new(pfn: u64, flags: u64) -> (r: PageTableEntry)
        ensures
            r@ == spec_entry_bits(pfn, flags),
    {
        let pfn_mask: u64 = 0x0000_00FF_FFFF_FFFF;
        PageTableEntry { value: (pfn & pfn_mask) << 12 | flags }
    }

    /// The entry whose 64 bits are all zero.
    pub closed spec fn spec_zero() -> PageTableEntry {
        PageTableEntry { value: 0 }
    }

    /// The entry whose bits are `v`.
    pub closed spec fn spec_from_bits(v: u64) -> PageTableEntry {
        PageTableEntry { value: v }
    }

    /// An entry is the one of its bits.
    pub proof fn lemma_spec_from_bits(v: u64)
        ensures
            Self::spec_from_bits(v)@ == v,
            forall|e: PageTableEntry| #[trigger] e@ == v ==> e == Self::spec_from_bits(v),
    {
    }

    /// The zero entry is the only one whose bits are zero.
    pub proof fn lemma_spec_zero()
        ensures
            Self::spec_zero()@ == 0,
            forall|e: PageTableEntry| #[trigger] e@ == 0 ==> e == Self::spec_zero(),
    {
    }

    /// The entry with the bits `bits`, as it is read from a page table in memory.
    pub fn from_bits(bits: u64) -> (r: PageTableEntry)
        ensures
            r@ == bits,
    {
        PageTableEntry { value: bits }
    }

    /// The entry's bits, as they are written to a page table in memory.
    pub fn bits(&self) -> (r: u64)
        ensures
            r == self@,
    {
        self.value
    }

    pub fn zero() -> (r: PageTableEntry)
        ensures
            r@ == 0,
            r == Self::spec_zero(),
    {
        PageTableEntry { value: 0 }
    }

    pub fn as_physical_address(&self, page_table_level: PageTableLevel) -> (r: PhysicalAddress)
        ensures
            r.addr == spec_entry_address(self@, page_table_level),
    {
        let addr = match page_table_level {
            PageTableLevel::Level1 => self.value & PFN_4KIB_MASK,
            PageTableLevel::Level2 => {
                let mask = if self.is_huge() {
                    PFN_2MIB_MASK
                } else {
                    PFN_4KIB_MASK
                };
                self.value & mask
            },
            PageTableLevel::Level3 => {
                let mask = if self.is_huge() {
                    PFN_1GIB_MASK
                } else {
                    PFN_4KIB_MASK
                };
                self.value & mask
            },
            PageTableLevel::Level4 => self.value & PFN_4KIB_MASK,
        };
        PhysicalAddress::new(addr)
    }

    pub fn is_present(&self) -> (r: bool)
        ensures
            r == bit_set(self@, 0),
    {
        let v = self.value;
        assert(((v >> 0u64) & 1) == (v & 1)) by (bit_vector);
        (v & 1) != 0
    }

    pub fn is_writable(&self) -> (r: bool)
        ensures
            r == bit_set(self@, 1),
    {
        ((self.value >> 1) & 1) != 0
    }

    pub fn is_user_accessible(&self) -> (r: bool)
        ensures
            r == bit_set(self@, 2),
    {
        ((self.value >> 2) & 1) != 0
    }

    pub fn is_write_through(&self) -> (r: bool)
        ensures
            r == bit_set(self@, 3),
    {
        ((self.value >> 3) & 1) != 0
    }

    pub fn is_cache_disabled(&self) -> (r: bool)
        ensures
            r == bit_set(self@, 4),
    {
        ((self.value >> 4) & 1) != 0
    }

    pub fn is_accessed(&self) -> (r: bool)
        ensures
            r == bit_set(self@, 5),
    {
        ((self.value >> 5) & 1) != 0
    }

    pub fn is_dirty(&self) -> (r: bool)
        ensures
            r == bit_set(self@, 6),
    {
        ((self.value >> 6) & 1) != 0
    }

    pub fn is_huge(&self) -> (r: bool)
        ensures
            r == bit_set(self@, 7),
    {
        ((self.value >> 7) & 1) != 0
    }

    pub fn is_global(&self) -> (r: bool)
        ensures
            r == bit_set(self@, 8),
    {
        ((self.value >> 8) & 1) != 0
    }

    pub fn is_nx(&self) -> (r: bool)
        ensures
            r == bit_set(self@, 63),
    {
        ((self.value >> 63) & 1) != 0
    }

    pub fn is_unused(&self) -> (r: bool)
        ensures
            r == (self@ == 0),
    {
        self.value == 0
    }
}

/// Flags of a page table entry.
#[derive(Debug, Clone, Copy, PartialEq, Eq)]
pub enum PTFlags {
    Present,
    Write,
    UserAccess,
    WriteThrough,
    DisableCache,
    HugePage,
    Global,
    NoExecute,
}

impl PTFlags {
    /// The entry bit of the flag.
    pub open spec fn spec_bit(self) -> u64 {
        match self {
            PTFlags::Present => 0,
            PTFlags::Write => 1,
            PTFlags::UserAccess => 2,
            PTFlags::WriteThrough => 3,
            PTFlags::DisableCache => 4,
            PTFlags::HugePage => 7,
            PTFlags::Global => 8,
            PTFlags::NoExecute => 63,
        }
    }

    /// The flag's value in an entry: one bit set.
    pub open spec fn spec_value(self) -> u64 {
        (1u64 << self.spec_bit()) as u64
    }

    pub fn value(self) -> (r: u64)
        ensures
            r == self.spec_value(),
    {
        match self {
            PTFlags::Present => {
                assert(1u64 << 0u64 == 1) by (bit_vector);
                1
            },
            PTFlags::Write => 1 << 1,
            PTFlags::UserAccess => 1 << 2,
            PTFlags::WriteThrough => 1 << 3,
            PTFlags::DisableCache => 1 << 4,
            PTFlags::HugePage => 1 << 7,
            PTFlags::Global => 1 << 8,
            PTFlags::NoExecute => 1u64 << 63,
        }
    }
}

impl core::ops::BitOr for PTFlags {
    type Output = u64;

    fn bitor(self, rhs: Self) -> (r: u64)
        ensures
            r == self.spec_value() | rhs.spec_value(),
    {
        self.value() | rhs.value()
    }
}

impl vstd::std_specs::ops::BitOrSpecImpl for PTFlags {
    open spec fn obeys_bitor_spec() -> bool {
        true
    }

    open spec fn bitor_req(self, rhs: PTFlags) -> bool {
        true
    }

    open spec fn bitor_spec(self, rhs: PTFlags) -> u64 {
        self.spec_value() | rhs.spec_value()
    }
}

/// An entry built from a frame number below `2^40` and flags that leave the address bits
/// alone names that frame at every level where it is not a huge page, and carries
/// exactly the given flag bits.
pub proof fn lemma_new_entry_fields(pfn: u64, flags: u64)
    requires
        pfn < 0x100_0000_0000,
        flags & PFN_4KIB_MASK == 0,
    ensures
        spec_entry_bits(pfn, flags) & PFN_4KIB_MASK == pfn * 0x1000,
        forall|n: u64| n < 12 ==> (#[trigger] bit_set(spec_entry_bits(pfn, flags), n)) == bit_set(flags, n),
        bit_set(spec_entry_bits(pfn, flags), 63) == bit_set(flags, 63),
        spec_entry_bits(pfn, flags) == 0 <==> (pfn == 0 && flags == 0),
{
    let e = spec_entry_bits(pfn, flags);
    assert(((pfn & 0x0000_00FF_FFFF_FFFFu64) << 12u64 | flags) & 0x000F_FFFF_FFFF_F000u64 == pfn * 0x1000) by (bit_vector)
        requires
            pfn < 0x100_0000_0000u64,
            flags & 0x000F_FFFF_FFFF_F000u64 == 0,
    ;
    assert forall|n: u64| n < 12 implies (#[trigger] bit_set(e, n)) == bit_set(flags, n) by {
        assert((((pfn & 0x0000_00FF_FFFF_FFFFu64) << 12u64 | flags) >> n) & 1 == (flags >> n) & 1) by (bit_vector)
            requires
                n < 12,
        ;
    }
    assert((((pfn & 0x0000_00FF_FFFF_FFFFu64) << 12u64 | flags) >> 63u64) & 1 == (flags >> 63u64) & 1) by (bit_vector)
        requires
            flags & 0x000F_FFFF_FFFF_F000u64 == 0,
    ;
    assert((((pfn & 0x0000_00FF_FFFF_FFFFu64) << 12u64 | flags) == 0) <==> (pfn == 0 && flags == 0)) by (bit_vector)
        requires
            pfn < 0x100_0000_0000u64,
    ;
}

} // verus!
