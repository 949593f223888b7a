use crate::memory::page_table::PageSize;
use vstd::prelude::*;

verus! {

/// A virtual address.
///
/// x86-64 virtual address breakdown for 4-level paging:
///
///  64               48         39          30          21          12              0
///  |------------------| --------- | --------- | --------- | --------- | ------------ |
///  | Sign Extension   |  L4 index |  L3 index | L2 index  | L1 index  | Offset       |
#[derive(Debug, Clone, Copy)]
pub struct VirtualAddress {
    pub addr: u64,
}

/// The 9-bit index that selects the entry of the level `level` (1 to 4) page table
/// for the address `addr`.
pub open spec fn spec_level_index(addr: u64, level: nat) -> u64 {
    ((addr as nat / pow2_nat(12 + 9 * (level - 1) as nat)) % 512) as u64
}

/// `2` to the power `n`.
pub open spec fn pow2_nat(n: nat) -> nat
    decreases n,
{
    if n == 0 {
        1
    } else {
        2 * pow2_nat((n - 1) as nat)
    }
}

/// The offset of `addr` inside the page of the given size that contains it.
pub open spec fn spec_page_offset(addr: u64, size: PageSize) -> u64 {
    match size {
        PageSize::FourKiB => addr % 0x1000,
        PageSize::TwoMiB => addr % 0x20_0000,
        PageSize::OneGiB => addr % 0x4000_0000,
    }
}

proof fn lemma_pow2_values()
    ensures
        pow2_nat(12) == 0x1000,
        pow2_nat(21) == 0x20_0000,
        pow2_nat(30) == 0x4000_0000,
        pow2_nat(39) == 0x80_0000_0000,
{
    reveal_with_fuel(pow2_nat, 40);
}

impl VirtualAddress {
    pub fn new(addr: u64) -> (r: Self)
        ensures
            r.addr == addr,
    {
        VirtualAddress { addr }
    }

    pub fn as_u64(&self) -> (r: u64)
        ensures
            r == self.addr,
    {
        self.addr
    }

    /// The address zero.
    pub fn null() -> (r: Self)
        ensures
            r.addr == 0,
    {
        VirtualAddress { addr: 0 }
    }

    pub fn get_lvl_4_index(&self) -> (r: u64)
        ensures
            r == spec_level_index(self.addr, 4),
            r < 512,
    {
        proof {
            lemma_pow2_values();
        }
        let a = self.addr;
        assert((a >> 39u64) & 0o777 == (a / 0x80_0000_0000) % 512) by (bit_vector);
        (a >> 39) & 0o777
    }

    pub fn get_lvl_3_index(&self) -> (r: u64)
        ensures
            r == spec_level_index(self.addr, 3),
            r < 512,
    {
        proof {
            lemma_pow2_values();
        }
        let a = self.addr;
        assert((a >> 30u64) & 0o777 == (a / 0x4000_0000) % 512) by (bit_vector);
        (a >> 30) & 0o777
    }

    pub fn get_lvl_2_index(&self) -> (r: u64)
        ensures
            r == spec_level_index(self.addr, 2),
            r < 512,
    {
        proof {
            lemma_pow2_values();
        }
        let a = self.addr;
        assert((a >> 21u64) & 0o777 == (a / 0x20_0000) % 512) by (bit_vector);
        (a >> 21) & 0o777
    }

    pub fn get_lvl_1_index(&self) -> (r: u64)
        ensures
            r == spec_level_index(self.addr, 1),
            r < 512,
    {
        proof {
            lemma_pow2_values();
        }
        let a = self.addr;
        assert((a >> 12u64) & 0o777 == (a / 0x1000) % 512) by (bit_vector);
        (a >> 12) & 0o777
    }

    pub fn get_offset(&self, offset_type: PageSize) -> (r: u64)
        ensures
            r == spec_page_offset(self.addr, offset_type),
    {
        let a = self.addr;
        match offset_type {
            PageSize::FourKiB => {
                assert(a & 0o7777 == a % 0x1000) by (bit_vector);
                a & 0o7777
            },
            PageSize::TwoMiB => {
                assert(a & 0o7777777 == a % 0x20_0000) by (bit_vector);
                a & 0o7777777
            },
            PageSize::OneGiB => {
                assert(a & 0o7777777777 == a % 0x4000_0000) by (bit_vector);
                a & 0o7777777777
            },
        }
    }
}

/// The four table indexes and the 4 KiB page offset of a canonical lower-half address
/// give the address back: `addr = l4·2^39 + l3·2^30 + l2·2^21 + l1·2^12 + offset`.
pub proof fn lemma_vaddr_decomposition(addr: u64)
    requires
        addr < 0x1_0000_0000_0000,
    ensures
        addr == spec_level_index(addr, 4) * 0x80_0000_0000 + spec_level_index(addr, 3)
            * 0x4000_0000 + spec_level_index(addr, 2) * 0x20_0000 + spec_level_index(addr, 1)
            * 0x1000 + spec_page_offset(addr, PageSize::FourKiB),
        spec_level_index(addr, 4) < 512,
        spec_level_index(addr, 3) < 512,
        spec_level_index(addr, 2) < 512,
        spec_level_index(addr, 1) < 512,
{
    lemma_pow2_values();
    let l4 = (addr / 0x80_0000_0000) % 512;
    let l3 = (addr / 0x4000_0000) % 512;
    let l2 = (addr / 0x20_0000) % 512;
    let l1 = (addr / 0x1000) % 512;
    let off = addr % 0x1000;
    assert(addr == l4 * 0x80_0000_0000 + l3 * 0x4000_0000 + l2 * 0x20_0000 + l1 * 0x1000 + off)
        by (bit_vector)
        requires
            addr < 0x1_0000_0000_0000u64,
            l4 == (addr / 0x80_0000_0000) % 512,
            l3 == (addr / 0x4000_0000) % 512,
            l2 == (addr / 0x20_0000) % 512,
            l1 == (addr / 0x1000) % 512,
            off == addr % 0x1000,
    ;
}

/// Shifting out the lower bits and masking 9 bits gives the level index.
pub proof fn lemma_index_bits(a: u64)
    ensures
        (a >> 39u64) & 0o777 == spec_level_index(a, 4),
        (a >> 30u64) & 0o777 == spec_level_index(a, 3),
        (a >> 21u64) & 0o777 == spec_level_index(a, 2),
        (a >> 12u64) & 0o777 == spec_level_index(a, 1),
{
    lemma_pow2_values();
    assert((a >> 39u64) & 0o777 == (a / 0x80_0000_0000) % 512) by (bit_vector);
    assert((a >> 30u64) & 0o777 == (a / 0x4000_0000) % 512) by (bit_vector);
    assert((a >> 21u64) & 0o777 == (a / 0x20_0000) % 512) by (bit_vector);
    assert((a >> 12u64) & 0o777 == (a / 0x1000) % 512) by (bit_vector);
}

impl core::ops::Add<u64> for VirtualAddress {
    type Output = Self;

    fn add(self, other: u64) -> (r: Self)
        ensures
            r.addr == self.addr + other,
    {
        VirtualAddress { addr: self.addr + other }
    }
}

impl vstd::std_specs::ops::AddSpecImpl<u64> for VirtualAddress {
    open spec fn obeys_add_spec() -> bool {
        true
    }

    open spec fn add_req(self, rhs: u64) -> bool {
        self.addr + rhs <= u64::MAX
    }

    open spec fn add_spec(self, rhs: u64) -> Self {
        VirtualAddress { addr: (self.addr + rhs) as u64 }
    }
}

/// A virtual address whose translation changed and must be flushed from the TLB.
#[derive(Debug, Clone, Copy)]
pub struct FlusherVirtualAddress {
    pub vaddr: VirtualAddress,
}

impl FlusherVirtualAddress {
    pub fn new(vaddr: VirtualAddress) -> (r: Self)
        ensures
            r.vaddr == vaddr,
    {
        FlusherVirtualAddress { vaddr }
    }
}

} // verus!
