use crate::memory::addr::spec_level_index;
use vstd::prelude::*;

verus! {

/// The sign extension of a higher-half address: bits 48 to 63 set.
pub const SIGN_EXTENSION: u64 = 0xFFFF_0000_0000_0000;

/// Index of the level 4 entry that maps the level 4 table itself.
pub const RECURSIVE_INDEX: u64 = 0o777;

/// The virtual addresses of the four page tables that map an address, under recursive
/// paging.
#[derive(Debug, Clone, Copy)]
pub struct PageTableAddrs {
    pub level_4: u64,
    pub level_3: u64,
    pub level_2: u64,
    pub level_1: u64,
}

/// The address that the four table indexes `i4, i3, i2, i1` select, in the higher half.
pub open spec fn table_addr(i4: u64, i3: u64, i2: u64, i1: u64) -> u64 {
    (SIGN_EXTENSION + i4 * 0x80_0000_0000 + i3 * 0x4000_0000 + i2 * 0x20_0000 + i1 * 0x1000) as u64
}

/// Under recursive paging, with the last entry of the level 4 table mapping that table,
/// gets the virtual addresses through which the four page tables that map `vaddr` are
/// reached: each takes the recursive entry once more, and the table indexes of `vaddr`
/// shift down by one level.
pub fn get_page_table_vaddr(vaddr: usize) -> (r: PageTableAddrs)
    ensures
        ({
            let v = vaddr as u64;
            let r4 = RECURSIVE_INDEX;
            &&& r.level_4 == table_addr(r4, r4, r4, r4)
            &&& r.level_3 == table_addr(r4, r4, r4, spec_level_index(v, 4))
            &&& r.level_2 == table_addr(r4, r4, spec_level_index(v, 4), spec_level_index(v, 3))
            &&& r.level_1 == table_addr(
                r4,
                spec_level_index(v, 4),
                spec_level_index(v, 3),
                spec_level_index(v, 2),
            )
        }),
{
    let vaddr = vaddr as u64;
    let lvl_4_index = vaddr >> 39 & 0b111111111;
    let lvl_3_index = vaddr >> 30 & 0b111111111;
    let lvl_2_index = vaddr >> 21 & 0b111111111;
    let recursive_index: u64 = 0o777;
    let sign: u64 = 0xFFFF << 48;
    proof {
        crate::memory::addr::lemma_index_bits(vaddr);
        assert(sign == SIGN_EXTENSION) by (bit_vector)
            requires
                sign == 0xFFFFu64 << 48u64,
        ;
        assert(lvl_4_index < 512 && lvl_3_index < 512 && lvl_2_index < 512) by (bit_vector)
            requires
                lvl_4_index == vaddr >> 39u64 & 0b111111111,
                lvl_3_index == vaddr >> 30u64 & 0b111111111,
                lvl_2_index == vaddr >> 21u64 & 0b111111111,
        ;
        lemma_table_addr_bits(recursive_index, recursive_index, recursive_index, recursive_index);
        lemma_table_addr_bits(recursive_index, recursive_index, recursive_index, lvl_4_index);
        lemma_table_addr_bits(recursive_index, recursive_index, lvl_4_index, lvl_3_index);
        lemma_table_addr_bits(recursive_index, lvl_4_index, lvl_3_index, lvl_2_index);
    }
    let level_4 = sign | (recursive_index << 39) | (recursive_index << 30) | (recursive_index << 21)
        | (recursive_index << 12);
    let level_3 = sign | (recursive_index << 39) | (recursive_index << 30) | (recursive_index << 21)
        | lvl_4_index << 12;
    let level_2 = sign | (recursive_index << 39) | (recursive_index << 30) | lvl_4_index << 21
        | lvl_3_index << 12;
    let level_1 = sign | (recursive_index << 39) | (lvl_4_index << 30) | (lvl_3_index << 21) | (
    lvl_2_index << 12);
    PageTableAddrs { level_4, level_3, level_2, level_1 }
}

/// Or-ing the indexes, shifted into their fields, into the sign extension adds them.
proof fn lemma_table_addr_bits(i4: u64, i3: u64, i2: u64, i1: u64)
    requires
        i4 < 512,
        i3 < 512,
        i2 < 512,
        i1 < 512,
    ensures
        0xFFFF_0000_0000_0000u64 | (i4 << 39u64) | (i3 << 30u64) | (i2 << 21u64) | (i1 << 12u64)
            == table_addr(i4, i3, i2, i1),
{
    assert(0xFFFF_0000_0000_0000u64 | (i4 << 39u64) | (i3 << 30u64) | (i2 << 21u64) | (i1 << 12u64)
        == 0xFFFF_0000_0000_0000u64 + i4 * 0x80_0000_0000 + i3 * 0x4000_0000 + i2 * 0x20_0000 + i1
        * 0x1000) by (bit_vector)
        requires
            i4 < 512,
            i3 < 512,
            i2 < 512,
            i1 < 512,
    ;
}

} // verus!
