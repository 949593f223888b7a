use crate::memory::addr::{lemma_index_bits, spec_level_index, spec_page_offset, FlusherVirtualAddress};
use crate::memory::frame_allocator::BootInfoFrameAllocator;
use crate::memory::page_table::{
    bit_set, lemma_new_entry_fields, lemma_zero_table, spec_entry_address, spec_entry_bits,
    spec_zero_table, PageSize, PageTable, PageTableEntry, PageTableLevel, MAX_ENTRIES,
    PFN_4KIB_MASK,
};
use std::collections::HashMap;
use vstd::prelude::*;

pub mod addr;
pub mod frame_allocator;
pub mod heap_allocator;
pub mod page_table;
pub mod recursive_paging;
pub mod vaddr;

pub use addr::{PhysicalAddress, VirtualAddress};
pub use frame_allocator::{usable_frames, MemoryRegion};
pub use heap_allocator::{HEAP_LOG_SIZE, HEAP_SIZE, HEAP_START};
pub use page_table::PTFlags;

verus! {

broadcast use vstd::std_specs::hash::group_hash_axioms;

/// The page tables of physical memory, each at the virtual address at which the kernel
/// reads it: the bootloader maps all physical memory at `physical address + offset`.
pub struct PageTableMemory {
    tables: HashMap<u64, PageTable>,
}

impl View for PageTableMemory {
    type V = Map<u64, PageTable>;

    closed spec fn view(&self) -> Map<u64, PageTable> {
        self.tables@
    }
}

impl PageTableMemory {
    /// No page table.
    pub fn new() -> (r: Self)
        ensures
            r@ == Map::<u64, PageTable>::empty(),
    {
        PageTableMemory { tables: HashMap::new() }
    }

    /// Puts the table `table` at `vaddr`.
    pub fn write_table(&mut self, vaddr: u64, table: PageTable)
        ensures
            final(self)@ == old(self)@.insert(vaddr, table),
    {
        self.tables.insert(vaddr, table);
    }

    /// The table at `vaddr`.
    pub fn read_table(&self, vaddr: u64) -> (r: PageTable)
        requires
            self@.contains_key(vaddr),
        ensures
            r == self@[vaddr],
    {
        *self.tables.get(&vaddr).unwrap()
    }
}

/// The level numbered `n` (1 to 4).
pub open spec fn level_of(n: nat) -> PageTableLevel {
    PageTableLevel::spec_from_nat(n)
}

/// The entry that the table `t` of level `level` holds for `addr`.
pub open spec fn walk_entry(t: PageTable, level: nat, addr: u64) -> u64 {
    t.entry_bits(spec_level_index(addr, level) as int)
}

/// The walk stops at the table `t` of level `level`: level 1, an entry that is not
/// present, or a huge page entry at level 2 or 3.
pub open spec fn walk_stops(t: PageTable, level: nat, addr: u64) -> bool {
    let e = walk_entry(t, level, addr);
    level <= 1 || !bit_set(e, 0) || (level == 2 && bit_set(e, 7)) || (level == 3 && bit_set(e, 7))
}

/// The virtual address of the next table that the walk reads after `t`.
pub open spec fn walk_next(t: PageTable, level: nat, addr: u64, offset: u64) -> u64 {
    (spec_entry_address(walk_entry(t, level, addr), level_of(level)) + offset) as u64
}

/// Every table that the walk for `addr` reads from the table `t` of level `level` is
/// there, and no address computation overflows.
pub open spec fn walk_ok(tables: Map<u64, PageTable>, level: nat, t: PageTable, addr: u64, offset: u64) -> bool
    decreases level,
{
    &&& 1 <= level <= 4
    &&& t@.len() == MAX_ENTRIES
    &&& !walk_stops(t, level, addr) ==> {
        let pa = spec_entry_address(walk_entry(t, level, addr), level_of(level));
        &&& pa + offset <= u64::MAX
        &&& tables.contains_key(walk_next(t, level, addr, offset))
        &&& walk_ok(tables, (level - 1) as nat, tables[walk_next(t, level, addr, offset)], addr, offset)
    }
}

/// The physical address that the walk from the table `t` of level `level` gives for
/// `addr`: the frame of the level 1 entry, or of a 2 MiB (level 2) or 1 GiB (level 3)
/// huge page, with the offset inside the page; none where an entry on the way, the level
/// 1 entry included, is not present.
pub open spec fn spec_walk(tables: Map<u64, PageTable>, level: nat, t: PageTable, addr: u64, offset: u64) -> Option<u64>
    decreases level,
{
    let e = walk_entry(t, level, addr);
    let pa = spec_entry_address(e, level_of(level));
    if !bit_set(e, 0) {
        None
    } else if level <= 1 {
        Some(pa | spec_page_offset(addr, PageSize::FourKiB))
    } else if level == 2 && bit_set(e, 7) {
        Some(pa | spec_page_offset(addr, PageSize::TwoMiB))
    } else if level == 3 && bit_set(e, 7) {
        Some(pa | spec_page_offset(addr, PageSize::OneGiB))
    } else {
        spec_walk(tables, (level - 1) as nat, tables[walk_next(t, level, addr, offset)], addr, offset)
    }
}

/// A walk that meets an entry without the present bit gives no translation, at every
/// level: level 4 (index bits 39 to 47 of `addr`), 3 (bits 30 to 38), 2 (bits 21 to 29)
/// and 1 (bits 12 to 20).
pub proof fn lemma_walk_not_present(tables: Map<u64, PageTable>, level: nat, t: PageTable, addr: u64, offset: u64)
    requires
        1 <= level <= 4,
        !bit_set(t.entry_bits(((addr >> (12 + 9 * (level - 1)) as u64) & 0o777) as int), 0),
    ensures
        spec_walk(tables, level, t, addr, offset) is None,
{
    lemma_index_bits(addr);
}

/// The walk that reaches a level 1 table lands in a 4 KiB page where the table's entry for
/// `addr` (index bits 12 to 20) is present: the page's frame, bits 12 to 51 of the entry,
/// with the offset of `addr` inside the 4 KiB page.
pub proof fn lemma_walk_4kib_page(tables: Map<u64, PageTable>, t: PageTable, addr: u64, offset: u64)
    requires
        bit_set(t.entry_bits(((addr >> 12u64) & 0o777) as int), 0),
    ensures
        spec_walk(tables, 1, t, addr, offset) == Some(
            (t.entry_bits(((addr >> 12u64) & 0o777) as int) & 0x000F_FFFF_FFFF_F000u64) | (addr % 0x1000),
        ),
{
    lemma_index_bits(addr);
}

/// The walk that meets, in a level 2 table, a present entry for `addr` (index bits 21 to
/// 29) with the huge-page bit lands in that 2 MiB page: the page's frame, bits 21 to 51 of
/// the entry, with the offset of `addr` inside the 2 MiB page, its low 21 bits.
pub proof fn lemma_walk_2mib_page(tables: Map<u64, PageTable>, t: PageTable, addr: u64, offset: u64)
    requires
        bit_set(t.entry_bits(((addr >> 21u64) & 0o777) as int), 0),
        bit_set(t.entry_bits(((addr >> 21u64) & 0o777) as int), 7),
    ensures
        spec_walk(tables, 2, t, addr, offset) == Some(
            (t.entry_bits(((addr >> 21u64) & 0o777) as int) & 0x000F_FFFF_FFE0_0000u64) | (addr % 0x20_0000),
        ),
{
    lemma_index_bits(addr);
}

/// The walk that meets, in a level 3 table, a present entry for `addr` (index bits 30 to
/// 38) with the huge-page bit lands in that 1 GiB page: the page's frame, bits 30 to 51 of
/// the entry, with the offset of `addr` inside the 1 GiB page, its low 30 bits.
pub proof fn lemma_walk_1gib_page(tables: Map<u64, PageTable>, t: PageTable, addr: u64, offset: u64)
    requires
        bit_set(t.entry_bits(((addr >> 30u64) & 0o777) as int), 0),
        bit_set(t.entry_bits(((addr >> 30u64) & 0o777) as int), 7),
    ensures
        spec_walk(tables, 3, t, addr, offset) == Some(
            (t.entry_bits(((addr >> 30u64) & 0o777) as int) & 0x000F_FFFF_C000_0000u64) | (addr % 0x4000_0000),
        ),
{
    lemma_index_bits(addr);
}

/// A present entry of a level 4 table, or a present entry without the huge-page bit in a
/// level 3 or 2 table, leads the walk on to the next table: the one whose frame is bits 12
/// to 51 of the entry, read at that frame plus the offset.
pub proof fn lemma_walk_next_table(tables: Map<u64, PageTable>, level: nat, t: PageTable, addr: u64, offset: u64)
    requires
        2 <= level <= 4,
        ({
            let e = t.entry_bits(((addr >> (12 + 9 * (level - 1)) as u64) & 0o777) as int);
            &&& bit_set(e, 0)
            &&& level < 4 ==> !bit_set(e, 7)
        }),
    ensures
        ({
            let e = t.entry_bits(((addr >> (12 + 9 * (level - 1)) as u64) & 0o777) as int);
            spec_walk(tables, level, t, addr, offset) == spec_walk(
                tables,
                (level - 1) as nat,
                tables[((e & 0x000F_FFFF_FFFF_F000u64) + offset) as u64],
                addr,
                offset,
            )
        }),
{
    lemma_index_bits(addr);
}

/// Where the bootloader mapped physical memory.
pub struct Memory {
    offset: Option<u64>,
}

impl Memory {
    /// The offset of the mapping of physical memory, once set.
    pub closed spec fn spec_offset(&self) -> Option<u64> {
        self.offset
    }

    /// No offset set yet.
    pub fn new() -> (r: Self)
        ensures
            r.spec_offset() is None,
    {
        Memory { offset: None }
    }

    /// The offset of the mapping of physical memory, once set.
    pub fn physical_memory_offset(&self) -> (r: Option<u64>)
        ensures
            r == self.spec_offset(),
    {
        self.offset
    }

    /// The virtual address of the active level 4 page table, whose physical frame
    /// starts at `lvl_4_pt_physical_addr` (read from `CR3`): virtual address = physical
    /// address + offset, as set up by the bootloader.
    pub fn active_lvl_4_pt(&self, lvl_4_pt_physical_addr: u64) -> (r: u64)
        requires
            self.spec_offset() is Some,
            lvl_4_pt_physical_addr + self.spec_offset()->0 <= u64::MAX,
        ensures
            r == lvl_4_pt_physical_addr + self.spec_offset()->0,
    {
        let v_addr = VirtualAddress::new(lvl_4_pt_physical_addr) + self.offset.unwrap();
        v_addr.addr
    }

    /// Walks the page tables from the active level 4 table to translate `addr`; none if
    /// an entry on the way is not present.
    pub fn translate_address(
        &self,
        addr: VirtualAddress,
        lvl_4_pt_physical_addr: u64,
        memory: &PageTableMemory,
    ) -> (r: Option<PhysicalAddress>)
        requires
            self.spec_offset() is Some,
            lvl_4_pt_physical_addr + self.spec_offset()->0 <= u64::MAX,
            memory@.contains_key((lvl_4_pt_physical_addr + self.spec_offset()->0) as u64),
            walk_ok(
                memory@,
                4,
                memory@[(lvl_4_pt_physical_addr + self.spec_offset()->0) as u64],
                addr.addr,
                self.spec_offset()->0,
            ),
        ensures
            ({
                let offset = self.spec_offset()->0;
                let t = memory@[(lvl_4_pt_physical_addr + offset) as u64];
                &&& r is Some <==> spec_walk(memory@, 4, t, addr.addr, offset) is Some
                &&& r is Some ==> r->0.addr == spec_walk(memory@, 4, t, addr.addr, offset)->0
            }),
    {
        let physical_memory_offset = self.offset.unwrap();
        let indexes = [
            addr.get_lvl_4_index(),
            addr.get_lvl_3_index(),
            addr.get_lvl_2_index(),
            addr.get_lvl_1_index(),
        ];
        let table_vaddr = self.active_lvl_4_pt(lvl_4_pt_physical_addr);
        let current_page_table = memory.read_table(table_vaddr);
        get_physical_address(4, &current_page_table, addr, &indexes, physical_memory_offset, memory)
    }
}

/// Sets where the bootloader mapped physical memory.
pub fn init(memory: &mut Memory, physical_memory_offset: u64)
    ensures
        final(memory).spec_offset() == Some(physical_memory_offset),
{
    memory.offset = Some(physical_memory_offset);
}

/// Walks the page tables from `current_page_table`, of level `current_level`, to
/// translate `addr`, giving none at an entry that is not present. The walk stops early at a huge page: a 2 MiB page where the level 2
/// entry has the huge-page bit, a 1 GiB page where the level 3 entry has it.
fn get_physical_address(
    current_level: usize,
    current_page_table: &PageTable,
    addr: VirtualAddress,
    indexes: &[u64; 4],
    physical_memory_offset: u64,
    memory: &PageTableMemory,
) -> (r: Option<PhysicalAddress>)
    requires
        1 <= current_level <= 4,
        forall|i: int| 0 <= i < 4 ==> #[trigger] indexes@[i] == spec_level_index(addr.addr, (4 - i) as nat),
        walk_ok(memory@, current_level as nat, *current_page_table, addr.addr, physical_memory_offset),
    ensures
        r is Some <==> spec_walk(memory@, current_level as nat, *current_page_table, addr.addr, physical_memory_offset) is Some,
        r is Some ==> r->0.addr == spec_walk(memory@, current_level as nat, *current_page_table, addr.addr, physical_memory_offset)->0,
    decreases current_level,
{
    let ptable_level = PageTableLevel::from_u8(current_level as u8).unwrap();
    let pte = current_page_table.get(indexes[4 - current_level]).unwrap();
    let pfn_physical_address = pte.as_physical_address(ptable_level);
    if !pte.is_present() {
        None
    } else if current_level == 1 {
        Some(PhysicalAddress::new(pfn_physical_address.as_u64() | addr.get_offset(PageSize::FourKiB)))
    } else if current_level == 2 && pte.is_huge() {
        Some(PhysicalAddress::new(pfn_physical_address.as_u64() | addr.get_offset(PageSize::TwoMiB)))
    } else if current_level == 3 && pte.is_huge() {
        Some(PhysicalAddress::new(pfn_physical_address.as_u64() | addr.get_offset(PageSize::OneGiB)))
    } else {
        let vaddr = pfn_physical_address.as_u64() + physical_memory_offset;
        let next_table = memory.read_table(vaddr);
        get_physical_address(current_level - 1, &next_table, addr, indexes, physical_memory_offset, memory)
    }
}

/// The entry of the table at `key`, of level `level`, for the index `idx[4 - level]`.
pub open spec fn force_entry(tables: Map<u64, PageTable>, level: nat, key: u64, idx: Seq<u64>) -> u64 {
    tables[key].entry_bits(idx[4 - level] as int)
}

/// Forcing the walk at the table `key` needs a frame and none is left.
pub open spec fn force_stuck(
    tables: Map<u64, PageTable>,
    frames: Seq<u64>,
    level: nat,
    key: u64,
    idx: Seq<u64>,
) -> bool {
    force_entry(tables, level, key, idx) == 0 && frames.len() == 0
}

/// One step of forcing the walk at the table `key`, of level `level`: where its entry is
/// unused, the first frame left is zeroed as a page table and the entry `frame number |
/// flags` is stored. The page tables, the frames left, and the entry.
pub open spec fn force_step(
    tables: Map<u64, PageTable>,
    frames: Seq<u64>,
    level: nat,
    key: u64,
    idx: Seq<u64>,
    flags: u64,
    offset: u64,
) -> (Map<u64, PageTable>, Seq<u64>, u64) {
    let i = idx[4 - level] as int;
    let e = force_entry(tables, level, key, idx);
    if e == 0 {
        let f = frames[0];
        let new_entry = spec_entry_bits(f >> 12, flags);
        let zeroed = tables.insert((f + offset) as u64, spec_zero_table());
        (zeroed.insert(key, PageTable::spec_set(zeroed[key], i, new_entry)), frames.drop_first(), new_entry)
    } else {
        (tables, frames, e)
    }
}

/// The address of the table that the step at `key` leads to.
pub open spec fn force_next(
    tables: Map<u64, PageTable>,
    frames: Seq<u64>,
    level: nat,
    key: u64,
    idx: Seq<u64>,
    flags: u64,
    offset: u64,
) -> u64 {
    (spec_entry_address(force_step(tables, frames, level, key, idx, flags, offset).2, level_of(level))
        + offset) as u64
}

/// The result of forcing the walk for the page table indexes `idx` (levels 4, 3 and 2)
/// from the table at `key`, of level `level`, down to the level 1 table: the page tables,
/// the frames left to the allocator, and the level 1 table's address, or none when a
/// frame was needed and none was left.
pub open spec fn spec_force(
    tables: Map<u64, PageTable>,
    frames: Seq<u64>,
    level: nat,
    key: u64,
    idx: Seq<u64>,
    flags: u64,
    offset: u64,
) -> (Map<u64, PageTable>, Seq<u64>, Option<u64>)
    decreases level,
{
    if force_stuck(tables, frames, level, key, idx) {
        (tables, frames, None)
    } else {
        let s = force_step(tables, frames, level, key, idx, flags, offset);
        let next = force_next(tables, frames, level, key, idx, flags, offset);
        if level <= 2 {
            (s.0, s.1, Some(next))
        } else {
            spec_force(s.0, s.1, (level - 1) as nat, next, idx, flags, offset)
        }
    }
}

/// The addresses of the tables that forcing the walk reads and writes, from `key` down.
pub open spec fn force_path(
    tables: Map<u64, PageTable>,
    frames: Seq<u64>,
    level: nat,
    key: u64,
    idx: Seq<u64>,
    flags: u64,
    offset: u64,
) -> Seq<u64>
    decreases level,
{
    if force_stuck(tables, frames, level, key, idx) {
        seq![key]
    } else {
        let s = force_step(tables, frames, level, key, idx, flags, offset);
        let next = force_next(tables, frames, level, key, idx, flags, offset);
        if level <= 2 {
            seq![key, next]
        } else {
            seq![key] + force_path(s.0, s.1, (level - 1) as nat, next, idx, flags, offset)
        }
    }
}

/// Every entry in use on the forced walk is present, and none at level 3 or 2 is a huge
/// page.
pub open spec fn force_clean(
    tables: Map<u64, PageTable>,
    frames: Seq<u64>,
    level: nat,
    key: u64,
    idx: Seq<u64>,
    flags: u64,
    offset: u64,
) -> bool
    decreases level,
{
    let e = force_entry(tables, level, key, idx);
    &&& e != 0 ==> bit_set(e, 0)
    &&& (e != 0 && (level == 2 || level == 3)) ==> !bit_set(e, 7)
    &&& (level > 2 && !force_stuck(tables, frames, level, key, idx)) ==> {
        let s = force_step(tables, frames, level, key, idx, flags, offset);
        let next = force_next(tables, frames, level, key, idx, flags, offset);
        force_clean(s.0, s.1, (level - 1) as nat, next, idx, flags, offset)
    }
}

/// Forcing the walk reads only tables that are there, and no address computation
/// overflows.
pub open spec fn force_ok(
    tables: Map<u64, PageTable>,
    frames: Seq<u64>,
    level: nat,
    key: u64,
    idx: Seq<u64>,
    flags: u64,
    offset: u64,
) -> bool
    decreases level,
{
    let i = idx[4 - level] as int;
    let e = force_entry(tables, level, key, idx);
    &&& 2 <= level <= 4
    &&& tables.contains_key(key)
    &&& tables[key]@.len() == MAX_ENTRIES
    &&& 0 <= i < MAX_ENTRIES
    &&& !force_stuck(tables, frames, level, key, idx) ==> {
        let s = force_step(tables, frames, level, key, idx, flags, offset);
        &&& e == 0 ==> frames[0] + offset <= u64::MAX
        &&& spec_entry_address(s.2, level_of(level)) + offset <= u64::MAX
        &&& level > 2 ==> force_ok(
            s.0,
            s.1,
            (level - 1) as nat,
            force_next(tables, frames, level, key, idx, flags, offset),
            idx,
            flags,
            offset,
        )
    }
}

/// Gets the level 1 page table for the page table indexes `indexes` (of levels 4, 3 and
/// 2), walking from the table at `current_page_table` of level `current_level`. Every
/// unused entry on the way gets a fresh frame from `frame_allocator`, zeroed, and the
/// entry `frame number | flags` pointing to it.
fn force_get_lvl_1_page_table(
    current_level: usize,
    current_page_table: u64,
    indexes: &[u64; 3],
    flags: u64,
    physical_memory_offset: u64,
    frame_allocator: &mut BootInfoFrameAllocator,
    memory: &mut PageTableMemory,
) -> (r: Result<u64, &'static str>)
    requires
        old(frame_allocator).wf(),
        force_ok(
            old(memory)@,
            old(frame_allocator)@,
            current_level as nat,
            current_page_table,
            indexes@,
            flags,
            physical_memory_offset,
        ),
    ensures
        final(frame_allocator).wf(),
        ({
            let (tables, frames, res) = spec_force(
                old(memory)@,
                old(frame_allocator)@,
                current_level as nat,
                current_page_table,
                indexes@,
                flags,
                physical_memory_offset,
            );
            &&& final(memory)@ == tables
            &&& final(frame_allocator)@ == frames
            &&& res is Some ==> r == Ok::<u64, &'static str>(res->0)
            &&& res is None ==> (r matches Err(e) && e@ == frame_shortage_message())
        }),
    decreases current_level,
{
    let ghost tables0 = memory@;
    let ghost frames0 = frame_allocator@;
    let mut current = memory.read_table(current_page_table);
    let index = indexes[4 - current_level];
    let mut pte = current.get(index).unwrap();
    if pte.is_unused() {
        // allocate a new frame
        let frame = frame_allocator.allocate_frame();
        let p_addr = match frame {
            None => {
                return Err("Allocation for new frame failed. Unable to update mapping.");
            },
            Some(f) => f,
        };
        // zero out all the entries of the new table
        let v_addr = VirtualAddress::new(p_addr + physical_memory_offset);
        memory.write_table(v_addr.as_u64(), PageTable::zeroed());
        // point the current table's entry at the new frame
        pte = PageTableEntry::new(p_addr >> 12, flags);
        let mut current = memory.read_table(current_page_table);
        let _ = current.set(index, pte);
        memory.write_table(current_page_table, current);
    }
    // the virtual address of the next page table
    let ptable_level = PageTableLevel::from_u8(current_level as u8).unwrap();
    let v_addr = VirtualAddress::new(pte.as_physical_address(ptable_level).as_u64()) + physical_memory_offset;
    if current_level == 2 {
        Ok(v_addr.as_u64())
    } else {
        force_get_lvl_1_page_table(
            current_level - 1,
            v_addr.as_u64(),
            indexes,
            flags,
            physical_memory_offset,
            frame_allocator,
            memory,
        )
    }
}

/// What mapping answers when a new page table needs a frame and none is left.
pub open spec fn frame_shortage_message() -> Seq<char> {
    "Allocation for new frame failed. Unable to update mapping."@
}

/// The page table indexes of levels 4, 3 and 2 of `v`.
pub open spec fn upper_indexes(v: u64) -> Seq<u64> {
    seq![spec_level_index(v, 4), spec_level_index(v, 3), spec_level_index(v, 2)]
}

/// The level 1 entry that maps the 4 KiB page of physical address `p` with `flags`.
pub open spec fn leaf_entry(p: u64, flags: u64) -> u64 {
    spec_entry_bits(p >> 12, flags)
}

/// The page tables after mapping the page of `v` to the frame of `p` from the level 4
/// table at `root`: the walk is forced down to the level 1 table, whose entry for `v`
/// becomes `leaf_entry(p, flags)`.
pub open spec fn spec_map(
    tables: Map<u64, PageTable>,
    frames: Seq<u64>,
    root: u64,
    v: u64,
    p: u64,
    flags: u64,
    offset: u64,
) -> (Map<u64, PageTable>, Seq<u64>, bool) {
    let (tables2, frames2, res) = spec_force(tables, frames, 4, root, upper_indexes(v), flags, offset);
    match res {
        None => (tables2, frames2, false),
        Some(t1) => (
            tables2.insert(
                t1,
                PageTable::spec_set(tables2[t1], spec_level_index(v, 1) as int, leaf_entry(p, flags)),
            ),
            frames2,
            true,
        ),
    }
}

/// Mapping reads only tables that are there, and no address computation overflows.
pub open spec fn map_ok(
    tables: Map<u64, PageTable>,
    frames: Seq<u64>,
    root: u64,
    v: u64,
    flags: u64,
    offset: u64,
) -> bool {
    let (tables2, frames2, res) = spec_force(tables, frames, 4, root, upper_indexes(v), flags, offset);
    &&& force_ok(tables, frames, 4, root, upper_indexes(v), flags, offset)
    &&& res is Some ==> tables2.contains_key(res->0) && tables2[res->0]@.len() == MAX_ENTRIES
}

impl Memory {
    /// Maps the 4 KiB page of `v_addr` to the frame of `p_addr` in the page tables of the
    /// active level 4 table, whose frame starts at `lvl_4_pt_physical_addr`. The offsets
    /// of both addresses inside their pages are ignored. Missing page tables get fresh
    /// frames from `frame_allocator`. The returned address must be flushed from the TLB.
    pub fn map_4kib_page(
        &self,
        v_addr: VirtualAddress,
        p_addr: PhysicalAddress,
        flags: u64,
        frame_allocator: &mut BootInfoFrameAllocator,
        lvl_4_pt_physical_addr: u64,
        memory: &mut PageTableMemory,
    ) -> (r: Result<FlusherVirtualAddress, &'static str>)
        requires
            self.spec_offset() is Some,
            lvl_4_pt_physical_addr + self.spec_offset()->0 <= u64::MAX,
            old(frame_allocator).wf(),
            map_ok(
                old(memory)@,
                old(frame_allocator)@,
                (lvl_4_pt_physical_addr + self.spec_offset()->0) as u64,
                v_addr.addr,
                flags,
                self.spec_offset()->0,
            ),
        ensures
            final(frame_allocator).wf(),
            ({
                let (tables, frames, mapped) = spec_map(
                    old(memory)@,
                    old(frame_allocator)@,
                    (lvl_4_pt_physical_addr + self.spec_offset()->0) as u64,
                    v_addr.addr,
                    p_addr.addr,
                    flags,
                    self.spec_offset()->0,
                );
                &&& final(memory)@ == tables
                &&& final(frame_allocator)@ == frames
                &&& mapped ==> (r matches Ok(f) && f.vaddr == v_addr)
                &&& !mapped ==> (r matches Err(e) && e@ == frame_shortage_message())
            }),
            entries_written_with(old(memory)@, final(memory)@, flags),
    {
        proof {
            lemma_map_written_with(
                old(memory)@,
                old(frame_allocator)@,
                (lvl_4_pt_physical_addr + self.spec_offset()->0) as u64,
                v_addr.addr,
                p_addr.addr,
                flags,
                self.spec_offset()->0,
            );
        }
        let physical_memory_offset = self.offset.unwrap();
        let indexes = [v_addr.get_lvl_4_index(), v_addr.get_lvl_3_index(), v_addr.get_lvl_2_index()];
        assert(indexes@ =~= upper_indexes(v_addr.addr));
        let current_page_table = self.active_lvl_4_pt(lvl_4_pt_physical_addr);
        let level_1_pt = match force_get_lvl_1_page_table(
            4,
            current_page_table,
            &indexes,
            flags,
            physical_memory_offset,
            frame_allocator,
            memory,
        ) {
            Ok(t) => t,
            Err(e) => {
                return Err(e);
            },
        };
        let mut table = memory.read_table(level_1_pt);
        let set = table.set(v_addr.get_lvl_1_index(), PageTableEntry::new(p_addr.as_u64() >> 12, flags));
        if let Err(e) = set {
            return Err(e);
        }
        memory.write_table(level_1_pt, table);
        Ok(FlusherVirtualAddress::new(v_addr))
    }
}

/// The flags that mapping takes: present, not a huge page, and clear of the address
/// bits.
pub open spec fn plain_flags(flags: u64) -> bool {
    &&& bit_set(flags, 0)
    &&& !bit_set(flags, 7)
    &&& flags & PFN_4KIB_MASK == 0
}

/// Frames that start a 4 KiB frame below the physical address limit.
pub open spec fn aligned_frames(frames: Seq<u64>) -> bool {
    forall|i: int| 0 <= i < frames.len() ==> #[trigger] frames[i] & 0xFFF == 0 && frames[i] < 0x10_0000_0000_0000
}

/// An entry that points a page table at a new frame is in use, present, no huge page,
/// and names the frame.
proof fn lemma_table_entry(f: u64, flags: u64, level: nat)
    requires
        f & 0xFFF == 0,
        f < 0x10_0000_0000_0000,
        plain_flags(flags),
        2 <= level <= 4,
    ensures
        spec_entry_bits(f >> 12, flags) != 0,
        bit_set(spec_entry_bits(f >> 12, flags), 0),
        !bit_set(spec_entry_bits(f >> 12, flags), 7),
        spec_entry_address(spec_entry_bits(f >> 12, flags), level_of(level)) == f,
{
    let pfn = f >> 12;
    assert(flags != 0) by (bit_vector)
        requires
            (flags >> 0u64) & 1 != 0,
    ;
    assert(pfn < 0x100_0000_0000 && pfn * 0x1000 == f) by (bit_vector)
        requires
            f & 0xFFF == 0,
            f < 0x10_0000_0000_0000,
            pfn == f >> 12,
    ;
    lemma_new_entry_fields(pfn, flags);
    assert(bit_set(spec_entry_bits(pfn, flags), 0) == bit_set(flags, 0));
    assert(bit_set(spec_entry_bits(pfn, flags), 7) == bit_set(flags, 7));
}

/// The level 1 entry of a mapping is present and names the frame of `p`.
proof fn lemma_leaf_entry(p: u64, flags: u64)
    requires
        p < 0x10_0000_0000_0000,
        plain_flags(flags),
    ensures
        spec_entry_address(leaf_entry(p, flags), PageTableLevel::Level1) == p & !0xFFFu64,
        bit_set(leaf_entry(p, flags), 0),
{
    let pfn = p >> 12;
    assert(pfn < 0x100_0000_0000 && pfn * 0x1000 == p & !0xFFFu64) by (bit_vector)
        requires
            p < 0x10_0000_0000_0000,
            pfn == p >> 12,
    ;
    lemma_new_entry_fields(pfn, flags);
    assert(bit_set(spec_entry_bits(pfn, flags), 0) == bit_set(flags, 0));
}

/// Forcing the walk changes only the tables on its path, and the path ends at the level 1
/// table that it gives.
proof fn lemma_force_frame(
    tables: Map<u64, PageTable>,
    frames: Seq<u64>,
    level: nat,
    key: u64,
    idx: Seq<u64>,
    flags: u64,
    offset: u64,
)
    requires
        force_ok(tables, frames, level, key, idx, flags, offset),
        plain_flags(flags),
        aligned_frames(frames),
    ensures
        ({
            let (t2, f2, r) = spec_force(tables, frames, level, key, idx, flags, offset);
            let path = force_path(tables, frames, level, key, idx, flags, offset);
            &&& path.len() >= 1
            &&& path[0] == key
            &&& aligned_frames(f2)
            &&& r is Some ==> path.len() == level && path.last() == r->0
            &&& forall|x: u64|
                !path.contains(x) ==> (#[trigger] t2.contains_key(x) == tables.contains_key(x)
                    && (tables.contains_key(x) ==> t2[x] == tables[x]))
        }),
    decreases level,
{
    if !force_stuck(tables, frames, level, key, idx) {
        let s = force_step(tables, frames, level, key, idx, flags, offset);
        let next = force_next(tables, frames, level, key, idx, flags, offset);
        let e = force_entry(tables, level, key, idx);
        if e == 0 {
            lemma_table_entry(frames[0], flags, level);
            assert(next == (frames[0] + offset) as u64);
        }
        assert(aligned_frames(s.1)) by {
            if e == 0 {
                assert forall|i: int| 0 <= i < s.1.len() implies #[trigger] s.1[i] & 0xFFF == 0 && s.1[i] < 0x10_0000_0000_0000 by {
                    assert(s.1[i] == frames[i + 1]);
                }
            }
        }
        if level > 2 {
            lemma_force_frame(s.0, s.1, (level - 1) as nat, next, idx, flags, offset);
            let sub = force_path(s.0, s.1, (level - 1) as nat, next, idx, flags, offset);
            let path = force_path(tables, frames, level, key, idx, flags, offset);
            assert(path == seq![key] + sub);
            assert forall|x: u64| !path.contains(x) implies !sub.contains(x) && x != key && x != next by {
                if sub.contains(x) {
                    let j = choose|j: int| 0 <= j < sub.len() && sub[j] == x;
                    assert(path[j + 1] == x);
                }
                assert(path[0] == key);
                assert(path[1] == next);
            }
        } else {
            let path = force_path(tables, frames, level, key, idx, flags, offset);
            assert forall|x: u64| !path.contains(x) implies x != key && x != next by {
                assert(path[0] == key);
                assert(path[1] == next);
            }
        }
    }
}

/// After forcing the walk from `key`, of level `level`, and storing the level 1 entry
/// `leaf`, a present entry, in the level 1 table, the walk for `v` from `key` reaches
/// that entry, where the forced path holds no table twice, no entry that is not present
/// and no huge page.
proof fn lemma_force_walk(
    tables: Map<u64, PageTable>,
    frames: Seq<u64>,
    level: nat,
    key: u64,
    v: u64,
    flags: u64,
    offset: u64,
    leaf: u64,
)
    requires
        force_ok(tables, frames, level, key, upper_indexes(v), flags, offset),
        force_clean(tables, frames, level, key, upper_indexes(v), flags, offset),
        force_path(tables, frames, level, key, upper_indexes(v), flags, offset).no_duplicates(),
        spec_force(tables, frames, level, key, upper_indexes(v), flags, offset).2 is Some,
        ({
            let (t2, f2, r) = spec_force(tables, frames, level, key, upper_indexes(v), flags, offset);
            t2.contains_key(r->0) && t2[r->0]@.len() == MAX_ENTRIES
        }),
        plain_flags(flags),
        aligned_frames(frames),
        bit_set(leaf, 0),
    ensures
        ({
            let (t2, f2, r) = spec_force(tables, frames, level, key, upper_indexes(v), flags, offset);
            let t1 = r->0;
            let fin = t2.insert(t1, PageTable::spec_set(t2[t1], spec_level_index(v, 1) as int, leaf));
            &&& fin.contains_key(key)
            &&& walk_ok(fin, level, fin[key], v, offset)
            &&& spec_walk(fin, level, fin[key], v, offset) == Some(
                spec_entry_address(leaf, PageTableLevel::Level1) | spec_page_offset(v, PageSize::FourKiB),
            )
        }),
    decreases level,
{
    let idx = upper_indexes(v);
    let s = force_step(tables, frames, level, key, idx, flags, offset);
    let next = force_next(tables, frames, level, key, idx, flags, offset);
    let e = force_entry(tables, level, key, idx);
    let i = idx[4 - level] as int;
    let (t2, f2, r) = spec_force(tables, frames, level, key, idx, flags, offset);
    let t1 = r->0;
    let fin = t2.insert(t1, PageTable::spec_set(t2[t1], spec_level_index(v, 1) as int, leaf));
    let path = force_path(tables, frames, level, key, idx, flags, offset);
    lemma_force_frame(tables, frames, level, key, idx, flags, offset);
    let sub = force_path(s.0, s.1, (level - 1) as nat, next, idx, flags, offset);
    if level <= 2 {
        assert(path == seq![key, next]);
    } else {
        assert(path == seq![key] + sub);
        lemma_force_frame(s.0, s.1, (level - 1) as nat, next, idx, flags, offset);
    }
    assert(path[0] == key && path[1] == next);
    assert(key != next);
    assert(i == spec_level_index(v, level) as int);
    // The entry that the step leaves at `key`.
    let e2 = s.2;
    if e == 0 {
        lemma_table_entry(frames[0], flags, level);
        assert(next == (frames[0] + offset) as u64);
        PageTable::lemma_spec_set(tables[key], i, e2);
        assert(s.0[key] == PageTable::spec_set(tables[key], i, e2));
    }
    assert(s.0.contains_key(key));
    assert(s.0[key].entry_bits(i) == e2);
    assert(s.0[key]@.len() == MAX_ENTRIES);
    assert(e2 != 0 && bit_set(e2, 0) && ((level == 2 || level == 3) ==> !bit_set(e2, 7)));
    if level <= 2 {
        assert(t2 == s.0 && t1 == next);
        // the level 1 table
        PageTable::lemma_spec_set(t2[t1], spec_level_index(v, 1) as int, leaf);
        assert(fin[key] == s.0[key]);
        assert(walk_entry(fin[key], level, v) == e2);
        assert(walk_next(fin[key], level, v, offset) == next);
        assert(fin[next].entry_bits(spec_level_index(v, 1) as int) == leaf);
        assert(walk_entry(fin[next], 1, v) == leaf);
        assert(level == 2);
        assert(walk_ok(fin, 1, fin[next], v, offset));
        assert(!walk_stops(fin[key], level, v));
        assert(walk_ok(fin, level, fin[key], v, offset));
        assert(spec_walk(fin, 1, fin[next], v, offset) == Some(
            spec_entry_address(leaf, PageTableLevel::Level1) | spec_page_offset(v, PageSize::FourKiB)));
    } else {
        assert(spec_force(tables, frames, level, key, idx, flags, offset) == spec_force(s.0, s.1, (level - 1) as nat, next, idx, flags, offset));
        assert(sub.no_duplicates()) by {
            assert forall|x: int, y: int| 0 <= x < y < sub.len() implies sub[x] != sub[y] by {
                assert(path[x + 1] == sub[x]);
                assert(path[y + 1] == sub[y]);
            }
        }
        assert(!sub.contains(key)) by {
            if sub.contains(key) {
                let j = choose|j: int| 0 <= j < sub.len() && sub[j] == key;
                assert(path[j + 1] == key);
            }
        }
        lemma_force_walk(s.0, s.1, (level - 1) as nat, next, v, flags, offset, leaf);
        assert(t1 == sub.last());
        assert(t1 != key) by {
            assert(sub.contains(t1));
        }
        assert(t2.contains_key(key));
        assert(fin[key] == s.0[key]);
        assert(walk_entry(fin[key], level, v) == e2);
        assert(walk_next(fin[key], level, v, offset) == next);
        assert(!walk_stops(fin[key], level, v));
        assert(walk_ok(fin, level, fin[key], v, offset));
    }
}

/// Mapping a page makes the walk for its address reach the new level 1 entry: every
/// address of the page then translates to the frame of `p` plus the offset inside the
/// page. This holds where the tables on the forced path are all different, the entries
/// in use on it are present and no huge page, the flags are plain and the frames are
/// aligned.
pub proof fn lemma_map_then_translate(
    tables: Map<u64, PageTable>,
    frames: Seq<u64>,
    root: u64,
    v: u64,
    p: u64,
    flags: u64,
    offset: u64,
)
    requires
        map_ok(tables, frames, root, v, flags, offset),
        spec_map(tables, frames, root, v, p, flags, offset).2,
        force_path(tables, frames, 4, root, upper_indexes(v), flags, offset).no_duplicates(),
        force_clean(tables, frames, 4, root, upper_indexes(v), flags, offset),
        plain_flags(flags),
        aligned_frames(frames),
        p < 0x10_0000_0000_0000,
    ensures
        ({
            let fin = spec_map(tables, frames, root, v, p, flags, offset).0;
            &&& fin.contains_key(root)
            &&& walk_ok(fin, 4, fin[root], v, offset)
            &&& spec_walk(fin, 4, fin[root], v, offset) == Some(
                (p & !0xFFFu64) | spec_page_offset(v, PageSize::FourKiB),
            )
        }),
{
    lemma_leaf_entry(p, flags);
    lemma_force_walk(tables, frames, 4, root, v, flags, offset, leaf_entry(p, flags));
}

/// Every entry of `after` that is not zero and is not what `before` holds there (a table
/// that is new in `after` counting as all zero) carries the flags `flags`: its low 12 bits
/// are those of `flags`.
pub open spec fn entries_written_with(before: Map<u64, PageTable>, after: Map<u64, PageTable>, flags: u64) -> bool {
    forall|x: u64, i: int|
        #![trigger after[x].entry_bits(i)]
        after.contains_key(x) && 0 <= i < MAX_ENTRIES && after[x].entry_bits(i) != 0 && !(before.contains_key(x)
            && before[x].entry_bits(i) == after[x].entry_bits(i)) ==> after[x].entry_bits(i) & 0xFFF == flags
            & 0xFFF
}

/// Entries written with the flags in two steps are written with them in one.
proof fn lemma_written_with_trans(a: Map<u64, PageTable>, b: Map<u64, PageTable>, c: Map<u64, PageTable>, flags: u64)
    requires
        entries_written_with(a, b, flags),
        entries_written_with(b, c, flags),
    ensures
        entries_written_with(a, c, flags),
{
    assert forall|x: u64, i: int|
        c.contains_key(x) && 0 <= i < MAX_ENTRIES && #[trigger] c[x].entry_bits(i) != 0 && !(a.contains_key(x)
            && a[x].entry_bits(i) == c[x].entry_bits(i)) implies c[x].entry_bits(i) & 0xFFF == flags & 0xFFF by {
        if b.contains_key(x) && b[x].entry_bits(i) == c[x].entry_bits(i) {
            assert(b[x].entry_bits(i) != 0);
        }
    }
}

/// The entry built from a frame number and flags carries the flags.
proof fn lemma_entry_bits_flags(pfn: u64, flags: u64)
    ensures
        spec_entry_bits(pfn, flags) & 0xFFF == flags & 0xFFF,
{
    assert(((pfn & 0x0000_00FF_FFFF_FFFFu64) << 12u64 | flags) & 0xFFF == flags & 0xFFF) by (bit_vector);
}

/// Setting one entry of a table to an entry with the flags writes only with the flags.
proof fn lemma_written_with_set(a: Map<u64, PageTable>, k: u64, i: int, e: u64, flags: u64)
    requires
        a.contains_key(k),
        a[k]@.len() == MAX_ENTRIES,
        0 <= i < MAX_ENTRIES,
        e & 0xFFF == flags & 0xFFF,
    ensures
        entries_written_with(a, a.insert(k, PageTable::spec_set(a[k], i, e)), flags),
{
    PageTable::lemma_spec_set(a[k], i, e);
}

/// Forcing the walk down to a level 1 table writes only entries with the flags: the
/// entries that point at new tables; the new tables themselves are all zero.
proof fn lemma_force_written_with(
    tables: Map<u64, PageTable>,
    frames: Seq<u64>,
    level: nat,
    key: u64,
    idx: Seq<u64>,
    flags: u64,
    offset: u64,
)
    requires
        force_ok(tables, frames, level, key, idx, flags, offset),
    ensures
        entries_written_with(tables, spec_force(tables, frames, level, key, idx, flags, offset).0, flags),
    decreases level,
{
    if !force_stuck(tables, frames, level, key, idx) {
        let s = force_step(tables, frames, level, key, idx, flags, offset);
        let e = force_entry(tables, level, key, idx);
        let i = idx[4 - level] as int;
        if e == 0 {
            let f = frames[0];
            let zeroed = tables.insert((f + offset) as u64, spec_zero_table());
            lemma_zero_table();
            assert(entries_written_with(tables, zeroed, flags));
            lemma_entry_bits_flags(f >> 12, flags);
            lemma_written_with_set(zeroed, key, i, spec_entry_bits(f >> 12, flags), flags);
            lemma_written_with_trans(tables, zeroed, s.0, flags);
        } else {
            assert(s.0 == tables);
        }
        if level > 2 {
            let next = force_next(tables, frames, level, key, idx, flags, offset);
            lemma_force_written_with(s.0, s.1, (level - 1) as nat, next, idx, flags, offset);
            lemma_written_with_trans(tables, s.0, spec_force(tables, frames, level, key, idx, flags, offset).0, flags);
        }
    }
}

/// Mapping a page writes only page table entries with the flags it is given: the level 1
/// entry of the page, and the entries that point at the tables it creates.
pub proof fn lemma_map_written_with(
    tables: Map<u64, PageTable>,
    frames: Seq<u64>,
    root: u64,
    v: u64,
    p: u64,
    flags: u64,
    offset: u64,
)
    requires
        map_ok(tables, frames, root, v, flags, offset),
    ensures
        entries_written_with(tables, spec_map(tables, frames, root, v, p, flags, offset).0, flags),
{
    let (t2, f2, res) = spec_force(tables, frames, 4, root, upper_indexes(v), flags, offset);
    lemma_force_written_with(tables, frames, 4, root, upper_indexes(v), flags, offset);
    if res is Some {
        let t1 = res->0;
        lemma_index_bits(v);
        assert((v >> 12u64) & 0o777 < 512) by (bit_vector);
        lemma_entry_bits_flags(p >> 12, flags);
        lemma_written_with_set(t2, t1, spec_level_index(v, 1) as int, leaf_entry(p, flags), flags);
        lemma_written_with_trans(
            tables,
            t2,
            t2.insert(t1, PageTable::spec_set(t2[t1], spec_level_index(v, 1) as int, leaf_entry(p, flags))),
            flags,
        );
    }
}

} // verus!
