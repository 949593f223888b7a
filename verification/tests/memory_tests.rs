use kalopsia_os::memory::frame_allocator::BootInfoFrameAllocator;
use kalopsia_os::memory::heap_allocator::buddy::{
    round_log, BinaryBuddyAllocator, BuddyHeader, BuddyNode,
};
use kalopsia_os::memory::page_table::{
    PTFlags, PageSize, PageTable, PageTableEntry, PageTableLevel,
};
use kalopsia_os::memory::heap_allocator::init_heap;
use kalopsia_os::memory::recursive_paging::get_page_table_vaddr;
use kalopsia_os::memory::{
    init, usable_frames, Memory, MemoryRegion, PageTableMemory, PhysicalAddress, VirtualAddress,
    HEAP_START,
};
use kalopsia_os::utils::KernelPointer;

#[test]
fn virtual_address_indexes() {
    // 0x0000_7fff_ffff_f123: all indexes 511 below the top level, which is 255
    let v = VirtualAddress::new(0x0000_7fff_ffff_f123);
    assert_eq!(v.get_lvl_4_index(), 255);
    assert_eq!(v.get_lvl_3_index(), 511);
    assert_eq!(v.get_lvl_2_index(), 511);
    assert_eq!(v.get_lvl_1_index(), 511);
    assert_eq!(v.get_offset(PageSize::FourKiB), 0x123);
    assert_eq!(v.get_offset(PageSize::TwoMiB), 0x1f_f123);
    assert_eq!(v.get_offset(PageSize::OneGiB), 0x3fff_f123);
    assert_eq!(v.as_u64(), 0x0000_7fff_ffff_f123);
}

#[test]
fn virtual_address_indexes_of_vga_buffer() {
    let v = VirtualAddress::new(0xb8000);
    assert_eq!(v.get_lvl_4_index(), 0);
    assert_eq!(v.get_lvl_3_index(), 0);
    assert_eq!(v.get_lvl_2_index(), 0);
    assert_eq!(v.get_lvl_1_index(), 0xb8);
    assert_eq!(v.get_offset(PageSize::FourKiB), 0);
}

#[test]
fn virtual_address_decomposes() {
    // the indexes and the offset put back together give the address
    let a: u64 = 0x0000_1234_5678_9abc;
    let v = VirtualAddress::new(a);
    let back = (v.get_lvl_4_index() << 39)
        | (v.get_lvl_3_index() << 30)
        | (v.get_lvl_2_index() << 21)
        | (v.get_lvl_1_index() << 12)
        | v.get_offset(PageSize::FourKiB);
    assert_eq!(back, a);
}

#[test]
fn virtual_address_add_and_null() {
    let v = VirtualAddress::new(0x1000) + 0x234;
    assert_eq!(v.as_u64(), 0x1234);
    assert_eq!(VirtualAddress::null().as_u64(), 0);
    let w = kalopsia_os::memory::vaddr::VirtualAddress::new(7) + 3;
    assert_eq!(w.as_u64(), 10);
}

#[test]
fn physical_address_keeps_value() {
    assert_eq!(PhysicalAddress::new(0xb8000).as_u64(), 0xb8000);
}

#[test]
fn kernel_pointer_null() {
    let p: KernelPointer<u64> = KernelPointer::new(VirtualAddress::new(0));
    assert!(p.is_null());
    let q: KernelPointer<u64> = KernelPointer::new(VirtualAddress::new(0x10));
    assert!(!q.is_null());
    assert_eq!(q.ptr, 0x10);
}

#[test]
fn page_table_entry_bits() {
    let e = PageTableEntry::new(0xb8, PTFlags::Write | PTFlags::Present);
    assert!(e.is_present());
    assert!(e.is_writable());
    assert!(!e.is_user_accessible());
    assert!(!e.is_write_through());
    assert!(!e.is_cache_disabled());
    assert!(!e.is_accessed());
    assert!(!e.is_dirty());
    assert!(!e.is_huge());
    assert!(!e.is_global());
    assert!(!e.is_nx());
    assert!(!e.is_unused());
    assert_eq!(e.as_physical_address(PageTableLevel::Level1).as_u64(), 0xb8000);
    assert!(PageTableEntry::zero().is_unused());
}

#[test]
fn page_table_entry_high_flags_and_huge_frames() {
    let flags = PTFlags::HugePage.value() | PTFlags::Global.value() | PTFlags::NoExecute.value()
        | PTFlags::UserAccess.value() | PTFlags::WriteThrough.value() | PTFlags::DisableCache.value();
    let e = PageTableEntry::new(0x12345, flags);
    assert!(e.is_huge());
    assert!(e.is_global());
    assert!(e.is_nx());
    assert!(e.is_user_accessible());
    assert!(e.is_write_through());
    assert!(e.is_cache_disabled());
    assert!(!e.is_present());
    // 2 MiB and 1 GiB pages keep fewer frame bits
    assert_eq!(e.as_physical_address(PageTableLevel::Level1).as_u64(), 0x1234_5000);
    assert_eq!(e.as_physical_address(PageTableLevel::Level2).as_u64(), 0x1220_0000);
    assert_eq!(e.as_physical_address(PageTableLevel::Level3).as_u64(), 0);
    // the frame number keeps its lower 40 bits
    let f = PageTableEntry::new(0xff_0000_0000_0001, 0);
    assert_eq!(f.as_physical_address(PageTableLevel::Level1).as_u64(), 0x1000);
}

#[test]
fn pt_flag_values() {
    assert_eq!(PTFlags::Present.value(), 1);
    assert_eq!(PTFlags::Write.value(), 2);
    assert_eq!(PTFlags::UserAccess.value(), 4);
    assert_eq!(PTFlags::WriteThrough.value(), 8);
    assert_eq!(PTFlags::DisableCache.value(), 16);
    assert_eq!(PTFlags::HugePage.value(), 128);
    assert_eq!(PTFlags::Global.value(), 256);
    assert_eq!(PTFlags::NoExecute.value(), 1 << 63);
    assert_eq!(PTFlags::Write | PTFlags::Present, 3);
}

#[test]
fn page_table_set_then_get() {
    let mut t = PageTable::zeroed();
    assert!(t.get(3).unwrap().is_unused());
    assert!(t.set(3, PageTableEntry::new(5, 1)).is_ok());
    let e = t.get(3).unwrap();
    assert!(e.is_present());
    assert_eq!(e.as_physical_address(PageTableLevel::Level1).as_u64(), 0x5000);
    // other entries stay
    assert!(t.get(4).unwrap().is_unused());
    assert_eq!(t.iter().len(), 512);
    t.zero_out();
    assert!(t.get(3).unwrap().is_unused());
}

#[test]
fn page_table_out_of_range() {
    let mut t = PageTable::zeroed();
    assert!(t.get(512).is_none());
    assert_eq!(t.set(512, PageTableEntry::new(1, 1)), Err("Unable to set PTE"));
}

#[test]
fn page_table_levels() {
    assert_eq!(PageTableLevel::from_u8(1), Some(PageTableLevel::Level1));
    assert_eq!(PageTableLevel::from_u8(4), Some(PageTableLevel::Level4));
    assert_eq!(PageTableLevel::from_u8(0), None);
    assert_eq!(PageTableLevel::from_u8(5), None);
}

#[test]
fn recursive_paging_addresses() {
    let r = get_page_table_vaddr(0);
    assert_eq!(r.level_4, 0xFFFF_FFFF_FFFF_F000);
    assert_eq!(r.level_3, 0xFFFF_FFFF_FFE0_0000);
    assert_eq!(r.level_2, 0xFFFF_FFFF_C000_0000);
    assert_eq!(r.level_1, 0xFFFF_FF80_0000_0000);
    let s = get_page_table_vaddr(0x0000_0080_4020_1000);
    // indexes 1, 1, 1, 1
    assert_eq!(s.level_3, 0xFFFF_FFFF_FFE0_1000);
    assert_eq!(s.level_2, 0xFFFF_FFFF_C020_1000);
    assert_eq!(s.level_1, 0xFFFF_FF80_4020_1000);
}

fn frame_allocator(start: u64, end: u64) -> BootInfoFrameAllocator {
    let map = vec![
        MemoryRegion { start_addr: 0, end_addr: 0x1000, usable: false },
        MemoryRegion { start_addr: start, end_addr: end, usable: true },
    ];
    BootInfoFrameAllocator::init(usable_frames(&map))
}

#[test]
fn frames_of_usable_regions() {
    let map = vec![
        MemoryRegion { start_addr: 0, end_addr: 0x1000, usable: false },
        MemoryRegion { start_addr: 0x2000, end_addr: 0x4000, usable: true },
        MemoryRegion { start_addr: 0x4000, end_addr: 0x8000, usable: false },
        MemoryRegion { start_addr: 0x9000, end_addr: 0xa000, usable: true },
    ];
    let mut frames = BootInfoFrameAllocator::init(usable_frames(&map));
    assert_eq!(frames.allocate_frame(), Some(0x2000));
    assert_eq!(frames.allocate_frame(), Some(0x3000));
    assert_eq!(frames.allocate_frame(), Some(0x9000));
    assert_eq!(frames.allocate_frame(), None);
    assert_eq!(frames.allocate_frame(), None);
}

#[test]
fn frames_start_at_frame_boundaries() {
    // an unaligned region start yields the frame that holds it
    let mut frames = frame_allocator(0x2345, 0x4000);
    assert_eq!(frames.allocate_frame(), Some(0x2000));
    assert_eq!(frames.allocate_frame(), Some(0x3000));
    assert_eq!(frames.allocate_frame(), None);
}

#[test]
fn no_usable_frames() {
    let map = vec![MemoryRegion { start_addr: 0, end_addr: 0x1000, usable: false }];
    let mut frames = BootInfoFrameAllocator::init(usable_frames(&map));
    assert_eq!(frames.allocate_frame(), None);
}

fn memory_with_root(offset: u64, root: u64) -> (Memory, PageTableMemory) {
    let mut memory = Memory::new();
    init(&mut memory, offset);
    let mut tables = PageTableMemory::new();
    tables.write_table(root + offset, PageTable::zeroed());
    (memory, tables)
}

#[test]
fn active_level_4_table_address() {
    let mut memory = Memory::new();
    init(&mut memory, 0x1_0000_0000);
    assert_eq!(memory.active_lvl_4_pt(0x5000), 0x1_0000_5000);
}

#[test]
fn translate_unmapped_is_none() {
    let (memory, tables) = memory_with_root(0, 0x1000);
    assert!(memory.translate_address(VirtualAddress::new(0xb8000), 0x1000, &tables).is_none());
}

#[test]
fn map_then_translate() {
    let offset: u64 = 0x10_0000_0000;
    let (memory, mut tables) = memory_with_root(offset, 0x1000);
    let mut frames = frame_allocator(0x10000, 0x20000);
    let v = VirtualAddress::new(0x0000_4444_4444_5000);
    let flush = memory
        .map_4kib_page(
            v,
            PhysicalAddress::new(0xb8000),
            PTFlags::Write | PTFlags::Present,
            &mut frames,
            0x1000,
            &mut tables,
        )
        .unwrap();
    assert_eq!(flush.vaddr.as_u64(), 0x0000_4444_4444_5000);
    // three new page tables took three frames
    assert_eq!(frames.allocate_frame(), Some(0x13000));
    let t = memory.translate_address(VirtualAddress::new(0x0000_4444_4444_5abc), 0x1000, &tables);
    assert_eq!(t.map(|p| p.as_u64()), Some(0xb8abc));
    // a page under an unused level 2 entry has no translation
    let u = memory.translate_address(VirtualAddress::new(0x0000_4444_4464_5000), 0x1000, &tables);
    assert!(u.is_none());
    // an unused level 1 entry is not present: no translation either
    let n = memory.translate_address(VirtualAddress::new(0x0000_4444_4444_6010), 0x1000, &tables);
    assert!(n.is_none());
}

#[test]
fn translate_stops_at_entry_not_present() {
    // a level 4 entry that names a frame but lacks the present bit
    let (memory, mut tables) = memory_with_root(0, 0x1000);
    let mut root = PageTable::zeroed();
    root.set(0, PageTableEntry::new(0x2, 0x2)).unwrap();
    tables.write_table(0x1000, root);
    tables.write_table(0x2000, PageTable::zeroed());
    assert!(memory.translate_address(VirtualAddress::new(0x5000), 0x1000, &tables).is_none());
}

#[test]
fn vga_address_translation() {
    // the VGA page identity-mapped, as the bootloader does
    let (memory, mut tables) = memory_with_root(0, 0x1000);
    let mut frames = frame_allocator(0x10000, 0x20000);
    memory
        .map_4kib_page(
            VirtualAddress::new(0xb8000),
            PhysicalAddress::new(0xb8000),
            PTFlags::Write | PTFlags::Present,
            &mut frames,
            0x1000,
            &mut tables,
        )
        .unwrap();
    let vga_vaddr = 0xb8000;
    let vga_paddr = memory.translate_address(VirtualAddress::new(vga_vaddr), 0x1000, &tables);
    assert_eq!(vga_vaddr, vga_paddr.unwrap().as_u64());
}

#[test]
fn map_fails_without_frames() {
    let (memory, mut tables) = memory_with_root(0, 0x1000);
    let map = vec![MemoryRegion { start_addr: 0, end_addr: 0x1000, usable: false }];
    let mut frames = BootInfoFrameAllocator::init(usable_frames(&map));
    let r = memory.map_4kib_page(
        VirtualAddress::new(0x5000),
        PhysicalAddress::new(0xb8000),
        3,
        &mut frames,
        0x1000,
        &mut tables,
    );
    assert!(matches!(r, Err(e) if e == "Allocation for new frame failed. Unable to update mapping."));
}

#[test]
fn round_log_values() {
    assert_eq!(round_log(0), 0);
    assert_eq!(round_log(1), 0);
    assert_eq!(round_log(2), 1);
    assert_eq!(round_log(3), 2);
    assert_eq!(round_log(32), 5);
    assert_eq!(round_log(33), 6);
    assert_eq!(round_log(1 << 20), 20);
    assert_eq!(round_log(0x8000_0000_0000_0000), 63);
}

#[test]
fn buddy_header_fields() {
    let h = BuddyHeader::new(7, true);
    assert!(h.is_available());
    assert_eq!(h.size(), 7);
    let n = BuddyNode::new(9, false);
    assert!(!n.header.is_available());
    assert_eq!(n.header.size(), 9);
    assert!(n.next.is_none());
    assert!(n.previous.is_none());
}

#[test]
fn buddy_free_list_index_and_buddies() {
    let a = BinaryBuddyAllocator::new();
    assert_eq!(a.get_free_list_index(20), Some(0));
    assert_eq!(a.get_free_list_index(5), Some(15));
    assert_eq!(a.get_free_list_index(4), None);
    assert_eq!(a.get_free_list_index(21), None);
    let p = KernelPointer::new(VirtualAddress::new(HEAP_START + 0x40));
    assert_eq!(BinaryBuddyAllocator::buddy_address(p, 6).ptr, HEAP_START);
    assert_eq!(BinaryBuddyAllocator::buddy_address(p, 5).ptr, HEAP_START + 0x60);
    // the buddy's buddy is the block itself
    let b = BinaryBuddyAllocator::buddy_address(p, 9);
    assert_eq!(BinaryBuddyAllocator::buddy_address(b, 9).ptr, p.ptr);
}

fn heap() -> BinaryBuddyAllocator {
    let mut a = BinaryBuddyAllocator::new();
    a.init(KernelPointer::new(VirtualAddress::new(HEAP_START)));
    a
}

#[test]
fn buddy_allocations_do_not_overlap() {
    let mut a = heap();
    let x = a.allocate(100, 0);
    let y = a.allocate(100, 0);
    let z = a.allocate(20, 0);
    assert!(x != 0 && y != 0 && z != 0);
    for p in [x, y, z] {
        assert!(p >= HEAP_START + 8);
        assert!(p < HEAP_START + 0x10_0000);
    }
    // blocks of 128 bytes for 100 bytes and the header, of 32 for 20
    assert!(x.abs_diff(y) >= 128);
    assert!(z.abs_diff(x) >= 32 && z.abs_diff(y) >= 32);
}

#[test]
fn buddy_whole_heap_then_nothing() {
    let mut a = heap();
    // the whole 1 MiB, less the header
    let x = a.allocate(0x10_0000 - 8, 0);
    assert_eq!(x, HEAP_START + 8);
    assert_eq!(a.allocate(1, 0), 0);
    a.deallocate(x, 0);
    // freed, the heap can be handed out again whole
    assert_eq!(a.allocate(0x10_0000 - 8, 0), HEAP_START + 8);
}

#[test]
fn buddy_too_big_is_null() {
    let mut a = heap();
    assert_eq!(a.allocate(0x10_0000, 0), 0);
    // nothing changed: the whole heap is still free
    assert_eq!(a.allocate(0x10_0000 - 8, 0), HEAP_START + 8);
}

#[test]
fn buddy_free_merges_back() {
    let mut a = heap();
    let x = a.allocate(24, 0);
    let y = a.allocate(24, 0);
    assert!(x != 0 && y != 0 && x != y);
    a.deallocate(y, 0);
    a.deallocate(x, 0);
    // after both are freed the buddies merge back into the whole heap
    assert_eq!(a.allocate(0x10_0000 - 8, 0), HEAP_START + 8);
}

#[test]
fn buddy_reuses_freed_block() {
    let mut a = heap();
    let x = a.allocate(50, 0);
    a.deallocate(x, 0);
    let y = a.allocate(50, 0);
    assert_eq!(x, y);
}

#[test]
fn buddy_default_is_empty() {
    let mut a = BinaryBuddyAllocator::default();
    // no heap given: nothing to hand out
    assert_eq!(a.allocate(8, 0), 0);
}

#[test]
fn buddy_honours_alignment() {
    let mut a = heap();
    let x = a.allocate(100, 4);
    assert!(x != 0);
    assert_eq!(x % 16, 0);
    let y = a.allocate(10, 12);
    assert!(y != 0);
    assert_eq!(y % 4096, 0);
    // an alignment beyond what the heap start gives is refused
    assert_eq!(a.allocate(1, 19), 0);
    a.deallocate(y, 12);
    a.deallocate(x, 4);
    // both freed, the whole heap is one block again
    assert_eq!(a.allocate(0x10_0000 - 8, 0), HEAP_START + 8);
}

#[test]
fn buddy_smaller_free_buddy_is_not_merged() {
    let mut a = heap();
    // A of 64 bytes at offset 0, B and C of 32 bytes at 64 and 96
    let pa = a.allocate(56, 0);
    let pb = a.allocate(24, 0);
    let pc = a.allocate(24, 0);
    assert_eq!(pa, HEAP_START + 8);
    assert_eq!(pb, HEAP_START + 64 + 8);
    assert_eq!(pc, HEAP_START + 96 + 8);
    a.deallocate(pb, 0);
    // the buddy of A is B, free but smaller: A stays a block of its own
    a.deallocate(pa, 0);
    assert_eq!(a.allocate(56, 0), HEAP_START + 8);
    assert_eq!(a.allocate(24, 0), HEAP_START + 64 + 8);
}

#[test]
fn heap_init_maps_heap_and_frees_it_whole() {
    let (memory, mut tables) = memory_with_root(0, 0x1000);
    let mut frames = frame_allocator(0x10000, 0x20_0000);
    let mut allocator = BinaryBuddyAllocator::new();
    let mut flushes = Vec::new();
    let r = init_heap(&memory, &mut frames, 0x1000, &mut tables, &mut allocator, &mut flushes);
    assert_eq!(r, Ok(()));
    assert_eq!(flushes.len(), 256);
    // one flush per page, in the order of the pages
    assert_eq!(flushes[0].vaddr.as_u64(), HEAP_START);
    assert_eq!(flushes[1].vaddr.as_u64(), HEAP_START + 0x1000);
    assert_eq!(flushes[255].vaddr.as_u64(), HEAP_START + 0xF_F000);
    // the heap's first page went to the first frame, the three tables to the next ones
    let t = memory.translate_address(VirtualAddress::new(HEAP_START + 0x123), 0x1000, &tables);
    assert_eq!(t.map(|p| p.as_u64()), Some(0x10123));
    // the whole heap is one free block
    assert_eq!(allocator.allocate(0x10_0000 - 8, 0), HEAP_START + 8);
}

#[test]
fn heap_init_without_frames_fails() {
    let (memory, mut tables) = memory_with_root(0, 0x1000);
    let map = vec![MemoryRegion { start_addr: 0, end_addr: 0x1000, usable: false }];
    let mut frames = BootInfoFrameAllocator::init(usable_frames(&map));
    let mut allocator = BinaryBuddyAllocator::new();
    let mut flushes = Vec::new();
    let r = init_heap(&memory, &mut frames, 0x1000, &mut tables, &mut allocator, &mut flushes);
    assert_eq!(r, Err("heap init: allocation failed"));
    assert!(flushes.is_empty());
}

#[test]
fn heap_init_without_table_frames_fails() {
    // one frame for the first page, none for the page tables it needs
    let (memory, mut tables) = memory_with_root(0, 0x1000);
    let mut frames = frame_allocator(0x10000, 0x11000);
    let mut allocator = BinaryBuddyAllocator::new();
    let mut flushes = Vec::new();
    let r = init_heap(&memory, &mut frames, 0x1000, &mut tables, &mut allocator, &mut flushes);
    assert_eq!(r, Err("Allocation for new frame failed. Unable to update mapping."));
    // no page was mapped, so nothing is to be flushed
    assert!(flushes.is_empty());
}

#[test]
fn memory_offset_once_set() {
    let mut memory = Memory::new();
    assert_eq!(memory.physical_memory_offset(), None);
    init(&mut memory, 0x1_0000_0000);
    assert_eq!(memory.physical_memory_offset(), Some(0x1_0000_0000));
}
