use crate::memory::addr::{FlusherVirtualAddress, PhysicalAddress, VirtualAddress};
use crate::memory::frame_allocator::BootInfoFrameAllocator;
use crate::memory::page_table::{PTFlags, PageTable, MAX_ENTRIES};
use crate::memory::{
    entries_written_with, frame_shortage_message, lemma_map_written_with, map_ok, spec_map, Memory,
    PageTableMemory,
};
use crate::utils::KernelPointer;
use vstd::prelude::*;

pub mod buddy;

use buddy::{block_range, fully_coalesced, BinaryBuddyAllocator, BuddyNode};

verus! {

/// Start of the heap's virtual memory region.
pub const HEAP_START: u64 = 0x_4444_4444_0000;

/// Base-2 logarithm of the heap size.
pub const HEAP_LOG_SIZE: u64 = 20;

/// Heap size: 1 MiB, `2^20` bytes.
pub const HEAP_SIZE: u64 = 0x10_0000;

/// Number of 4 KiB pages of the heap.
pub const HEAP_PAGES: u64 = 256;

/// Flags of the heap's pages: writable and present.
pub const HEAP_PAGE_FLAGS: u64 = 3;

/// Mapping the heap's pages from page `i` on, each to the next frame of the allocator:
/// the page tables, the frames left, and whether every page was mapped.
pub open spec fn spec_map_heap_pages(
    tables: Map<u64, PageTable>,
    frames: Seq<u64>,
    root: u64,
    offset: u64,
    i: nat,
) -> (Map<u64, PageTable>, Seq<u64>, bool)
    decreases HEAP_PAGES - i,
{
    if i >= HEAP_PAGES {
        (tables, frames, true)
    } else if frames.len() == 0 {
        (tables, frames, false)
    } else {
        let (t2, f2, mapped) = spec_map(
            tables,
            frames.drop_first(),
            root,
            (HEAP_START + i * 4096) as u64,
            frames[0],
            HEAP_PAGE_FLAGS,
            offset,
        );
        if !mapped {
            (t2, f2, false)
        } else {
            spec_map_heap_pages(t2, f2, root, offset, i + 1)
        }
    }
}

/// Whether mapping the heap's pages from page `i` on stops because no frame is left for a
/// page; it stops otherwise where a new page table finds no frame.
pub open spec fn heap_frames_run_out(
    tables: Map<u64, PageTable>,
    frames: Seq<u64>,
    root: u64,
    offset: u64,
    i: nat,
) -> bool
    decreases HEAP_PAGES - i,
{
    if i >= HEAP_PAGES {
        false
    } else if frames.len() == 0 {
        true
    } else {
        let (t2, f2, mapped) = spec_map(
            tables,
            frames.drop_first(),
            root,
            (HEAP_START + i * 4096) as u64,
            frames[0],
            HEAP_PAGE_FLAGS,
            offset,
        );
        mapped && heap_frames_run_out(t2, f2, root, offset, i + 1)
    }
}

/// How many of the heap's pages, from page `i` on, get mapped before a frame runs out.
pub open spec fn heap_pages_mapped(
    tables: Map<u64, PageTable>,
    frames: Seq<u64>,
    root: u64,
    offset: u64,
    i: nat,
) -> nat
    decreases HEAP_PAGES - i,
{
    if i >= HEAP_PAGES || frames.len() == 0 {
        0
    } else {
        let (t2, f2, mapped) = spec_map(
            tables,
            frames.drop_first(),
            root,
            (HEAP_START + i * 4096) as u64,
            frames[0],
            HEAP_PAGE_FLAGS,
            offset,
        );
        if mapped {
            1 + heap_pages_mapped(t2, f2, root, offset, i + 1)
        } else {
            0
        }
    }
}

/// What `init_heap` answers when no frame is left for a heap page.
pub open spec fn heap_shortage_message() -> Seq<char> {
    "heap init: allocation failed"@
}

/// Every mapping of the heap's pages from page `i` on reads only tables that are there.
pub open spec fn map_heap_pages_ok(
    tables: Map<u64, PageTable>,
    frames: Seq<u64>,
    root: u64,
    offset: u64,
    i: nat,
) -> bool
    decreases HEAP_PAGES - i,
{
    i < HEAP_PAGES && frames.len() > 0 ==> {
        let (t2, f2, mapped) = spec_map(
            tables,
            frames.drop_first(),
            root,
            (HEAP_START + i * 4096) as u64,
            frames[0],
            HEAP_PAGE_FLAGS,
            offset,
        );
        &&& map_ok(tables, frames.drop_first(), root, (HEAP_START + i * 4096) as u64, HEAP_PAGE_FLAGS, offset)
        &&& mapped ==> map_heap_pages_ok(t2, f2, root, offset, i + 1)
    }
}

/// Mapping the heap's pages writes only page table entries that are present and
/// writable, with no other flag bit: the heap's own level 1 entries, and the entries that
/// point at the tables made for them.
pub proof fn lemma_heap_entries_present_writable(
    tables: Map<u64, PageTable>,
    frames: Seq<u64>,
    root: u64,
    offset: u64,
    i: nat,
)
    requires
        map_heap_pages_ok(tables, frames, root, offset, i),
    ensures
        entries_written_with(tables, spec_map_heap_pages(tables, frames, root, offset, i).0, 0b11),
    decreases HEAP_PAGES - i,
{
    if i < HEAP_PAGES && frames.len() > 0 {
        let v = (HEAP_START + i * 4096) as u64;
        let (t2, f2, mapped) = spec_map(tables, frames.drop_first(), root, v, frames[0], HEAP_PAGE_FLAGS, offset);
        lemma_map_written_with(tables, frames.drop_first(), root, v, frames[0], HEAP_PAGE_FLAGS, offset);
        if mapped {
            lemma_heap_entries_present_writable(t2, f2, root, offset, i + 1);
            let fin = spec_map_heap_pages(t2, f2, root, offset, i + 1).0;
            assert forall|x: u64, j: int|
                fin.contains_key(x) && 0 <= j < MAX_ENTRIES && #[trigger] fin[x].entry_bits(j) != 0 && !(
                tables.contains_key(x) && tables[x].entry_bits(j) == fin[x].entry_bits(j)) implies fin[x].entry_bits(j)
                & 0xFFF == 0b11u64 & 0xFFF by {
                if t2.contains_key(x) && t2[x].entry_bits(j) == fin[x].entry_bits(j) {
                    assert(t2[x].entry_bits(j) != 0);
                }
            }
        }
    }
}

/// Maps the heap's virtual memory region to physical frames, one 4 KiB page after the
/// other, then makes the whole heap the allocator's one free block. The addresses to
/// flush from the TLB are pushed to `flushes`.
#[verifier::loop_isolation(false)]
pub fn init_heap(
    memory: &Memory,
    frame_allocator: &mut BootInfoFrameAllocator,
    lvl_4_pt_physical_addr: u64,
    tables: &mut PageTableMemory,
    allocator: &mut BinaryBuddyAllocator,
    flushes: &mut Vec<FlusherVirtualAddress>,
) -> (r: Result<(), &'static str>)
    requires
        memory.spec_offset() is Some,
        lvl_4_pt_physical_addr + memory.spec_offset()->0 <= u64::MAX,
        old(frame_allocator).wf(),
        map_heap_pages_ok(
            old(tables)@,
            old(frame_allocator)@,
            (lvl_4_pt_physical_addr + memory.spec_offset()->0) as u64,
            memory.spec_offset()->0,
            0,
        ),
    ensures
        final(frame_allocator).wf(),
        ({
            let (t, f, ok) = spec_map_heap_pages(
                old(tables)@,
                old(frame_allocator)@,
                (lvl_4_pt_physical_addr + memory.spec_offset()->0) as u64,
                memory.spec_offset()->0,
                0,
            );
            &&& final(tables)@ == t
            &&& final(frame_allocator)@ == f
            &&& ok <==> r is Ok
            &&& !ok && heap_frames_run_out(
                old(tables)@,
                old(frame_allocator)@,
                (lvl_4_pt_physical_addr + memory.spec_offset()->0) as u64,
                memory.spec_offset()->0,
                0,
            ) ==> (r matches Err(e) && e@ == heap_shortage_message())
            &&& !ok && !heap_frames_run_out(
                old(tables)@,
                old(frame_allocator)@,
                (lvl_4_pt_physical_addr + memory.spec_offset()->0) as u64,
                memory.spec_offset()->0,
                0,
            ) ==> (r matches Err(e) && e@ == frame_shortage_message())
            &&& !ok ==> *final(allocator) == *old(allocator)
            &&& ok ==> final(allocator).spec_lists() == old(allocator).spec_lists().update(0, seq![HEAP_START])
            &&& ok ==> final(allocator).spec_blocks() == old(allocator).spec_blocks().insert(HEAP_START, HEAP_LOG_SIZE)
            &&& ok && old(allocator).is_empty() && old(allocator).wf() ==> final(allocator).wf()
            &&& ok && old(allocator).is_empty() ==> final(allocator).free_bytes() == block_range(HEAP_START, HEAP_LOG_SIZE)
            &&& ok && old(allocator).is_empty() ==> fully_coalesced(final(allocator).free_blocks())
        }),
        entries_written_with(old(tables)@, final(tables)@, 0b11),
        ({
            let n = heap_pages_mapped(
                old(tables)@,
                old(frame_allocator)@,
                (lvl_4_pt_physical_addr + memory.spec_offset()->0) as u64,
                memory.spec_offset()->0,
                0,
            );
            &&& final(flushes)@.len() == old(flushes)@.len() + n
            &&& final(flushes)@.subrange(0, old(flushes)@.len() as int) == old(flushes)@
            &&& forall|j: int|
                0 <= j < n ==> #[trigger] final(flushes)@[old(flushes)@.len() + j].vaddr.addr == HEAP_START
                    + j * 4096
            &&& r is Ok ==> n == HEAP_PAGES
        }),
{
    let four_kib: u64 = 4096;
    let total_pages = HEAP_SIZE >> 12;
    assert(0x10_0000u64 >> 12u64 == 256) by (bit_vector);
    let mut current_vaddr = HEAP_START;
    let flags = PTFlags::Write | PTFlags::Present;
    assert(flags == HEAP_PAGE_FLAGS) by (bit_vector)
        requires
            flags == (1u64 << 1u64) | (1u64 << 0u64),
    ;
    let ghost root = (lvl_4_pt_physical_addr + memory.spec_offset()->0) as u64;
    let ghost offset = memory.spec_offset()->0;
    let ghost whole = spec_map_heap_pages(old(tables)@, old(frame_allocator)@, root, offset, 0);
    let ghost run_out = heap_frames_run_out(old(tables)@, old(frame_allocator)@, root, offset, 0);
    let ghost n = heap_pages_mapped(old(tables)@, old(frame_allocator)@, root, offset, 0);
    let ghost f0 = flushes@;
    proof {
        lemma_heap_entries_present_writable(old(tables)@, old(frame_allocator)@, root, offset, 0);
    }
    let mut i: u64 = 0;
    while i < total_pages
        invariant
            total_pages == HEAP_PAGES,
            i <= HEAP_PAGES,
            current_vaddr == HEAP_START + i * 4096,
            flags == HEAP_PAGE_FLAGS,
            memory.spec_offset() is Some,
            lvl_4_pt_physical_addr + memory.spec_offset()->0 <= u64::MAX,
            root == (lvl_4_pt_physical_addr + memory.spec_offset()->0) as u64,
            offset == memory.spec_offset()->0,
            frame_allocator.wf(),
            map_heap_pages_ok(tables@, frame_allocator@, root, offset, i as nat),
            spec_map_heap_pages(tables@, frame_allocator@, root, offset, i as nat) == whole,
            heap_frames_run_out(tables@, frame_allocator@, root, offset, i as nat) == run_out,
            i + heap_pages_mapped(tables@, frame_allocator@, root, offset, i as nat) == n,
            flushes@.len() == f0.len() + i,
            flushes@.subrange(0, f0.len() as int) == f0,
            forall|j: int| 0 <= j < i ==> #[trigger] flushes@[f0.len() + j].vaddr.addr == HEAP_START + j * 4096,
            *allocator == *old(allocator),
        decreases HEAP_PAGES - i,
    {
        // a physical frame for the current virtual page
        let ghost frames_before = frame_allocator@;
        let frame = frame_allocator.allocate_frame();
        let frame = match frame {
            Some(frame) => frame,
            None => {
                assert(frame_allocator@ =~= frames_before);
                assert(i < HEAP_PAGES);
                assert(spec_map_heap_pages(tables@, frames_before, root, offset, i as nat) == (tables@, frames_before, false));
                assert(whole == (tables@, frame_allocator@, false));
                assert(run_out);
                assert(heap_pages_mapped(tables@, frames_before, root, offset, i as nat) == 0);
                return Err("heap init: allocation failed");
            },
        };
        // map the virtual page to the frame
        let ghost tables_before = tables@;
        let mapped = memory.map_4kib_page(
            VirtualAddress::new(current_vaddr),
            PhysicalAddress::new(frame),
            flags,
            frame_allocator,
            lvl_4_pt_physical_addr,
            tables,
        );
        let flush = match mapped {
            Ok(flush) => flush,
            Err(e) => {
                assert(spec_map_heap_pages(tables_before, frames_before, root, offset, i as nat) == (tables@, frame_allocator@, false));
                assert(whole == (tables@, frame_allocator@, false));
                assert(!run_out);
                assert(heap_pages_mapped(tables_before, frames_before, root, offset, i as nat) == 0);
                return Err(e);
            },
        };
        let ghost fl_before = flushes@;
        flushes.push(flush);
        proof {
            assert(heap_pages_mapped(tables_before, frames_before, root, offset, i as nat) == 1
                + heap_pages_mapped(tables@, frame_allocator@, root, offset, (i + 1) as nat));
            assert(flushes@[f0.len() + i].vaddr.addr == HEAP_START + i * 4096);
            assert(flushes@.subrange(0, f0.len() as int) =~= fl_before.subrange(0, f0.len() as int));
            assert forall|j: int| 0 <= j < i + 1 implies #[trigger] flushes@[f0.len() + j].vaddr.addr
                == HEAP_START + j * 4096 by {
                if j < i {
                    assert(flushes@[f0.len() + j] == fl_before[f0.len() + j]);
                }
            }
        }
        assert(i < HEAP_PAGES);
        assert(current_vaddr + 4096 <= u64::MAX);
        // the virtual address of the next page
        current_vaddr += four_kib;
        i += 1;
    }
    assert(heap_pages_mapped(tables@, frame_allocator@, root, offset, i as nat) == 0);
    allocator.init(KernelPointer::new(VirtualAddress::new(HEAP_START)));
    Ok(())
}

} // verus!
