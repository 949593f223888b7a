use vstd::prelude::*;
use x86_64::structures::paging::{PhysFrame, Size4KiB};
use x86_64::PhysAddr;

verus! {

/// Size of a frame: 4 KiB.
pub const FRAME_SIZE: u64 = 4096;

/// Physical addresses have 52 bits.
pub const PHYS_ADDR_LIMIT: u64 = 0x10_0000_0000_0000;

/// A region of the boot memory map: `[start_addr, end_addr)`, and whether it is usable
/// RAM.
#[derive(Debug, Clone, Copy)]
pub struct MemoryRegion {
    pub start_addr: u64,
    pub end_addr: u64,
    pub usable: bool,
}

/// The start of the 4 KiB frame that holds `a`.
pub open spec fn frame_start(a: u64) -> u64 {
    a & !0xFFFu64
}

/// The frames that stepping through `[start, end)` by 4 KiB meets.
pub open spec fn range_frames(start: u64, end: u64) -> Seq<u64>
    decreases end - start,
{
    if start >= end {
        seq![]
    } else if start + FRAME_SIZE >= end {
        seq![frame_start(start)]
    } else {
        seq![frame_start(start)] + range_frames((start + FRAME_SIZE) as u64, end)
    }
}

/// The frames of a sequence of ranges, one range after the other.
pub open spec fn ranges_frames(ranges: Seq<(u64, u64)>) -> Seq<u64>
    decreases ranges.len(),
{
    if ranges.len() == 0 {
        seq![]
    } else {
        range_frames(ranges[0].0, ranges[0].1) + ranges_frames(ranges.drop_first())
    }
}

/// The ranges of the usable regions of a memory map, in order.
pub open spec fn usable_ranges(map: Seq<MemoryRegion>) -> Seq<(u64, u64)>
    decreases map.len(),
{
    if map.len() == 0 {
        seq![]
    } else if map[0].usable {
        seq![(map[0].start_addr, map[0].end_addr)] + usable_ranges(map.drop_first())
    } else {
        usable_ranges(map.drop_first())
    }
}

/// The frame that holds `x` starts at most 4 KiB below it, on a 4 KiB boundary, and the
/// frame 4 KiB further on is the next one.
proof fn lemma_frame_start(x: u64)
    requires
        x < PHYS_ADDR_LIMIT,
    ensures
        frame_start(x) <= x < frame_start(x) + FRAME_SIZE,
        frame_start(x) % FRAME_SIZE == 0,
        frame_start((x + FRAME_SIZE) as u64) == frame_start(x) + FRAME_SIZE,
{
    assert(frame_start(x) <= x < frame_start(x) + 4096 && frame_start(x) % 4096 == 0 && frame_start(
        (x + 4096) as u64,
    ) == frame_start(x) + 4096) by (bit_vector)
        requires
            x < 0x10_0000_0000_0000u64,
    ;
}

/// The frames of a range are the consecutive 4 KiB frames from the one that holds its
/// start, each met once, in increasing order, all starting below its end: no frame is
/// handed out twice.
pub proof fn lemma_range_frames_consecutive(start: u64, end: u64)
    requires
        end <= PHYS_ADDR_LIMIT,
    ensures
        forall|i: int|
            0 <= i < range_frames(start, end).len() ==> #[trigger] range_frames(start, end)[i]
                == frame_start(start) + FRAME_SIZE * i && range_frames(start, end)[i] < end,
    decreases end - start,
{
    if start < end {
        lemma_frame_start(start);
        if start + FRAME_SIZE < end {
            let next = (start + FRAME_SIZE) as u64;
            lemma_range_frames_consecutive(next, end);
            let rest = range_frames(next, end);
            assert forall|i: int| 0 <= i < range_frames(start, end).len() implies #[trigger] range_frames(
                start,
                end,
            )[i] == frame_start(start) + FRAME_SIZE * i && range_frames(start, end)[i] < end by {
                if i > 0 {
                    assert(range_frames(start, end)[i] == rest[i - 1]);
                }
            }
        }
    }
}

/// `x86_64::structures::paging::PhysFrame::<Size4KiB>::containing_address`, given the
/// address made by `x86_64::PhysAddr::new`: the start of the frame that holds `addr`.
/// `PhysAddr::new` panics when any of the bits 52 to 63 is set.
#[verifier::external_body]
fn containing_frame_start(addr: u64) -> (r: u64)
    requires
        addr < PHYS_ADDR_LIMIT,
    ensures
        r == frame_start(addr),
{
    PhysFrame::<Size4KiB>::containing_address(PhysAddr::new(addr)).start_address().as_u64()
}

/// The frames of the usable regions of the boot memory map, handed out one at a time.
pub struct UsableFrames {
    ranges: Vec<(u64, u64)>,
    region: usize,
    next_addr: u64,
}

impl View for UsableFrames {
    type V = Seq<u64>;

    /// The frames still to come.
    closed spec fn view(&self) -> Seq<u64> {
        if self.region < self.ranges@.len() {
            range_frames(self.next_addr, self.ranges@[self.region as int].1) + ranges_frames(
                self.ranges@.subrange(self.region + 1, self.ranges@.len() as int),
            )
        } else {
            seq![]
        }
    }
}

impl UsableFrames {
    /// Every range ends below the physical address limit.
    pub closed spec fn wf(&self) -> bool {
        forall|i: int| 0 <= i < self.ranges@.len() ==> #[trigger] self.ranges@[i].1 <= PHYS_ADDR_LIMIT
    }

    /// Number of ranges from the current one on.
    pub closed spec fn regions_left(&self) -> int {
        self.ranges@.len() - self.region
    }

    /// The next frame, if any remain.
    pub fn next_frame(&mut self) -> (r: Option<u64>)
        requires
            old(self).wf(),
        ensures
            final(self).wf(),
            old(self)@.len() == 0 ==> r is None && final(self)@.len() == 0,
            old(self)@.len() > 0 ==> r == Some(old(self)@[0]) && final(self)@ == old(self)@.drop_first(),
        decreases old(self).regions_left(),
    {
        if self.region >= self.ranges.len() {
            return None;
        }
        let end = self.ranges[self.region].1;
        if self.next_addr < end {
            let f = containing_frame_start(self.next_addr);
            proof {
                reveal_with_fuel(range_frames, 2);
            }
            self.next_addr = self.next_addr + FRAME_SIZE;
            return Some(f);
        }
        let ghost old_self = *self;
        self.region = self.region + 1;
        if self.region < self.ranges.len() {
            self.next_addr = self.ranges[self.region].0;
        }
        proof {
            assert(range_frames(old_self.next_addr, end) == Seq::<u64>::empty());
            let rs = old_self.ranges@.subrange(old_self.region + 1, old_self.ranges@.len() as int);
            if self.region < self.ranges@.len() {
                assert(rs[0] == self.ranges@[self.region as int]);
                assert(rs.drop_first() =~= self.ranges@.subrange(self.region + 1, self.ranges@.len() as int));
            } else {
                assert(rs.len() == 0);
            }
        }
        self.next_frame()
    }
}

/// The frames of the usable regions of the boot memory map, in order.
pub fn usable_frames(memory_map: &Vec<MemoryRegion>) -> (r: UsableFrames)
    requires
        forall|i: int| 0 <= i < memory_map@.len() && #[trigger] memory_map@[i].usable ==> memory_map@[i].end_addr <= PHYS_ADDR_LIMIT,
    ensures
        r.wf(),
        r@ == ranges_frames(usable_ranges(memory_map@)),
{
    let mut ranges: Vec<(u64, u64)> = Vec::new();
    let mut i: usize = 0;
    assert(memory_map@.subrange(0, memory_map@.len() as int) =~= memory_map@);
    assert(ranges@ + usable_ranges(memory_map@) =~= usable_ranges(memory_map@));
    while i < memory_map.len()
        invariant
            i <= memory_map@.len(),
            forall|i: int| 0 <= i < memory_map@.len() && #[trigger] memory_map@[i].usable ==> memory_map@[i].end_addr <= PHYS_ADDR_LIMIT,
            usable_ranges(memory_map@) == ranges@ + usable_ranges(memory_map@.subrange(i as int, memory_map@.len() as int)),
            forall|j: int| 0 <= j < ranges@.len() ==> #[trigger] ranges@[j].1 <= PHYS_ADDR_LIMIT,
        decreases memory_map@.len() - i,
    {
        let region = memory_map[i];
        let ghost rest = memory_map@.subrange(i as int, memory_map@.len() as int);
        assert(rest[0] == region);
        assert(rest.drop_first() =~= memory_map@.subrange(i + 1, memory_map@.len() as int));
        if region.usable {
            ranges.push((region.start_addr, region.end_addr));
            assert(usable_ranges(memory_map@) =~= ranges@ + usable_ranges(rest.drop_first()));
        }
        i = i + 1;
    }
    assert(memory_map@.subrange(i as int, memory_map@.len() as int).len() == 0);
    assert(ranges@ + usable_ranges(memory_map@.subrange(i as int, memory_map@.len() as int)) =~= ranges@);
    let first = if ranges.len() > 0 {
        ranges[0].0
    } else {
        0
    };
    let r = UsableFrames { ranges, region: 0, next_addr: first };
    proof {
        let rs = r.ranges@;
        if rs.len() > 0 {
            assert(rs.subrange(1, rs.len() as int) =~= rs.drop_first());
        }
    }
    r
}

/// Hands out the frames of the usable regions of the boot memory map. A usable frame is
/// not known to be unused: the caller vouches for that.
pub struct BootInfoFrameAllocator {
    usable_frames: UsableFrames,
}

impl View for BootInfoFrameAllocator {
    type V = Seq<u64>;

    /// The frames still to hand out.
    closed spec fn view(&self) -> Seq<u64> {
        self.usable_frames@
    }
}

impl BootInfoFrameAllocator {
    pub closed spec fn wf(&self) -> bool {
        self.usable_frames.wf()
    }

    pub fn init(usable_frames: UsableFrames) -> (r: Self)
        requires
            usable_frames.wf(),
        ensures
            r.wf(),
            r@ == usable_frames@,
    {
        BootInfoFrameAllocator { usable_frames }
    }

    /// The start address of the next usable frame, if any remain.
    pub fn allocate_frame(&mut self) -> (r: Option<u64>)
        requires
            old(self).wf(),
        ensures
            final(self).wf(),
            old(self)@.len() == 0 ==> r is None && final(self)@.len() == 0,
            old(self)@.len() > 0 ==> r == Some(old(self)@[0]) && final(self)@ == old(self)@.drop_first(),
    {
        self.usable_frames.next_frame()
    }
}

} // verus!
