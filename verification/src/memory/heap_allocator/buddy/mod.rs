use super::{HEAP_LOG_SIZE, HEAP_START};
use crate::utils::KernelPointer;
use crate::memory::addr::VirtualAddress;
use std::collections::HashMap;
use vstd::arithmetic::power2::{lemma2_to64, lemma2_to64_rest, lemma_pow2_strictly_increases, lemma_pow2_unfold, pow2};
use vstd::prelude::*;

mod buddy_node;
pub use buddy_node::{BuddyHeader, BuddyNode};

verus! {

broadcast use vstd::std_specs::hash::group_hash_axioms;

/// Base-2 logarithm of the smallest block: 32 bytes, room for a node.
pub const MIN_BLOCK_SIZE_LOG: u64 = 5;

/// Number of free lists: one per block size from `2^20` down to `2^5`.
pub const NUM_FREE_LISTS: usize = 16;

/// Bytes of the header that starts every block.
pub const HEADER_SIZE: u64 = 8;

/// The mask of the `k` low bits.
pub open spec fn low_mask(k: u64) -> u64 {
    !(0xFFFF_FFFF_FFFF_FFFFu64 << k)
}

/// Offset of an address from the start of the heap.
pub open spec fn heap_offset(a: u64) -> u64 {
    (a - HEAP_START) as u64
}

/// Number of bytes of a block of size log `k`.
pub open spec fn block_bytes(k: u64) -> int {
    (1u64 << k) as int
}

/// A block of `2^k` bytes at `a`: a size the allocator handles, inside the heap, and
/// aligned to its size relative to the heap's start.
pub open spec fn block_ok(a: u64, k: u64) -> bool {
    &&& MIN_BLOCK_SIZE_LOG <= k <= HEAP_LOG_SIZE
    &&& HEAP_START <= a
    &&& heap_offset(a) < 0x10_0000
    &&& heap_offset(a) & low_mask(k) == 0
}

/// Two blocks do not overlap.
pub open spec fn disjoint(a: u64, ka: u64, b: u64, kb: u64) -> bool {
    a + block_bytes(ka) <= b || b + block_bytes(kb) <= a
}

/// The buddy of the block at `a` of size log `k`: the block it was split from, or can be
/// merged with, differs from it in bit `k` of the heap offset.
pub open spec fn spec_buddy(a: u64, k: u64) -> u64 {
    ((heap_offset(a) ^ (1u64 << k)) + HEAP_START) as u64
}

/// Free list index of the size log `k`: index 0 holds the 1 MiB blocks.
pub open spec fn list_index(k: u64) -> int {
    HEAP_LOG_SIZE - k
}

/// The address of a pointer held in a free-list link.
pub open spec fn link(p: Option<KernelPointer<BuddyNode>>) -> Option<u64> {
    match p {
        Some(k) => Some(k.ptr),
        None => None,
    }
}

/// The header at `a` says the block is free. Memory that holds no node reads as a
/// header of a block in use.
pub open spec fn h_avail(h: Map<u64, BuddyNode>, a: u64) -> bool {
    h.contains_key(a) && h[a].header.spec_available()
}

/// The size log that the header at `a` holds.
pub open spec fn h_size(h: Map<u64, BuddyNode>, a: u64) -> u64 {
    if h.contains_key(a) {
        h[a].header.spec_size() as u64
    } else {
        0
    }
}

/// The free blocks after freeing the block at `a` of size log `k`: while its buddy is a
/// free block of the same size, the two are merged into the block of twice the size at the
/// lower of them, and the merged block's buddy is looked at in turn; the block that comes
/// out of the merges is free.
pub open spec fn coalesced(free: Map<u64, u64>, a: u64, k: u64) -> Map<u64, u64>
    decreases HEAP_LOG_SIZE - k,
{
    if k < HEAP_LOG_SIZE {
        let b = spec_buddy(a, k);
        if free.contains_key(b) && free[b] == k {
            coalesced(
                free.remove(b),
                if a < b {
                    a
                } else {
                    b
                },
                (k + 1) as u64,
            )
        } else {
            free.insert(a, k)
        }
    } else {
        free.insert(a, k)
    }
}

/// The smallest size log, from `k` up to the heap's, whose free list is not empty.
pub open spec fn smallest_free(lists: Seq<Seq<u64>>, k: u64) -> Option<u64>
    decreases HEAP_LOG_SIZE - k,
{
    if k > HEAP_LOG_SIZE {
        None
    } else if lists[list_index(k)].len() > 0 {
        Some(k)
    } else if k == HEAP_LOG_SIZE {
        None
    } else {
        smallest_free(lists, (k + 1) as u64)
    }
}

/// The size log that `smallest_free` finds has a free list with a block in it.
proof fn lemma_smallest_free_nonempty(lists: Seq<Seq<u64>>, k: u64)
    ensures
        smallest_free(lists, k) matches Some(v) ==> lists[list_index(v)].len() > 0,
    decreases HEAP_LOG_SIZE - k,
{
    if k < HEAP_LOG_SIZE {
        lemma_smallest_free_nonempty(lists, (k + 1) as u64);
    }
}

/// The size log that `smallest_free` finds is at least the one it starts from.
proof fn lemma_smallest_free_ge(lists: Seq<Seq<u64>>, k: u64)
    ensures
        smallest_free(lists, k) matches Some(v) ==> k <= v <= HEAP_LOG_SIZE,
    decreases HEAP_LOG_SIZE - k,
{
    if k < HEAP_LOG_SIZE {
        lemma_smallest_free_ge(lists, (k + 1) as u64);
    }
}

/// The smallest `p` with `2^p >= value`.
pub open spec fn log_ceiling(value: nat) -> nat
    decreases value,
{
    if value <= 1 {
        0
    } else {
        log_ceiling(((value + 1) / 2) as nat) + 1
    }
}

/// `log_ceiling(value)` is the smallest `p` with `2^p >= value`.
pub proof fn lemma_log_ceiling(value: nat)
    ensures
        pow2(log_ceiling(value)) >= value,
        log_ceiling(value) == 0 || pow2((log_ceiling(value) - 1) as nat) < value,
        forall|p: nat| pow2(p) >= value ==> log_ceiling(value) <= p,
    decreases value,
{
    lemma2_to64();
    if value > 1 {
        let c = ((value + 1) / 2) as nat;
        lemma_log_ceiling(c);
        lemma_pow2_unfold(log_ceiling(value));
        assert forall|p: nat| pow2(p) >= value implies log_ceiling(value) <= p by {
            if p == 0 {
                assert(pow2(0) == 1);
            } else {
                lemma_pow2_unfold(p);
                assert(pow2((p - 1) as nat) >= c);
            }
        }
    }
}

/// The largest alignment, as a power of two, that the allocator honours: the heap starts
/// on a multiple of `2^18`.
pub const MAX_ALIGN_LOG: u32 = 18;

/// How far past its block's start an allocation of alignment `2^align_log` begins: after
/// the 8-byte header, or at the first aligned address past it.
pub open spec fn header_offset(align_log: u32) -> u64 {
    if align_log <= 3 {
        HEADER_SIZE
    } else {
        (1u64 << align_log) as u64
    }
}

fn header_offset_of(align_log: u32) -> (r: u64)
    requires
        align_log <= MAX_ALIGN_LOG,
    ensures
        r == header_offset(align_log),
        8 <= r <= 0x4_0000,
{
    if align_log <= 3 {
        8
    } else {
        assert(16 <= (1u64 << align_log) <= 0x4_0000) by (bit_vector)
            requires
                4 <= align_log <= 18,
        ;
        1u64 << align_log
    }
}

/// The size log of the block that holds a request of `size` bytes that begins `offset`
/// bytes past the block's start.
pub open spec fn alloc_size_log(size: nat, offset: nat) -> nat {
    let k = log_ceiling(size + offset);
    if k < MIN_BLOCK_SIZE_LOG {
        MIN_BLOCK_SIZE_LOG as nat
    } else {
        k
    }
}

/// Very trivial way to do it: the smallest `p` with `2^p >= value`.
pub fn round_log(value: u64) -> (r: u8)
    requires
        value <= 0x8000_0000_0000_0000,
    ensures
        r == log_ceiling(value as nat),
{
    let mut power: u8 = 0;
    let mut cvalue: u64 = 1;
    proof {
        lemma2_to64();
        lemma2_to64_rest();
    }
    while cvalue < value
        invariant
            value <= 0x8000_0000_0000_0000,
            cvalue == pow2(power as nat),
            power <= 63,
            power == 0 || pow2((power - 1) as nat) < value,
            pow2(63) == 0x8000_0000_0000_0000,
        decreases 64 - power,
    {
        proof {
            if power >= 63 {
                if power > 63 {
                    lemma_pow2_strictly_increases(63, power as nat);
                }
                assert(false);
            }
            lemma_pow2_unfold((power + 1) as nat);
            if power < 62 {
                lemma_pow2_strictly_increases(power as nat, 62);
            }
        }
        cvalue *= 2;
        power += 1;
    }
    proof {
        lemma_log_ceiling(value as nat);
        let lc = log_ceiling(value as nat);
        if (lc as int) < (power as int) {
            if lc < (power - 1) as nat {
                lemma_pow2_strictly_increases(lc, (power - 1) as nat);
            }
        }
    }
    power
}

/// Splitting the block at heap offset `o` of size log `k + 1` gives the blocks at `o`
/// and `o + 2^k`, buddies of each other.
proof fn lemma_split_offsets(o: u64, k: u64)
    requires
        MIN_BLOCK_SIZE_LOG <= k < HEAP_LOG_SIZE,
        o < 0x10_0000,
        o & low_mask((k + 1) as u64) == 0,
    ensures
        o & low_mask(k) == 0,
        ((o + (1u64 << k)) as u64) & low_mask(k) == 0,
        o + (1u64 << k) < 0x10_0000,
        o ^ (1u64 << k) == o + (1u64 << k),
        ((o + (1u64 << k)) as u64) ^ (1u64 << k) == o,
        (1u64 << ((k + 1) as u64)) == 2 * (1u64 << k),
        32 <= (1u64 << k) <= 0x8_0000,
{
    let k1 = (k + 1) as u64;
    let q = (o + (1u64 << k)) as u64;
    assert(o & !(0xFFFF_FFFF_FFFF_FFFFu64 << k) == 0 && o + (1u64 << k) < 0x10_0000) by (bit_vector)
        requires
            5 <= k < 20,
            k1 == k + 1,
            o < 0x10_0000,
            o & !(0xFFFF_FFFF_FFFF_FFFFu64 << k1) == 0,
    ;
    assert(q & !(0xFFFF_FFFF_FFFF_FFFFu64 << k) == 0 && o ^ (1u64 << k) == q && q ^ (1u64 << k)
        == o) by (bit_vector)
        requires
            5 <= k < 20,
            k1 == k + 1,
            o < 0x10_0000,
            q == o + (1u64 << k),
            o & !(0xFFFF_FFFF_FFFF_FFFFu64 << k1) == 0,
    ;
    assert((1u64 << k1) == 2 * (1u64 << k) && 32 <= (1u64 << k) <= 0x8_0000) by (bit_vector)
        requires
            5 <= k < 20,
            k1 == k + 1,
    ;
}

/// The buddy of the block at heap offset `o` of size log `k`: a block of the same size,
/// next to it, whose own buddy is `o` again; the lower of the two is aligned to twice the
/// size.
proof fn lemma_buddy_offsets(o: u64, k: u64)
    requires
        MIN_BLOCK_SIZE_LOG <= k < HEAP_LOG_SIZE,
        o < 0x10_0000,
        o & low_mask(k) == 0,
    ensures
        (o ^ (1u64 << k)) < 0x10_0000,
        (o ^ (1u64 << k)) & low_mask(k) == 0,
        (o ^ (1u64 << k)) ^ (1u64 << k) == o,
        o & (1u64 << k) == 0 ==> (o ^ (1u64 << k)) == o + (1u64 << k) && o & low_mask(
            (k + 1) as u64,
        ) == 0,
        o & (1u64 << k) != 0 ==> o == (o ^ (1u64 << k)) + (1u64 << k) && (o ^ (1u64 << k))
            & low_mask((k + 1) as u64) == 0,
        (1u64 << ((k + 1) as u64)) == 2 * (1u64 << k),
        32 <= (1u64 << k) <= 0x8_0000,
{
    let k1 = (k + 1) as u64;
    assert((o ^ (1u64 << k)) < 0x10_0000 && (o ^ (1u64 << k)) & !(0xFFFF_FFFF_FFFF_FFFFu64 << k)
        == 0 && (o ^ (1u64 << k)) ^ (1u64 << k) == o) by (bit_vector)
        requires
            5 <= k < 20,
            k1 == k + 1,
            o < 0x10_0000,
            o & !(0xFFFF_FFFF_FFFF_FFFFu64 << k) == 0,
    ;
    assert(o & (1u64 << k) == 0 ==> (o ^ (1u64 << k)) == (o + (1u64 << k)) && o & !(
    0xFFFF_FFFF_FFFF_FFFFu64 << k1) == 0) by (bit_vector)
        requires
            5 <= k < 20,
            k1 == k + 1,
            o < 0x10_0000,
            o & !(0xFFFF_FFFF_FFFF_FFFFu64 << k) == 0,
    ;
    assert(o & (1u64 << k) != 0 ==> o == (o ^ (1u64 << k)) + (1u64 << k) && (o ^ (1u64 << k))
        & !(0xFFFF_FFFF_FFFF_FFFFu64 << k1) == 0) by (bit_vector)
        requires
            5 <= k < 20,
            k1 == k + 1,
            o < 0x10_0000,
            o & !(0xFFFF_FFFF_FFFF_FFFFu64 << k) == 0,
    ;
    assert((1u64 << k1) == 2 * (1u64 << k) && 32 <= (1u64 << k) <= 0x8_0000) by (bit_vector)
        requires
            5 <= k < 20,
            k1 == k + 1,
    ;
}

/// A block aligned to its size inside the heap ends inside the heap.
proof fn lemma_block_end(o: u64, k: u64)
    requires
        MIN_BLOCK_SIZE_LOG <= k <= HEAP_LOG_SIZE,
        o < 0x10_0000,
        o & low_mask(k) == 0,
    ensures
        o + (1u64 << k) <= 0x10_0000,
        32 <= (1u64 << k) <= 0x10_0000,
{
    assert((o + (1u64 << k)) <= 0x10_0000 && 32 <= (1u64 << k) <= 0x10_0000) by (bit_vector)
        requires
            5 <= k <= 20,
            o < 0x10_0000,
            o & !(0xFFFF_FFFF_FFFF_FFFFu64 << k) == 0,
    ;
}

/// The buddy of a block inside the heap is a block of the same size, next to it, and the
/// buddy of the buddy is the block itself; the lower of the two starts the block of
/// twice the size that holds both.
pub proof fn lemma_buddy_involution(a: u64, k: u64)
    requires
        block_ok(a, k),
        k < HEAP_LOG_SIZE,
    ensures
        block_ok(spec_buddy(a, k), k),
        (heap_offset(a) ^ (1u64 << k)) < 0x10_0000,
        spec_buddy(spec_buddy(a, k), k) == a,
        spec_buddy(a, k) == a + block_bytes(k) || a == spec_buddy(a, k) + block_bytes(k),
        block_bytes(k) >= 32,
        block_bytes((k + 1) as u64) == 2 * block_bytes(k),
        block_ok(
            if a < spec_buddy(a, k) {
                a
            } else {
                spec_buddy(a, k)
            },
            (k + 1) as u64,
        ),
{
    let o = heap_offset(a);
    lemma_buddy_offsets(o, k);
    let b = spec_buddy(a, k);
    assert(heap_offset(b) == o ^ (1u64 << k));
}

/// The free blocks, with their size logs: the blocks that sit in the free list of their
/// size.
pub open spec fn free_map(lists: Seq<Seq<u64>>, blocks: Map<u64, u64>) -> Map<u64, u64> {
    Map::new(
        |a: u64| blocks.contains_key(a) && lists[list_index(blocks[a])].contains(a),
        |a: u64| blocks[a],
    )
}

/// The addresses of the block at `a` of size log `k`.
pub open spec fn block_range(a: u64, k: u64) -> Set<int> {
    Set::new(|x: int| a <= x < a + block_bytes(k))
}

/// The addresses that the blocks of `m` cover.
pub open spec fn bytes_of(m: Map<u64, u64>) -> Set<int> {
    Set::new(|x: int| exists|a: u64| m.contains_key(a) && #[trigger] block_range(a, m[a]).contains(x))
}

/// Every block of `blocks` has the index of a free list.
pub open spec fn indexes_ok(lists: Seq<Seq<u64>>, blocks: Map<u64, u64>) -> bool {
    forall|a: u64| #[trigger] blocks.contains_key(a) ==> 0 <= list_index(blocks[a]) < lists.len()
}

/// Every entry of a free list is a block of the list's size.
pub open spec fn entries_ok(lists: Seq<Seq<u64>>, blocks: Map<u64, u64>) -> bool {
    forall|i: int, j: int|
        0 <= i < lists.len() && 0 <= j < lists[i].len() ==> {
            &&& blocks.contains_key(#[trigger] lists[i][j])
            &&& list_index(blocks[lists[i][j]]) == i
        }
}

/// No two blocks of `m` overlap.
pub open spec fn pairwise_disjoint(m: Map<u64, u64>) -> bool {
    forall|c: u64, d: u64|
        #![trigger m[c], m[d]]
        m.contains_key(c) && m.contains_key(d) && c != d ==> disjoint(c, m[c], d, m[d])
}

/// Taking a block out of a map of non-overlapping blocks uncovers exactly its addresses.
proof fn lemma_bytes_remove(m: Map<u64, u64>, h: u64)
    requires
        m.contains_key(h),
        pairwise_disjoint(m),
    ensures
        bytes_of(m.remove(h)) == bytes_of(m).difference(block_range(h, m[h])),
{
    assert forall|x: int| #[trigger] bytes_of(m.remove(h)).contains(x) implies bytes_of(m).difference(
        block_range(h, m[h]),
    ).contains(x) by {
        let a = choose|a: u64| m.remove(h).contains_key(a) && #[trigger] block_range(a, m.remove(h)[a]).contains(x);
        assert(m.contains_key(a) && block_range(a, m[a]).contains(x));
        assert(disjoint(a, m[a], h, m[h]));
    }
    assert forall|x: int| #[trigger] bytes_of(m).difference(block_range(h, m[h])).contains(x) implies bytes_of(
        m.remove(h),
    ).contains(x) by {
        let a = choose|a: u64| m.contains_key(a) && #[trigger] block_range(a, m[a]).contains(x);
        assert(a != h);
        assert(m.remove(h).contains_key(a) && block_range(a, m.remove(h)[a]).contains(x));
    }
    assert(bytes_of(m.remove(h)) =~= bytes_of(m).difference(block_range(h, m[h])));
}

/// Adding a block covers its addresses too.
proof fn lemma_bytes_insert(m: Map<u64, u64>, a: u64, k: u64)
    requires
        !m.contains_key(a),
    ensures
        bytes_of(m.insert(a, k)) == bytes_of(m).union(block_range(a, k)),
{
    assert forall|x: int| #[trigger] bytes_of(m.insert(a, k)).contains(x) implies bytes_of(m).union(
        block_range(a, k),
    ).contains(x) by {
        let c = choose|c: u64| m.insert(a, k).contains_key(c) && #[trigger] block_range(c, m.insert(a, k)[c]).contains(x);
        if c != a {
            assert(m.contains_key(c) && block_range(c, m[c]).contains(x));
        }
    }
    assert forall|x: int| #[trigger] bytes_of(m).union(block_range(a, k)).contains(x) implies bytes_of(
        m.insert(a, k),
    ).contains(x) by {
        if block_range(a, k).contains(x) {
            assert(m.insert(a, k).contains_key(a) && block_range(a, m.insert(a, k)[a]).contains(x));
        } else {
            let c = choose|c: u64| m.contains_key(c) && #[trigger] block_range(c, m[c]).contains(x);
            assert(m.insert(a, k).contains_key(c) && block_range(c, m.insert(a, k)[c]).contains(x));
        }
    }
    assert(bytes_of(m.insert(a, k)) =~= bytes_of(m).union(block_range(a, k)));
}

/// A block of size log `k + 1` is its two halves of size log `k`.
proof fn lemma_range_halves(p: u64, q: u64, k: u64)
    requires
        block_bytes((k + 1) as u64) == 2 * block_bytes(k),
        q == p + block_bytes(k),
    ensures
        block_range(p, (k + 1) as u64) == block_range(p, k).union(block_range(q, k)),
        block_range(p, k).disjoint(block_range(q, k)),
{
    assert(block_range(p, (k + 1) as u64) =~= block_range(p, k).union(block_range(q, k)));
}

/// The free blocks after a free list changed to `l2`, which holds what it held but `h`.
proof fn lemma_free_map_list_remove(lists: Seq<Seq<u64>>, blocks: Map<u64, u64>, i: int, l2: Seq<u64>, h: u64)
    requires
        0 <= i < lists.len(),
        indexes_ok(lists, blocks),
        blocks.contains_key(h),
        list_index(blocks[h]) == i,
        lists[i].contains(h),
        forall|x: u64| #[trigger] l2.contains(x) <==> (lists[i].contains(x) && x != h),
    ensures
        free_map(lists.update(i, l2), blocks) == free_map(lists, blocks).remove(h),
{
    assert(free_map(lists.update(i, l2), blocks) =~= free_map(lists, blocks).remove(h));
}

/// The free blocks after a free list changed to `l2`, which holds what it held and `h`.
proof fn lemma_free_map_list_insert(lists: Seq<Seq<u64>>, blocks: Map<u64, u64>, i: int, l2: Seq<u64>, h: u64)
    requires
        0 <= i < lists.len(),
        indexes_ok(lists, blocks),
        blocks.contains_key(h),
        list_index(blocks[h]) == i,
        forall|x: u64| #[trigger] l2.contains(x) <==> (lists[i].contains(x) || x == h),
    ensures
        free_map(lists.update(i, l2), blocks) == free_map(lists, blocks).insert(h, blocks[h]),
{
    assert(free_map(lists.update(i, l2), blocks) =~= free_map(lists, blocks).insert(h, blocks[h]));
}

/// Merging two blocks that are not free into one that is not free either leaves the free
/// blocks as they were.
proof fn lemma_free_map_merge(lists: Seq<Seq<u64>>, blocks: Map<u64, u64>, a: u64, b: u64, m: u64, k: u64)
    requires
        lists.len() == NUM_FREE_LISTS,
        MIN_BLOCK_SIZE_LOG <= k < HEAP_LOG_SIZE,
        indexes_ok(lists, blocks),
        entries_ok(lists, blocks),
        blocks.contains_key(a) && blocks[a] == k,
        blocks.contains_key(b) && blocks[b] == k,
        !lists[list_index(k)].contains(a),
        !lists[list_index(k)].contains(b),
        m == a || m == b,
    ensures
        free_map(lists, blocks.remove(a).remove(b).insert(m, (k + 1) as u64)) == free_map(lists, blocks),
{
    let b2 = blocks.remove(a).remove(b).insert(m, (k + 1) as u64);
    assert(!lists[list_index((k + 1) as u64)].contains(m)) by {
        let l = lists[list_index((k + 1) as u64)];
        if l.contains(m) {
            let j = choose|j: int| 0 <= j < l.len() && #[trigger] l[j] == m;
            assert(0 <= list_index(blocks[m]) < lists.len());
            assert(list_index(blocks[lists[list_index((k + 1) as u64)][j]]) == list_index((k + 1) as u64));
        }
    }
    assert(free_map(lists, b2) =~= free_map(lists, blocks));
}

/// Splitting the block `pa`, not free, into `pa` and `qa` of size log `k`, with `qa` the
/// only block of the so far empty free list of that size, adds `qa` to the free blocks.
proof fn lemma_free_map_split(lists: Seq<Seq<u64>>, blocks: Map<u64, u64>, pa: u64, qa: u64, k: u64)
    requires
        indexes_ok(lists, blocks),
        0 <= list_index(k) < lists.len(),
        lists[list_index(k)].len() == 0,
        blocks.contains_key(pa),
        !free_map(lists, blocks).contains_key(pa),
        !blocks.contains_key(qa),
        pa != qa,
    ensures
        free_map(lists.update(list_index(k), seq![qa]), blocks.insert(pa, k).insert(qa, k)) == free_map(
            lists,
            blocks,
        ).insert(qa, k),
{
    let i = list_index(k);
    let l2 = lists.update(i, seq![qa]);
    let b2 = blocks.insert(pa, k).insert(qa, k);
    assert(seq![qa].contains(qa)) by {
        assert(seq![qa][0] == qa);
    }
    assert(free_map(l2, b2) =~= free_map(lists, blocks).insert(qa, k));
}

/// What a list without duplicates holds once its entry `j` is removed.
proof fn lemma_seq_remove_contains(l: Seq<u64>, j: int)
    requires
        l.no_duplicates(),
        0 <= j < l.len(),
    ensures
        forall|x: u64| #[trigger] l.remove(j).contains(x) <==> (l.contains(x) && x != l[j]),
{
    assert forall|x: u64| #[trigger] l.remove(j).contains(x) <==> (l.contains(x) && x != l[j]) by {
        let l2 = l.remove(j);
        if l2.contains(x) {
            let y = choose|y: int| 0 <= y < l2.len() && l2[y] == x;
            if y < j {
                assert(l[y] == x);
            } else {
                assert(l[y + 1] == x);
            }
        }
        if l.contains(x) && x != l[j] {
            let y = choose|y: int| 0 <= y < l.len() && l[y] == x;
            if y < j {
                assert(l2[y] == x);
            } else {
                assert(l2[y - 1] == x);
            }
        }
    }
}

/// What a list holds with `a` put in front.
proof fn lemma_seq_prepend_contains(a: u64, l: Seq<u64>)
    ensures
        forall|x: u64| #[trigger] (seq![a] + l).contains(x) <==> (l.contains(x) || x == a),
{
    assert forall|x: u64| #[trigger] (seq![a] + l).contains(x) <==> (l.contains(x) || x == a) by {
        let l2 = seq![a] + l;
        if l2.contains(x) {
            let y = choose|y: int| 0 <= y < l2.len() && l2[y] == x;
            if y > 0 {
                assert(l[y - 1] == x);
            }
        }
        if l.contains(x) {
            let y = choose|y: int| 0 <= y < l.len() && l[y] == x;
            assert(l2[y + 1] == x);
        }
        if x == a {
            assert(l2[0] == a);
        }
    }
}

/// The free blocks after the free block at `s` of size log `j` is split down to size log
/// `k`: `s` itself is no longer free, and the upper halves split off, at `s + 2^i` for
/// `k <= i < j`, are free.
pub open spec fn split_free(free: Map<u64, u64>, s: u64, j: u64, k: u64) -> Map<u64, u64>
    decreases j - k,
{
    if j <= k {
        free.remove(s)
    } else {
        split_free(free, s, j, (k + 1) as u64).insert((s + block_bytes(k)) as u64, k)
    }
}

/// No free block has a free buddy of its own size: every merge that can happen has.
pub open spec fn fully_coalesced(free: Map<u64, u64>) -> bool {
    forall|a: u64|
        #[trigger] free.contains_key(a) && free[a] < HEAP_LOG_SIZE ==> !(free.contains_key(
            spec_buddy(a, free[a]),
        ) && free[spec_buddy(a, free[a])] == free[a])
}

/// Inside a block aligned to size log `j`, the buddy at size log `m < j` is the upper half
/// at `2^m` past it.
proof fn lemma_buddy_inside(s: u64, j: u64, m: u64)
    requires
        block_ok(s, j),
        m < j,
    ensures
        spec_buddy(s, m) == s + block_bytes(m),
        0 < block_bytes(m) < block_bytes(j),
        s + block_bytes(j) <= u64::MAX,
{
    let o = heap_offset(s);
    lemma_block_end(o, j);
    assert((o ^ (1u64 << m)) == o + (1u64 << m) && 0 < (1u64 << m) < (1u64 << j)) by (bit_vector)
        requires
            m < j <= 20,
            o < 0x10_0000,
            o & !(0xFFFF_FFFF_FFFF_FFFFu64 << j) == 0,
    ;
}

/// What a split leaves free: the free blocks but `s`, and the split-off halves.
proof fn lemma_split_free_keys(free: Map<u64, u64>, s: u64, j: u64, m: u64, x: u64)
    requires
        block_ok(s, j),
        m <= j,
        split_free(free, s, j, m).contains_key(x),
    ensures
        (free.contains_key(x) && x != s) || exists|i: u64| m <= i < j && x == s + block_bytes(i),
    decreases j - m,
{
    if m < j {
        lemma_buddy_inside(s, j, m);
        if x != (s + block_bytes(m)) as u64 {
            lemma_split_free_keys(free, s, j, (m + 1) as u64, x);
        }
    }
}

/// Freeing the block at `s` split down from size log `j` to size log `m` merges the halves
/// back: the free blocks are as they were before the split.
proof fn lemma_coalesce_split(free: Map<u64, u64>, s: u64, j: u64, m: u64)
    requires
        pairwise_disjoint(free),
        fully_coalesced(free),
        free.contains_key(s),
        free[s] == j,
        block_ok(s, j),
        m <= j,
    ensures
        coalesced(split_free(free, s, j, m), s, m) == free,
    decreases j - m,
{
    if m == j {
        let g = free.remove(s);
        if j < HEAP_LOG_SIZE {
            assert(!(free.contains_key(spec_buddy(s, j)) && free[spec_buddy(s, j)] == j));
        }
        assert(g.insert(s, j) =~= free);
    } else {
        lemma_buddy_inside(s, j, m);
        let q = (s + block_bytes(m)) as u64;
        let g = split_free(free, s, j, (m + 1) as u64);
        assert(!g.contains_key(q)) by {
            if g.contains_key(q) {
                lemma_split_free_keys(free, s, j, (m + 1) as u64, q);
                if free.contains_key(q) && q != s {
                    assert(disjoint(s, free[s], q, free[q]));
                } else {
                    let i = choose|i: u64| m + 1 <= i < j && q == s + block_bytes(i);
                    assert(block_bytes(m) < block_bytes(i)) by {
                        let mm = m;
                        assert((1u64 << mm) < (1u64 << i)) by (bit_vector)
                            requires
                                mm < i < 20,
                        ;
                    }
                }
            }
        }
        assert(g.insert(q, m).remove(q) =~= g);
        assert(spec_buddy(s, m) == q);
        lemma_coalesce_split(free, s, j, (m + 1) as u64);
    }
}

/// A binary buddy allocator over the heap `[HEAP_START, HEAP_START + 2^20)`.
///
/// The nodes that the heap's blocks start with are held in `heap`, keyed by address: it
/// stands for the heap memory that the allocator reads and writes.
pub struct BinaryBuddyAllocator {
    free_lists: [Option<KernelPointer<BuddyNode>>; 16],
    heap: HashMap<u64, BuddyNode>,
    /// The addresses in each free list, from its head.
    lists: Ghost<Seq<Seq<u64>>>,
    /// Every block that is free or handed out, with its size log.
    blocks: Ghost<Map<u64, u64>>,
}

impl BinaryBuddyAllocator {
    pub closed spec fn spec_lists(&self) -> Seq<Seq<u64>> {
        self.lists@
    }

    pub closed spec fn spec_blocks(&self) -> Map<u64, u64> {
        self.blocks@
    }

    pub closed spec fn spec_heap(&self) -> Map<u64, BuddyNode> {
        self.heap@
    }

    /// The block at `a` sits in its free list.
    pub open spec fn is_free(&self, a: u64) -> bool {
        self.spec_blocks().contains_key(a) && self.spec_lists()[list_index(
            self.spec_blocks()[a],
        )].contains(a)
    }

    /// Some free block has size log `k` or more.
    pub open spec fn has_free_block(&self, k: u64) -> bool {
        exists|m: u64| #[trigger] self.is_free(m) && self.spec_blocks()[m] >= k
    }

    /// The block at `a` is handed out.
    pub open spec fn is_allocated(&self, a: u64) -> bool {
        self.spec_blocks().contains_key(a) && !self.spec_lists()[list_index(
            self.spec_blocks()[a],
        )].contains(a)
    }

    closed spec fn list_wf(&self, i: int) -> bool {
        let l = self.lists@[i];
        &&& (self.free_lists@[i] is None <==> l.len() == 0)
        &&& (l.len() > 0 ==> self.free_lists@[i]->0.ptr == l[0])
        &&& l.no_duplicates()
        &&& forall|j: int|
            #![trigger l[j]]
            0 <= j < l.len() ==> {
                &&& self.heap@.contains_key(l[j])
                &&& link(self.heap@[l[j]].next) == (if j + 1 < l.len() {
                    Some(l[j + 1])
                } else {
                    None
                })
                &&& link(self.heap@[l[j]].previous) == (if j > 0 {
                    Some(l[j - 1])
                } else {
                    None
                })
            }
    }

    closed spec fn block_wf(&self, a: u64, ex: Set<u64>) -> bool {
        let k = self.blocks@[a];
        &&& block_ok(a, k)
        &&& self.heap@.contains_key(a)
        &&& h_size(self.heap@, a) == k
        &&& !ex.contains(a) ==> (h_avail(self.heap@, a) <==> self.lists@[list_index(k)].contains(a))
    }

    /// The allocator's invariant, except that the blocks in `ex` are in flight: out of
    /// every free list, whatever their header says.
    pub closed spec fn inv(&self, ex: Set<u64>) -> bool {
        &&& self.lists@.len() == NUM_FREE_LISTS
        &&& forall|i: int| 0 <= i < NUM_FREE_LISTS ==> #[trigger] self.list_wf(i)
        &&& forall|i: int, j: int|
            0 <= i < NUM_FREE_LISTS && 0 <= j < self.lists@[i].len() ==> {
                &&& self.blocks@.contains_key(#[trigger] self.lists@[i][j])
                &&& list_index(self.blocks@[self.lists@[i][j]]) == i
            }
        &&& forall|a: u64| #[trigger] self.blocks@.contains_key(a) ==> self.block_wf(a, ex)
        &&& forall|a: u64, b: u64|
            #![trigger self.blocks@[a], self.blocks@[b]]
            self.blocks@.contains_key(a) && self.blocks@.contains_key(b) && a != b ==> disjoint(
                a,
                self.blocks@[a],
                b,
                self.blocks@[b],
            )
        &&& forall|a: u64| #[trigger] h_avail(self.heap@, a) && !ex.contains(a) ==> self.blocks@.contains_key(a)
        &&& forall|x: u64| #[trigger] ex.contains(x) ==> self.is_allocated(x)
    }

    /// The allocator's invariant.
    pub open spec fn wf(&self) -> bool {
        self.inv(Set::empty())
    }

    /// The free blocks, with their size logs.
    pub open spec fn free_blocks(&self) -> Map<u64, u64> {
        free_map(self.spec_lists(), self.spec_blocks())
    }

    /// The free memory: the addresses of the free blocks.
    pub open spec fn free_bytes(&self) -> Set<int> {
        bytes_of(free_map(self.spec_lists(), self.spec_blocks()))
    }

    /// No allocated block overlaps a free one.
    pub proof fn lemma_allocated_apart_from_free(&self, x: u64, y: u64)
        requires
            self.wf(),
            self.is_allocated(x),
            self.is_free(y),
        ensures
            disjoint(x, self.spec_blocks()[x], y, self.spec_blocks()[y]),
    {
        assert(x != y);
        assert(self.blocks@.contains_key(x) && self.blocks@.contains_key(y));
    }

    /// Every free block of a well-formed allocator is a block of its size in the heap.
    proof fn lemma_blocks_ok(&self)
        requires
            self.wf(),
        ensures
            free_blocks_ok(self.free_blocks()),
    {
        let f = self.free_blocks();
        assert forall|a: u64| #[trigger] f.contains_key(a) implies block_ok(a, f[a]) by {
            assert(self.block_wf(a, Set::empty()));
        }
    }

    proof fn lemma_inv_facts(&self, ex: Set<u64>)
        requires
            self.inv(ex),
        ensures
            self.lists@.len() == NUM_FREE_LISTS,
            indexes_ok(self.lists@, self.blocks@),
            entries_ok(self.lists@, self.blocks@),
            pairwise_disjoint(free_map(self.lists@, self.blocks@)),
    {
        assert forall|a: u64| #[trigger] self.blocks@.contains_key(a) implies 0 <= list_index(self.blocks@[a]) < self.lists@.len() by {
            assert(self.block_wf(a, ex));
        }
        let f = free_map(self.lists@, self.blocks@);
        assert forall|c: u64, d: u64| f.contains_key(c) && f.contains_key(d) && c != d implies disjoint(c, #[trigger] f[c], d, #[trigger] f[d]) by {
            assert(self.blocks@.contains_key(c) && self.blocks@.contains_key(d));
        }
    }

    /// A free block's addresses are free memory.
    proof fn lemma_free_block_bytes(&self, a: u64)
        requires
            self.is_free(a),
        ensures
            block_range(a, self.blocks@[a]).subset_of(self.free_bytes()),
    {
        let f = free_map(self.lists@, self.blocks@);
        assert(f.contains_key(a));
        assert forall|x: int| #[trigger] block_range(a, self.blocks@[a]).contains(x) implies self.free_bytes().contains(x) by {
            assert(f.contains_key(a) && block_range(a, f[a]).contains(x));
        }
    }

    fn read_node(&self, addr: u64) -> (r: BuddyNode)
        ensures
            self.heap@.contains_key(addr) ==> r == self.heap@[addr],
            r.header.spec_available() == h_avail(self.heap@, addr),
            r.header.spec_size() as u64 == h_size(self.heap@, addr),
    {
        match self.heap.get(&addr) {
            Some(n) => *n,
            None => BuddyNode::new(0, false),
        }
    }

    fn write_node(&mut self, addr: u64, node: BuddyNode)
        ensures
            final(self).heap@ == old(self).heap@.insert(addr, node),
            final(self).free_lists == old(self).free_lists,
            final(self).lists == old(self).lists,
            final(self).blocks == old(self).blocks,
    {
        self.heap.insert(addr, node);
    }

    /// The headers of two heaps agree at every address.
    closed spec fn same_headers(h1: Map<u64, BuddyNode>, h2: Map<u64, BuddyNode>) -> bool {
        &&& h1.dom() == h2.dom()
        &&& forall|a: u64| #[trigger] h_avail(h2, a) == h_avail(h1, a)
        &&& forall|a: u64| #[trigger] h_size(h2, a) == h_size(h1, a)
    }

    /// Pops the block at the front of the free list `free_list_index`, leaving its header
    /// as it is.
    fn pop(&mut self, free_list_index: u8, Ghost(ex): Ghost<Set<u64>>) -> (r: Option<
        KernelPointer<BuddyNode>,
    >)
        requires
            old(self).inv(ex),
        ensures
            (free_list_index >= NUM_FREE_LISTS || old(self).lists@[free_list_index as int].len()
                == 0) ==> r is None && *final(self) == *old(self),
            (free_list_index < NUM_FREE_LISTS && old(self).lists@[free_list_index as int].len()
                > 0) ==> {
                let i = free_list_index as int;
                &&& r matches Some(p) && p.ptr == old(self).lists@[i][0]
                &&& final(self).lists@ == old(self).lists@.update(i, old(self).lists@[i].drop_first())
                &&& final(self).blocks@ == old(self).blocks@
                &&& Self::same_headers(old(self).heap@, final(self).heap@)
                &&& final(self).inv(ex.insert(old(self).lists@[i][0]))
            },
    {
        let index = free_list_index as usize;
        if index >= self.free_lists.len() {
            return None;
        }
        let node_kernel_pointer = match self.free_lists[index] {
            Some(p) => p,
            None => {
                assert(self.list_wf(index as int));
                return None;
            },
        };
        let ghost i = index as int;
        let ghost l = self.lists@[i];
        let ghost old_self = *self;
        assert(self.list_wf(i));
        let node = self.read_node(node_kernel_pointer.ptr);
        match node.next {
            None => {
                self.free_lists[index] = None;
            },
            Some(next) => {
                assert(l.len() > 1 && next.ptr == l[1]);
                let mut next_node = self.read_node(next.ptr);
                next_node.previous = None;
                self.write_node(next.ptr, next_node);
                self.free_lists[index] = Some(next);
                assert(self.heap@.dom() =~= old_self.heap@.dom());
            },
        }
        proof {
            let head = l[0];
            self.lists@ = self.lists@.update(i, l.drop_first());
            let ex2 = ex.insert(head);
            assert(Self::same_headers(old_self.heap@, self.heap@));
            assert forall|i2: int| 0 <= i2 < NUM_FREE_LISTS implies #[trigger] self.list_wf(i2) by {
                assert(old_self.list_wf(i2));
                let l2 = self.lists@[i2];
                if i2 == i {
                    assert(l2 =~= l.drop_first());
                    assert forall|j: int| 0 <= j < l2.len() implies self.heap@.contains_key(l2[j]) by {
                        assert(l2[j] == l[j + 1]);
                    }
                    assert forall|j: int| #![trigger l2[j]] 0 <= j < l2.len() implies {
                        &&& link(self.heap@[l2[j]].next) == (if j + 1 < l2.len() {
                            Some(l2[j + 1])
                        } else {
                            None
                        })
                        &&& link(self.heap@[l2[j]].previous) == (if j > 0 {
                            Some(l2[j - 1])
                        } else {
                            None
                        })
                    } by {
                        assert(l2[j] == l[j + 1]);
                        assert(l[j + 1] == l[j + 1]);
                        if j > 0 {
                            assert(l[j + 1] != l[1]);
                        }
                    }
                } else {
                    let l1 = old_self.lists@[i2];
                    assert(l2 == l1);
                    assert forall|j: int| 0 <= j < l2.len() implies l2[j] != head && (l.len() > 1
                        ==> l2[j] != l[1]) by {
                        assert(old_self.blocks@.contains_key(l1[j]));
                        assert(old_self.blocks@.contains_key(l[0]));
                        if l.len() > 1 {
                            assert(old_self.blocks@.contains_key(l[1]));
                        }
                    }
                }
            }
            assert forall|a: u64| #[trigger] self.blocks@.contains_key(a) implies self.block_wf(a, ex2) by {
                assert(old_self.block_wf(a, ex));
                let k = self.blocks@[a];
                if list_index(k) == i && a != head {
                    assert(l.contains(a) <==> l.drop_first().contains(a)) by {
                        if l.contains(a) {
                            let j = choose|j: int| 0 <= j < l.len() && l[j] == a;
                            assert(l.drop_first()[j - 1] == a);
                        }
                    }
                }
            }
            assert forall|x: u64| #[trigger] ex2.contains(x) implies self.is_allocated(x) by {
                if x == head {
                    assert(old_self.blocks@.contains_key(l[0]));
                    assert(!l.drop_first().contains(head)) by {
                        if l.drop_first().contains(head) {
                            let j = choose|j: int| 0 <= j < l.drop_first().len() && l.drop_first()[j] == head;
                            assert(l[j + 1] == l[0]);
                        }
                    }
                } else {
                    assert(old_self.is_allocated(x));
                    let k = self.blocks@[x];
                    if list_index(k) == i {
                        assert(!l.contains(x));
                        assert(!l.drop_first().contains(x)) by {
                            if l.drop_first().contains(x) {
                                let j = choose|j: int| 0 <= j < l.drop_first().len() && l.drop_first()[j] == x;
                                assert(l[j + 1] == x);
                            }
                        }
                    }
                }
            }
            assert forall|i2: int, j: int|
                0 <= i2 < NUM_FREE_LISTS && 0 <= j < self.lists@[i2].len() implies {
                    &&& self.blocks@.contains_key(#[trigger] self.lists@[i2][j])
                    &&& list_index(self.blocks@[self.lists@[i2][j]]) == i2
                } by {
                if i2 == i {
                    assert(self.lists@[i2][j] == l[j + 1]);
                } else {
                    assert(self.lists@[i2][j] == old_self.lists@[i2][j]);
                }
            }
        }
        Some(node_kernel_pointer)
    }

    /// Index 0 of the free lists holds the 1 MiB blocks, index 1 the 512 KiB blocks, and
    /// so on.
    pub fn get_free_list_index(&self, size_log: u8) -> (r: Option<u8>)
        ensures
            r == (if MIN_BLOCK_SIZE_LOG <= size_log <= HEAP_LOG_SIZE {
                Some((HEAP_LOG_SIZE - size_log) as u8)
            } else {
                None
            }),
    {
        let size_log = size_log as u64;
        if !(MIN_BLOCK_SIZE_LOG <= size_log && size_log <= HEAP_LOG_SIZE) {
            None
        } else {
            Some((HEAP_LOG_SIZE - size_log) as u8)
        }
    }

    /// The buddy's address: the heap offset with bit `size_log` flipped. The heap is
    /// thought of as 1 MiB starting from address 0.
    pub fn buddy_address(buddy_one: KernelPointer<BuddyNode>, size_log: u8) -> (r: KernelPointer<
        BuddyNode,
    >)
        requires
            HEAP_START <= buddy_one.ptr,
            size_log < 64,
            (heap_offset(buddy_one.ptr) ^ (1u64 << size_log)) + HEAP_START <= u64::MAX,
        ensures
            r.ptr == spec_buddy(buddy_one.ptr, size_log as u64),
    {
        let offset = HEAP_START;
        let v_vaddr = (buddy_one.ptr - offset) ^ (1u64 << size_log);
        let a_vaddr = v_vaddr + offset;
        KernelPointer::new(VirtualAddress::new(a_vaddr))
    }

    /// Pushes the block `node` at the front of the free list of its size, marking it
    /// free.
    fn append(&mut self, node: KernelPointer<BuddyNode>, Ghost(ex): Ghost<Set<u64>>)
        requires
            old(self).inv(ex),
            ex.contains(node.ptr),
        ensures
            ({
                let i = list_index(old(self).blocks@[node.ptr]);
                &&& final(self).lists@ == old(self).lists@.update(
                    i,
                    seq![node.ptr] + old(self).lists@[i],
                )
                &&& final(self).blocks@ == old(self).blocks@
                &&& final(self).inv(ex.remove(node.ptr))
                &&& final(self).heap@.dom() == old(self).heap@.dom()
                &&& forall|a: u64|
                    a != node.ptr ==> #[trigger] h_avail(final(self).heap@, a) == h_avail(
                        old(self).heap@,
                        a,
                    )
                &&& forall|a: u64| #[trigger] h_size(final(self).heap@, a) == h_size(old(self).heap@, a)
            }),
    {
        let ghost old_self = *self;
        let ghost a = node.ptr;
        assert(old_self.is_allocated(a));
        assert(old_self.block_wf(a, ex));
        let ghost k = self.blocks@[a];
        let ghost i = list_index(k);
        let ghost l = self.lists@[i];
        assert(self.list_wf(i));
        let size_log = self.read_node(node.ptr).header.size();
        self.write_node(node.ptr, BuddyNode::new(size_log, true));
        let index = self.get_free_list_index(size_log).expect(
            "Free list index based on the size_log failed",
        ) as usize;
        let head_node_ptr = self.free_lists[index];
        if let Some(head_node_ptr) = head_node_ptr {
            assert(head_node_ptr.ptr == l[0]);
            assert(old_self.blocks@.contains_key(l[0]));
            let mut head_node = self.read_node(head_node_ptr.ptr);
            head_node.previous = Some(node);
            self.write_node(head_node_ptr.ptr, head_node);
            let mut new_node = self.read_node(node.ptr);
            new_node.next = Some(head_node_ptr);
            self.write_node(node.ptr, new_node);
        }
        self.free_lists[index] = Some(node);
        proof {
            let l2 = seq![a] + l;
            self.lists@ = self.lists@.update(i, l2);
            let ex2 = ex.remove(a);
            assert(self.heap@.dom() =~= old_self.heap@.dom());
            assert(!l.contains(a));
            assert forall|b: u64| b != a implies #[trigger] h_avail(self.heap@, b) == h_avail(old_self.heap@, b) by {
                if l.len() > 0 && b == l[0] {
                    assert(self.heap@[b].header == old_self.heap@[b].header);
                }
            }
            assert forall|b: u64| #[trigger] h_size(self.heap@, b) == h_size(old_self.heap@, b) by {
                if l.len() > 0 && b == l[0] {
                    assert(self.heap@[b].header == old_self.heap@[b].header);
                }
            }
            assert forall|i2: int| 0 <= i2 < NUM_FREE_LISTS implies #[trigger] self.list_wf(i2) by {
                assert(old_self.list_wf(i2));
                let l3 = self.lists@[i2];
                if i2 == i {
                    assert(l3 =~= l2);
                    assert forall|j: int| #![trigger l3[j]] 0 <= j < l3.len() implies {
                        &&& self.heap@.contains_key(l3[j])
                        &&& link(self.heap@[l3[j]].next) == (if j + 1 < l3.len() {
                            Some(l3[j + 1])
                        } else {
                            None
                        })
                        &&& link(self.heap@[l3[j]].previous) == (if j > 0 {
                            Some(l3[j - 1])
                        } else {
                            None
                        })
                    } by {
                        if j > 0 {
                            assert(l3[j] == l[j - 1]);
                            assert(l[j - 1] != a);
                            if j > 1 {
                                assert(l[j - 1] != l[0]);
                            }
                        }
                    }
                    assert(l3.no_duplicates()) by {
                        assert forall|x: int, y: int| 0 <= x < y < l3.len() implies l3[x] != l3[y] by {
                            if x > 0 {
                                assert(l3[x] == l[x - 1]);
                            }
                            assert(l3[y] == l[y - 1]);
                        }
                    }
                } else {
                    let l1 = old_self.lists@[i2];
                    assert(l3 == l1);
                    assert forall|j: int| 0 <= j < l3.len() implies l3[j] != a && (l.len() > 0
                        ==> l3[j] != l[0]) by {
                        assert(old_self.blocks@.contains_key(l1[j]));
                        if l.len() > 0 {
                            assert(old_self.blocks@.contains_key(l[0]));
                        }
                    }
                }
            }
            assert forall|b: u64| #[trigger] self.blocks@.contains_key(b) implies self.block_wf(b, ex2) by {
                assert(old_self.block_wf(b, ex));
                let kb = self.blocks@[b];
                if list_index(kb) == i && b != a {
                    assert(l.contains(b) <==> l2.contains(b)) by {
                        if l.contains(b) {
                            let j = choose|j: int| 0 <= j < l.len() && l[j] == b;
                            assert(l2[j + 1] == b);
                        }
                        if l2.contains(b) {
                            let j = choose|j: int| 0 <= j < l2.len() && l2[j] == b;
                            assert(l[j - 1] == b);
                        }
                    }
                }
                if b == a {
                    assert(l2[0] == a);
                }
            }
            assert forall|x: u64| #[trigger] ex2.contains(x) implies self.is_allocated(x) by {
                assert(old_self.is_allocated(x));
                let kx = self.blocks@[x];
                if list_index(kx) == i {
                    assert(!l2.contains(x)) by {
                        if l2.contains(x) {
                            let j = choose|j: int| 0 <= j < l2.len() && l2[j] == x;
                            assert(l[j - 1] == x);
                        }
                    }
                }
            }
            assert forall|i2: int, j: int|
                0 <= i2 < NUM_FREE_LISTS && 0 <= j < self.lists@[i2].len() implies {
                    &&& self.blocks@.contains_key(#[trigger] self.lists@[i2][j])
                    &&& list_index(self.blocks@[self.lists@[i2][j]]) == i2
                } by {
                if i2 == i && j > 0 {
                    assert(self.lists@[i2][j] == l[j - 1]);
                }
            }
        }
    }

    /// Takes the free block `node_kernel_ptr` out of its free list.
    #[verifier::rlimit(60)]
    #[verifier::spinoff_prover]
    fn remove(&mut self, node_kernel_ptr: KernelPointer<BuddyNode>, Ghost(ex): Ghost<Set<u64>>) -> (r:
        Option<KernelPointer<BuddyNode>>)
        requires
            old(self).inv(ex),
            old(self).is_free(node_kernel_ptr.ptr),
        ensures
            r matches Some(p) && p.ptr == node_kernel_ptr.ptr,
            ({
                let a = node_kernel_ptr.ptr;
                let i = list_index(old(self).blocks@[a]);
                let l = old(self).lists@[i];
                &&& final(self).lists@ == old(self).lists@.update(i, l.remove(l.index_of(a)))
                &&& final(self).blocks@ == old(self).blocks@
                &&& Self::same_headers(old(self).heap@, final(self).heap@)
                &&& final(self).inv(ex.insert(a))
            }),
    {
        let ghost old_self = *self;
        let ghost a = node_kernel_ptr.ptr;
        let ghost k = self.blocks@[a];
        let ghost i = list_index(k);
        let ghost l = self.lists@[i];
        let ghost j = l.index_of(a);
        assert(self.list_wf(i));
        assert(self.block_wf(a, ex));
        assert(0 <= j < l.len() && l[j] == a);
        proof {
            l.remove_ensures(j);
            if ex.contains(a) {
                assert(self.is_allocated(a));
            }
        }
        let ptr = node_kernel_ptr.ptr;
        let node = self.read_node(ptr);
        let previous_node = node.previous;
        let next_node = node.next;
        let index = {
            let size_log = node.header.size();
            self.get_free_list_index(size_log).unwrap()
        };
        match previous_node {
            None => {
                assert(j == 0);
                assert(l.remove(j) =~= l.drop_first());
                let r = self.pop(index, Ghost(ex));
                r
            },
            Some(previous_node_ptr) => {
                assert(j > 0 && previous_node_ptr.ptr == l[j - 1]);
                assert(old_self.blocks@.contains_key(l[j - 1]));
                let mut prev = self.read_node(previous_node_ptr.ptr);
                prev.next = next_node;
                self.write_node(previous_node_ptr.ptr, prev);
                if let Some(next_node_ptr) = next_node {
                    assert(j + 1 < l.len() && next_node_ptr.ptr == l[j + 1]);
                    assert(old_self.blocks@.contains_key(l[j + 1]));
                    assert(l[j + 1] != l[j - 1]);
                    let mut next = self.read_node(next_node_ptr.ptr);
                    next.previous = previous_node;
                    self.write_node(next_node_ptr.ptr, next);
                }
                proof {
                    let l2 = l.remove(j);
                    self.lists@ = self.lists@.update(i, l2);
                    let ex2 = ex.insert(a);
                    assert(self.heap@.dom() =~= old_self.heap@.dom());
                    assert forall|b: u64| #[trigger] h_avail(self.heap@, b) == h_avail(old_self.heap@, b) by {
                        if self.heap@.contains_key(b) {
                            assert(self.heap@[b].header == old_self.heap@[b].header);
                        }
                    }
                    assert forall|b: u64| #[trigger] h_size(self.heap@, b) == h_size(old_self.heap@, b) by {
                        if self.heap@.contains_key(b) {
                            assert(self.heap@[b].header == old_self.heap@[b].header);
                        }
                    }
                    assert forall|i2: int| 0 <= i2 < NUM_FREE_LISTS implies #[trigger] self.list_wf(i2) by {
                        assert(old_self.list_wf(i2));
                        let l3 = self.lists@[i2];
                        if i2 == i {
                            assert(l3 =~= l2);
                            assert forall|x: int| #![trigger l3[x]] 0 <= x < l3.len() implies {
                                &&& self.heap@.contains_key(l3[x])
                                &&& link(self.heap@[l3[x]].next) == (if x + 1 < l3.len() {
                                    Some(l3[x + 1])
                                } else {
                                    None
                                })
                                &&& link(self.heap@[l3[x]].previous) == (if x > 0 {
                                    Some(l3[x - 1])
                                } else {
                                    None
                                })
                            } by {
                                if x < j {
                                    assert(l3[x] == l[x]);
                                    if x < j - 1 {
                                        assert(l[x] != l[j - 1]);
                                    }
                                    if j + 1 < l.len() {
                                        assert(l[x] != l[j + 1]);
                                    }
                                } else {
                                    assert(l3[x] == l[x + 1]);
                                    assert(l[x + 1] != l[j - 1]);
                                    if x > j {
                                        assert(l[x + 1] != l[j + 1]);
                                    }
                                }
                            }
                            assert(l3.no_duplicates()) by {
                                assert forall|x: int, y: int| 0 <= x < y < l3.len() implies l3[x] != l3[y] by {
                                    let x1 = if x < j { x } else { x + 1 };
                                    let y1 = if y < j { y } else { y + 1 };
                                    assert(l3[x] == l[x1]);
                                    assert(l3[y] == l[y1]);
                                }
                            }
                        } else {
                            let l1 = old_self.lists@[i2];
                            assert(l3 == l1);
                            assert forall|x: int| 0 <= x < l3.len() implies l3[x] != l[j - 1] && (j + 1
                                < l.len() ==> l3[x] != l[j + 1]) by {
                                assert(old_self.blocks@.contains_key(l1[x]));
                                if j + 1 < l.len() {
                                    assert(old_self.blocks@.contains_key(l[j + 1]));
                                }
                            }
                        }
                    }
                    assert(!l2.contains(a)) by {
                        if l2.contains(a) {
                            let x = choose|x: int| 0 <= x < l2.len() && l2[x] == a;
                            if x < j {
                                assert(l[x] == a);
                            } else {
                                assert(l[x + 1] == a);
                            }
                        }
                    }
                    assert forall|b: u64| #[trigger] self.blocks@.contains_key(b) implies self.block_wf(b, ex2) by {
                        assert(old_self.block_wf(b, ex));
                        let kb = self.blocks@[b];
                        if list_index(kb) == i && b != a {
                            assert(l.contains(b) <==> l2.contains(b)) by {
                                if l.contains(b) {
                                    let x = choose|x: int| 0 <= x < l.len() && l[x] == b;
                                    if x < j {
                                        assert(l2[x] == b);
                                    } else {
                                        assert(l2[x - 1] == b);
                                    }
                                }
                                if l2.contains(b) {
                                    let x = choose|x: int| 0 <= x < l2.len() && l2[x] == b;
                                    if x < j {
                                        assert(l[x] == b);
                                    } else {
                                        assert(l[x + 1] == b);
                                    }
                                }
                            }
                        }
                    }
                    assert forall|x: u64| #[trigger] ex2.contains(x) implies self.is_allocated(x) by {
                        if x != a {
                            assert(old_self.is_allocated(x));
                            let kx = self.blocks@[x];
                            if list_index(kx) == i {
                                assert(!l2.contains(x)) by {
                                    if l2.contains(x) {
                                        let y = choose|y: int| 0 <= y < l2.len() && l2[y] == x;
                                        if y < j {
                                            assert(l[y] == x);
                                        } else {
                                            assert(l[y + 1] == x);
                                        }
                                    }
                                }
                            }
                        }
                    }
                    assert forall|i2: int, x: int|
                        0 <= i2 < NUM_FREE_LISTS && 0 <= x < self.lists@[i2].len() implies {
                            &&& self.blocks@.contains_key(#[trigger] self.lists@[i2][x])
                            &&& list_index(self.blocks@[self.lists@[i2][x]]) == i2
                        } by {
                        if i2 == i {
                            if x < j {
                                assert(self.lists@[i2][x] == l[x]);
                            } else {
                                assert(self.lists@[i2][x] == l[x + 1]);
                            }
                        }
                    }
                }
                Some(node_kernel_ptr)
            },
        }
    }

    /// Merges two buddies in flight into the block of twice their size at the lower one:
    /// the lower one's header now holds the bigger size and says free, the other's header
    /// is cleared.
    fn merge(
        &mut self,
        buddy_one: KernelPointer<BuddyNode>,
        buddy_two: KernelPointer<BuddyNode>,
        size_log: u8,
        Ghost(ex): Ghost<Set<u64>>,
    ) -> (r: KernelPointer<BuddyNode>)
        requires
            old(self).inv(ex),
            ex.contains(buddy_one.ptr),
            ex.contains(buddy_two.ptr),
            old(self).blocks@[buddy_one.ptr] == size_log,
            old(self).blocks@[buddy_two.ptr] == size_log,
            size_log < HEAP_LOG_SIZE,
            buddy_two.ptr == spec_buddy(buddy_one.ptr, size_log as u64),
        ensures
            ({
                let a = buddy_one.ptr;
                let b = buddy_two.ptr;
                let m = if a < b {
                    a
                } else {
                    b
                };
                let other = if a < b {
                    b
                } else {
                    a
                };
                &&& r.ptr == m
                &&& final(self).blocks@ == old(self).blocks@.remove(a).remove(b).insert(
                    m,
                    (size_log + 1) as u64,
                )
                &&& final(self).lists@ == old(self).lists@
                &&& final(self).heap@.dom() == old(self).heap@.dom()
                &&& h_avail(final(self).heap@, m)
                &&& h_size(final(self).heap@, m) == size_log + 1
                &&& final(self).heap@[m].next is None && final(self).heap@[m].previous is None
                &&& !h_avail(final(self).heap@, other)
                &&& h_size(final(self).heap@, other) == 0
                &&& final(self).heap@[other].next is None && final(self).heap@[other].previous is None
                &&& forall|x: u64|
                    x != a && x != b ==> #[trigger] h_avail(final(self).heap@, x) == h_avail(
                        old(self).heap@,
                        x,
                    ) && h_size(final(self).heap@, x) == h_size(old(self).heap@, x)
                &&& final(self).inv(ex.remove(a).remove(b).insert(m))
            }),
    {
        let ghost old_self = *self;
        let ghost a = buddy_one.ptr;
        let ghost b = buddy_two.ptr;
        let ghost k = size_log as u64;
        assert(old_self.is_allocated(a));
        assert(old_self.is_allocated(b));
        assert(old_self.block_wf(a, ex));
        proof {
            lemma_buddy_involution(a, k);
        }
        let r = if buddy_one.ptr < buddy_two.ptr {
            self.write_node(buddy_two.ptr, BuddyNode::new(0, false));
            self.write_node(buddy_one.ptr, BuddyNode::new(size_log + 1, true));
            buddy_one
        } else {
            self.write_node(buddy_one.ptr, BuddyNode::new(0, false));
            self.write_node(buddy_two.ptr, BuddyNode::new(size_log + 1, true));
            buddy_two
        };
        proof {
            let m = r.ptr;
            let k1 = (k + 1) as u64;
            self.blocks@ = old_self.blocks@.remove(a).remove(b).insert(m, k1);
            let ex2 = ex.remove(a).remove(b).insert(m);
            assert(old_self.heap@.contains_key(b)) by {
                assert(old_self.block_wf(b, ex));
            }
            assert(self.heap@.dom() =~= old_self.heap@.dom());
            assert(a != b);
            assert forall|i2: int| 0 <= i2 < NUM_FREE_LISTS implies #[trigger] self.list_wf(i2) by {
                assert(old_self.list_wf(i2));
                let l = self.lists@[i2];
                assert forall|j: int| 0 <= j < l.len() implies l[j] != a && l[j] != b by {
                    assert(old_self.blocks@.contains_key(l[j]));
                    if l[j] == a {
                        assert(l.contains(a));
                    }
                    if l[j] == b {
                        assert(l.contains(b));
                    }
                }
            }
            assert forall|i2: int, j: int|
                0 <= i2 < NUM_FREE_LISTS && 0 <= j < self.lists@[i2].len() implies {
                    &&& self.blocks@.contains_key(#[trigger] self.lists@[i2][j])
                    &&& list_index(self.blocks@[self.lists@[i2][j]]) == i2
                } by {
                let l = self.lists@[i2];
                assert(old_self.blocks@.contains_key(l[j]));
                if l[j] == a {
                    assert(l.contains(a));
                }
                if l[j] == b {
                    assert(l.contains(b));
                }
            }
            assert forall|c: u64| #[trigger] self.blocks@.contains_key(c) implies self.block_wf(c, ex2) by {
                if c != m {
                    assert(old_self.block_wf(c, ex));
                }
            }
            assert forall|c: u64, d: u64|
                self.blocks@.contains_key(c) && self.blocks@.contains_key(d) && c != d implies disjoint(
                c,
                #[trigger] self.blocks@[c],
                d,
                #[trigger] self.blocks@[d],
            ) by {
                if c == m {
                    assert(old_self.blocks@.contains_key(d) && d != a && d != b);
                    assert(disjoint(a, k, d, old_self.blocks@[d]));
                    assert(disjoint(b, k, d, old_self.blocks@[d]));
                } else if d == m {
                    assert(old_self.blocks@.contains_key(c) && c != a && c != b);
                    assert(disjoint(a, k, c, old_self.blocks@[c]));
                    assert(disjoint(b, k, c, old_self.blocks@[c]));
                } else {
                    assert(old_self.blocks@.contains_key(c) && old_self.blocks@.contains_key(d));
                }
            }
            assert forall|c: u64| #[trigger] h_avail(self.heap@, c) && !ex2.contains(c) implies self.blocks@.contains_key(c) by {
                assert(c != a && c != b);
                assert(h_avail(old_self.heap@, c));
            }
            assert forall|x: u64| #[trigger] ex2.contains(x) implies self.is_allocated(x) by {
                if x == m {
                    assert(!self.lists@[list_index(k1)].contains(m)) by {
                        if self.lists@[list_index(k1)].contains(m) {
                            let j = choose|j: int| 0 <= j < self.lists@[list_index(k1)].len() && self.lists@[list_index(k1)][j] == m;
                            assert(old_self.blocks@.contains_key(self.lists@[list_index(k1)][j]));
                        }
                    }
                } else {
                    assert(old_self.is_allocated(x));
                }
            }
        }
        r
    }

    /// Takes a block of size log `block_size_log` out of the free lists: the head of that
    /// size's list, or else the lower half of a bigger block, split as many times as
    /// needed, whose upper halves go to the free lists.
    fn request_block(&mut self, block_size_log: u8, index: u8) -> (r: Option<
        KernelPointer<BuddyNode>,
    >)
        requires
            old(self).wf(),
            MIN_BLOCK_SIZE_LOG <= block_size_log <= HEAP_LOG_SIZE,
            index == HEAP_LOG_SIZE - block_size_log,
        ensures
            smallest_free(old(self).lists@, block_size_log as u64) is None ==> r is None && *final(self) == *old(self),
            smallest_free(old(self).lists@, block_size_log as u64) matches Some(s) ==> {
                &&& r matches Some(p)
                &&& p.ptr == old(self).lists@[list_index(s)][0]
                &&& final(self).inv(set![p.ptr])
                &&& final(self).blocks@[p.ptr] == block_size_log
                &&& forall|x: u64|
                    x != p.ptr ==> (#[trigger] final(self).is_allocated(x) <==> old(self).is_allocated(x))
                &&& forall|x: u64|
                    x != p.ptr && #[trigger] old(self).is_allocated(x) ==> final(self).blocks@[x]
                        == old(self).blocks@[x]
                &&& forall|j: int|
                    list_index(block_size_log as u64) < j < NUM_FREE_LISTS ==> #[trigger] final(self).lists@[j] == old(self).lists@[j]
                &&& final(self).free_blocks() == split_free(old(self).free_blocks(), p.ptr, s, block_size_log as u64)
                &&& block_range(p.ptr, block_size_log as u64).subset_of(old(self).free_bytes())
                &&& final(self).free_bytes() == old(self).free_bytes().difference(
                    block_range(p.ptr, block_size_log as u64),
                )
            },
        decreases HEAP_LOG_SIZE - block_size_log,
    {
        let ghost old_self = *self;
        let ghost k = block_size_log as u64;
        let ghost i = index as int;
        assert(self.list_wf(i));
        let free_list = self.free_lists[index as usize];
        if free_list.is_none() {
            if block_size_log as u64 == HEAP_LOG_SIZE {
                None
            } else {
                let bigger = self.request_block(block_size_log + 1, index - 1);
                let bigger_block = match bigger {
                    Some(b) => b,
                    None => {
                        return None;
                    },
                };
                let ghost mid = *self;
                let ghost pa = bigger_block.ptr;
                assert(set![pa].contains(pa));
                assert(mid.is_allocated(pa));
                assert(smallest_free(old_self.lists@, k) == smallest_free(old_self.lists@, (k + 1) as u64));
                assert(mid.block_wf(pa, set![pa]));
                let ghost o = heap_offset(pa);
                proof {
                    lemma_split_offsets(o, k);
                }
                let block_one = bigger_block;
                let block_two = Self::buddy_address(block_one, block_size_log);
                let ghost qa = block_two.ptr;
                assert(qa == pa + block_bytes(k));
                assert(heap_offset(qa) == o + (1u64 << k));
                assert(!mid.blocks@.contains_key(qa)) by {
                    if mid.blocks@.contains_key(qa) {
                        assert(disjoint(pa, (k + 1) as u64, qa, mid.blocks@[qa]));
                    }
                }
                self.write_node(block_one.ptr, BuddyNode::new(block_size_log, false));
                self.write_node(block_two.ptr, BuddyNode::new(block_size_log, true));
                self.free_lists[index as usize] = Some(block_two);
                proof {
                    assert(mid.lists@[i] == old_self.lists@[i]);
                    self.blocks@ = mid.blocks@.insert(pa, k).insert(qa, k);
                    self.lists@ = mid.lists@.update(i, seq![qa]);
                    let ex = set![pa];
                    assert forall|i2: int, j: int|
                        0 <= i2 < NUM_FREE_LISTS && 0 <= j < mid.lists@[i2].len() implies mid.lists@[i2][j]
                        != pa && mid.lists@[i2][j] != qa by {
                        let l = mid.lists@[i2];
                        assert(mid.blocks@.contains_key(l[j]));
                        if l[j] == pa {
                            assert(l.contains(pa));
                        }
                    }
                    assert forall|i2: int| 0 <= i2 < NUM_FREE_LISTS implies #[trigger] self.list_wf(i2) by {
                        assert(mid.list_wf(i2));
                        if i2 == i {
                            let l = self.lists@[i2];
                            assert(l.len() == 1 && l[0] == qa);
                            assert(l.no_duplicates());
                        } else {
                            let l = mid.lists@[i2];
                            assert forall|j: int| 0 <= j < l.len() implies l[j] != pa && l[j] != qa by {}
                        }
                    }
                    assert forall|i2: int, j: int|
                        0 <= i2 < NUM_FREE_LISTS && 0 <= j < self.lists@[i2].len() implies {
                            &&& self.blocks@.contains_key(#[trigger] self.lists@[i2][j])
                            &&& list_index(self.blocks@[self.lists@[i2][j]]) == i2
                        } by {
                        if i2 != i {
                            assert(mid.blocks@.contains_key(mid.lists@[i2][j]));
                        }
                    }
                    assert forall|c: u64| #[trigger] self.blocks@.contains_key(c) implies self.block_wf(c, ex) by {
                        if c != pa && c != qa {
                            assert(mid.block_wf(c, ex));
                            if list_index(self.blocks@[c]) == i {
                                assert(!mid.lists@[i].contains(c));
                                assert(!self.lists@[i].contains(c));
                            }
                        } else if c == qa {
                            assert(self.lists@[i][0] == qa);
                        }
                    }
                    assert forall|c: u64, d: u64|
                        self.blocks@.contains_key(c) && self.blocks@.contains_key(d) && c != d implies disjoint(
                        c,
                        #[trigger] self.blocks@[c],
                        d,
                        #[trigger] self.blocks@[d],
                    ) by {
                        if (c == pa || c == qa) && d != pa && d != qa {
                            assert(disjoint(pa, (k + 1) as u64, d, mid.blocks@[d]));
                        } else if (d == pa || d == qa) && c != pa && c != qa {
                            assert(disjoint(pa, (k + 1) as u64, c, mid.blocks@[c]));
                        } else if c != pa && c != qa {
                            assert(mid.blocks@.contains_key(c) && mid.blocks@.contains_key(d));
                        }
                    }
                    assert forall|c: u64| #[trigger] h_avail(self.heap@, c) && !ex.contains(c) implies self.blocks@.contains_key(c) by {
                        if c != pa && c != qa {
                            assert(h_avail(mid.heap@, c));
                        }
                    }
                    assert forall|x: u64| #[trigger] ex.contains(x) implies self.is_allocated(x) by {
                        assert(x == pa);
                        assert(!self.lists@[i].contains(pa)) by {
                            if self.lists@[i].contains(pa) {
                                assert(self.lists@[i][0] == pa);
                            }
                        }
                    }
                    assert forall|x: u64| x != pa implies (#[trigger] self.is_allocated(x) <==> mid.is_allocated(x)) by {
                        if x == qa {
                            assert(self.lists@[i][0] == qa);
                        } else if self.blocks@.contains_key(x) {
                            if list_index(self.blocks@[x]) == i {
                                assert(!self.lists@[i].contains(x));
                                assert(mid.lists@[i].len() == 0);
                            }
                        }
                    }
                    assert forall|x: u64| x != pa && #[trigger] old_self.is_allocated(x) implies self.blocks@[x]
                        == old_self.blocks@[x] by {
                        assert(mid.is_allocated(x));
                    }
                    assert forall|j: int| list_index(k) < j < NUM_FREE_LISTS implies #[trigger] self.lists@[j]
                        == old_self.lists@[j] by {
                        assert(mid.lists@[j] == old_self.lists@[j]);
                    }
                    // free memory: the bigger block left it, its upper half came back
                    mid.lemma_inv_facts(set![pa]);
                    let fm = free_map(mid.lists@, mid.blocks@);
                    assert(!fm.contains_key(pa));
                    lemma_free_map_split(mid.lists@, mid.blocks@, pa, qa, k);
                    assert(free_map(self.lists@, self.blocks@) == fm.insert(qa, k));
                    lemma_bytes_insert(fm, qa, k);
                    lemma_range_halves(pa, qa, k);
                    let r2 = block_range(pa, (k + 1) as u64);
                    let rp = block_range(pa, k);
                    let rq = block_range(qa, k);
                    assert(self.free_bytes() =~= old_self.free_bytes().difference(rp));
                    assert(rp.subset_of(old_self.free_bytes()));
                    let sj = smallest_free(old_self.lists@, k)->0;
                    lemma_smallest_free_ge(old_self.lists@, (k + 1) as u64);
                    assert(sj > k);
                    assert(self.free_blocks() == split_free(old_self.free_blocks(), pa, sj, k));
                }
                Some(block_one)
            }
        } else {
            let ghost head = self.lists@[i][0];
            let r = self.pop(index, Ghost(Set::empty()));
            proof {
                // free memory: the head of the list left it
                let l0 = old_self.lists@[i];
                old_self.lemma_inv_facts(Set::empty());
                assert(l0[0] == head);
                assert(old_self.blocks@.contains_key(head));
                assert(list_index(old_self.blocks@[head]) == i);
                assert(l0.contains(head));
                assert(l0.drop_first() =~= l0.remove(0));
                lemma_seq_remove_contains(l0, 0);
                lemma_free_map_list_remove(old_self.lists@, old_self.blocks@, i, l0.drop_first(), head);
                let fo = free_map(old_self.lists@, old_self.blocks@);
                lemma_bytes_remove(fo, head);
                assert(old_self.is_free(head));
                old_self.lemma_free_block_bytes(head);
                assert(smallest_free(old_self.lists@, k) == Some(k));
                assert(Set::<u64>::empty().insert(head) =~= set![head]);
                let l = old_self.lists@[i];
                assert(old_self.blocks@.contains_key(l[0]));
                assert forall|x: u64| x != head implies (#[trigger] self.is_allocated(x) <==> old_self.is_allocated(x)) by {
                    if self.blocks@.contains_key(x) && list_index(self.blocks@[x]) == i {
                        assert(l.contains(x) <==> l.drop_first().contains(x)) by {
                            if l.contains(x) {
                                let j = choose|j: int| 0 <= j < l.len() && l[j] == x;
                                assert(l.drop_first()[j - 1] == x);
                            }
                        }
                    }
                }
            }
            r
        }
    }

    /// Frees the block in flight `buddy_one`: while its buddy's header says free and of
    /// the same size, takes the buddy out of its free list and merges the two, then
    /// appends the resulting block to its free list.
    fn free_block(&mut self, buddy_one: KernelPointer<BuddyNode>)
        requires
            old(self).inv(set![buddy_one.ptr]),
        ensures
            final(self).wf(),
            final(self).free_blocks() == coalesced(
                old(self).free_blocks(),
                buddy_one.ptr,
                old(self).blocks@[buddy_one.ptr],
            ),
            forall|x: u64|
                #[trigger] final(self).is_allocated(x) <==> (old(self).is_allocated(x) && x
                    != buddy_one.ptr),
            forall|x: u64|
                x != buddy_one.ptr && #[trigger] old(self).is_allocated(x) ==> final(self).blocks@[x]
                    == old(self).blocks@[x],
            final(self).has_free_block(old(self).blocks@[buddy_one.ptr]),
            final(self).free_bytes() == old(self).free_bytes().union(
                block_range(buddy_one.ptr, old(self).blocks@[buddy_one.ptr]),
            ),
            fully_coalesced(old(self).free_blocks()) ==> fully_coalesced(final(self).free_blocks()),
            forall|x: u64, y: u64|
                #[trigger] final(self).is_allocated(x) && #[trigger] final(self).is_free(y) ==> disjoint(
                    x,
                    final(self).spec_blocks()[x],
                    y,
                    final(self).spec_blocks()[y],
                ),
        decreases HEAP_LOG_SIZE - old(self).blocks@[buddy_one.ptr],
    {
        let ghost old_self = *self;
        let ghost a = buddy_one.ptr;
        assert(set![a].contains(a));
        assert(self.is_allocated(a));
        assert(self.block_wf(a, set![a]));
        let ghost k = self.blocks@[a];
        proof {
            if fully_coalesced(old_self.free_blocks()) {
                let f = old_self.free_blocks();
                assert forall|c: u64| #[trigger] f.contains_key(c) implies block_ok(c, f[c]) by {
                    assert(old_self.block_wf(c, set![a]));
                }
                lemma_coalesce_keeps_coalesced(f, a, k);
            }
        }
        let buddy_size_log = self.read_node(buddy_one.ptr).header.size();
        if buddy_size_log as u64 == HEAP_LOG_SIZE {
            self.append(buddy_one, Ghost(Set::<u64>::empty().insert(a)));
            proof {
                self.lemma_after_append(old_self, a);
                self.lemma_append_bytes(old_self, a);
                assert(self.lists@[list_index(k)][0] == a);
                assert(self.is_free(a));
                assert forall|x: u64, y: u64| #[trigger] self.is_allocated(x) && #[trigger] self.is_free(y) implies disjoint(
                    x,
                    self.spec_blocks()[x],
                    y,
                    self.spec_blocks()[y],
                ) by {
                    self.lemma_allocated_apart_from_free(x, y);
                }
            }
            return ;
        }
        proof {
            lemma_buddy_involution(a, k);
        }
        let buddy_two = Self::buddy_address(buddy_one, buddy_size_log);
        let ghost b = buddy_two.ptr;
        let buddy_two_header = self.read_node(buddy_two.ptr).header;
        proof {
            // the header says free and of the same size exactly where the buddy is a free
            // block of the same size
            assert(b != a);
            assert(!set![a].contains(b));
            if old_self.free_blocks().contains_key(b) {
                assert(old_self.is_free(b));
                assert(old_self.block_wf(b, set![a]));
            }
            if h_avail(old_self.heap@, b) {
                assert(old_self.blocks@.contains_key(b));
                assert(old_self.block_wf(b, set![a]));
            }
        }
        if buddy_two_header.is_available() && buddy_two_header.size() == buddy_size_log {
            assert(self.blocks@.contains_key(b));
            assert(self.block_wf(b, set![a]));
            assert(self.is_free(b));
            self.remove(buddy_two, Ghost(Set::<u64>::empty().insert(a))).expect(
                "buddy was marked available but not found in free list",
            );
            let ghost mid = *self;
            assert(set![a].insert(b).contains(a) && set![a].insert(b).contains(b));
            let big_block = self.merge(buddy_one, buddy_two, buddy_size_log, Ghost(Set::<u64>::empty().insert(a).insert(b)));
            let ghost m = big_block.ptr;
            proof {
                assert(set![a].insert(b).remove(a).remove(b).insert(m) =~= set![m]);
                assert(set![m].contains(m));
                let la = old_self.lists@[list_index(k)];
                assert forall|x: u64| #[trigger] self.is_allocated(x) <==> ((old_self.is_allocated(x)
                    && x != a && x != b) || x == m) by {
                    if x != a && x != b && self.blocks@.contains_key(x) && list_index(
                        self.blocks@[x],
                    ) == list_index(k) {
                        let l2 = la.remove(la.index_of(b));
                        assert(la.contains(x) <==> l2.contains(x)) by {
                            let j = la.index_of(b);
                            la.remove_ensures(j);
                            if la.contains(x) {
                                let y = choose|y: int| 0 <= y < la.len() && la[y] == x;
                                if y < j {
                                    assert(l2[y] == x);
                                } else {
                                    assert(y != j);
                                    assert(l2[y - 1] == x);
                                }
                            }
                            if l2.contains(x) {
                                let y = choose|y: int| 0 <= y < l2.len() && l2[y] == x;
                                if y < j {
                                    assert(la[y] == x);
                                } else {
                                    assert(la[y + 1] == x);
                                }
                            }
                        }
                    }
                    if x == b {
                        assert(!old_self.is_allocated(b));
                    }
                }
            }
            let ghost mid2 = *self;
            proof {
                // free memory: the buddy left it, and merging changed no free block
                let ib = list_index(k);
                let lb = old_self.lists@[ib];
                old_self.lemma_inv_facts(set![a]);
                assert(old_self.list_wf(ib));
                assert(old_self.is_free(b));
                lemma_seq_remove_contains(lb, lb.index_of(b));
                lemma_free_map_list_remove(old_self.lists@, old_self.blocks@, ib, lb.remove(lb.index_of(b)), b);
                let fo = free_map(old_self.lists@, old_self.blocks@);
                lemma_bytes_remove(fo, b);
                old_self.lemma_free_block_bytes(b);
                assert(mid.free_bytes() == old_self.free_bytes().difference(block_range(b, k)));
                mid.lemma_inv_facts(set![a].insert(b));
                assert(mid.is_allocated(a) && mid.is_allocated(b));
                lemma_free_map_merge(mid.lists@, mid.blocks@, a, b, m, k);
                assert(mid2.free_bytes() == mid.free_bytes());
                assert(mid.free_blocks() == fo.remove(b));
                assert(mid2.free_blocks() == mid.free_blocks());
                let o = heap_offset(a);
                lemma_buddy_offsets(o, k);
                let other = if a < b { b } else { a };
                assert(other == m + block_bytes(k));
                lemma_range_halves(m, other, k);
            }
            self.free_block(big_block);
            proof {
                let ra = block_range(a, k);
                let rb = block_range(b, k);
                assert(self.free_bytes() =~= old_self.free_bytes().union(ra));
                assert(old_self.free_blocks().contains_key(b) && old_self.free_blocks()[b] == k);
                assert(m == if a < b { a } else { b });
                let w = choose|w: u64| #[trigger] self.is_free(w) && self.spec_blocks()[w] >= mid2.blocks@[m];
                assert(self.is_free(w) && self.spec_blocks()[w] >= k);
                assert forall|x: u64| x != a && #[trigger] old_self.is_allocated(x) implies self.blocks@[x]
                    == old_self.blocks@[x] by {
                    assert(x != b);
                    assert(mid2.is_allocated(x));
                }
            }
        } else {
            self.append(buddy_one, Ghost(Set::<u64>::empty().insert(a)));
            proof {
                self.lemma_after_append(old_self, a);
                self.lemma_append_bytes(old_self, a);
                assert(self.lists@[list_index(k)][0] == a);
                assert(self.is_free(a));
                assert forall|x: u64, y: u64| #[trigger] self.is_allocated(x) && #[trigger] self.is_free(y) implies disjoint(
                    x,
                    self.spec_blocks()[x],
                    y,
                    self.spec_blocks()[y],
                ) by {
                    self.lemma_allocated_apart_from_free(x, y);
                }
            }
        }
    }

    /// After the block in flight `a` is appended to its free list, its addresses are free
    /// memory too.
    proof fn lemma_append_bytes(&self, old_self: Self, a: u64)
        requires
            old_self.inv(set![a]),
            set![a].contains(a),
            self.lists@ == old_self.lists@.update(
                list_index(old_self.blocks@[a]),
                seq![a] + old_self.lists@[list_index(old_self.blocks@[a])],
            ),
            self.blocks@ == old_self.blocks@,
        ensures
            self.free_bytes() == old_self.free_bytes().union(block_range(a, old_self.blocks@[a])),
            self.free_blocks() == old_self.free_blocks().insert(a, old_self.blocks@[a]),
    {
        let i = list_index(old_self.blocks@[a]);
        let l = old_self.lists@[i];
        old_self.lemma_inv_facts(set![a]);
        assert(old_self.is_allocated(a));
        assert(old_self.block_wf(a, set![a]));
        lemma_seq_prepend_contains(a, l);
        lemma_free_map_list_insert(old_self.lists@, old_self.blocks@, i, seq![a] + l, a);
        let fo = free_map(old_self.lists@, old_self.blocks@);
        assert(!fo.contains_key(a));
        lemma_bytes_insert(fo, a, old_self.blocks@[a]);
    }

    /// After the block in flight `a` is appended to its free list, it is no longer handed
    /// out, and nothing else changed.
    proof fn lemma_after_append(&self, old_self: Self, a: u64)
        requires
            old_self.inv(set![a]),
            set![a].contains(a),
            self.lists@ == old_self.lists@.update(
                list_index(old_self.blocks@[a]),
                seq![a] + old_self.lists@[list_index(old_self.blocks@[a])],
            ),
            self.blocks@ == old_self.blocks@,
            self.inv(set![a].remove(a)),
        ensures
            self.wf(),
            forall|x: u64| #[trigger] self.is_allocated(x) <==> (old_self.is_allocated(x) && x != a),
    {
        assert(set![a].remove(a) =~= Set::<u64>::empty());
        let i = list_index(old_self.blocks@[a]);
        let l = old_self.lists@[i];
        assert forall|x: u64| #[trigger] self.is_allocated(x) <==> (old_self.is_allocated(x) && x != a) by {
            assert((seq![a] + l)[0] == a);
            if x != a && self.blocks@.contains_key(x) && list_index(self.blocks@[x]) == i {
                assert(l.contains(x) <==> (seq![a] + l).contains(x)) by {
                    if l.contains(x) {
                        let j = choose|j: int| 0 <= j < l.len() && l[j] == x;
                        assert((seq![a] + l)[j + 1] == x);
                    }
                    if (seq![a] + l).contains(x) {
                        let j = choose|j: int| 0 <= j < (seq![a] + l).len() && (seq![a] + l)[j] == x;
                        assert(l[j - 1] == x);
                    }
                }
            }
        }
    }

    /// No block is free or handed out, and the heap holds no node.
    pub open spec fn is_empty(&self) -> bool {
        &&& self.spec_lists().len() == NUM_FREE_LISTS
        &&& forall|i: int| 0 <= i < NUM_FREE_LISTS ==> #[trigger] self.spec_lists()[i].len() == 0
        &&& self.spec_blocks().is_empty()
        &&& self.spec_heap().is_empty()
    }

    pub fn new() -> (r: Self)
        ensures
            r.wf(),
            r.is_empty(),
    {
        let mut free_lists: [Option<KernelPointer<BuddyNode>>; 16] = [None; 16];
        for i in 0..16
            invariant
                forall|j: int| 0 <= j < i ==> free_lists@[j] is None,
        {
            free_lists[i] = None;
        }
        let r = BinaryBuddyAllocator {
            free_lists,
            heap: HashMap::new(),
            lists: Ghost(Seq::new(16, |i: int| Seq::<u64>::empty())),
            blocks: Ghost(Map::empty()),
        };
        proof {
            assert forall|i: int| 0 <= i < NUM_FREE_LISTS implies #[trigger] r.list_wf(i) by {
                assert(r.free_lists@[i] is None);
            }
        }
        r
    }

    /// Makes the whole heap, starting at `heap_start`, the one free block of the biggest
    /// size.
    pub fn init(&mut self, heap_start: KernelPointer<BuddyNode>)
        ensures
            final(self).spec_lists() == old(self).spec_lists().update(0, seq![heap_start.ptr]),
            final(self).spec_blocks() == old(self).spec_blocks().insert(heap_start.ptr, HEAP_LOG_SIZE),
            final(self).spec_heap().dom() == old(self).spec_heap().dom().insert(heap_start.ptr),
            h_avail(final(self).spec_heap(), heap_start.ptr),
            h_size(final(self).spec_heap(), heap_start.ptr) == HEAP_LOG_SIZE,
            old(self).is_empty() && old(self).wf() && heap_start.ptr == HEAP_START ==> final(self).wf(),
            old(self).is_empty() ==> final(self).free_bytes() == block_range(heap_start.ptr, HEAP_LOG_SIZE),
            old(self).is_empty() ==> final(self).free_blocks() == map![heap_start.ptr => HEAP_LOG_SIZE],
            old(self).is_empty() ==> fully_coalesced(final(self).free_blocks()),
    {
        let ghost old_self = *self;
        self.write_node(heap_start.ptr, BuddyNode::new(HEAP_LOG_SIZE as u8, true));
        self.free_lists[0] = Some(heap_start);
        proof {
            let a = heap_start.ptr;
            self.lists@ = old_self.lists@.update(0, seq![a]);
            self.blocks@ = old_self.blocks@.insert(a, HEAP_LOG_SIZE);
            if old_self.is_empty() {
                let f = free_map(self.lists@, self.blocks@);
                assert(seq![a][0] == a);
                assert(f =~= Map::<u64, u64>::empty().insert(a, HEAP_LOG_SIZE));
                assert(f =~= map![a => HEAP_LOG_SIZE]);
                lemma_bytes_insert(Map::<u64, u64>::empty(), a, HEAP_LOG_SIZE);
                assert(bytes_of(Map::<u64, u64>::empty()) =~= Set::<int>::empty());
                assert(self.free_bytes() =~= block_range(a, HEAP_LOG_SIZE));
            }
            if old_self.is_empty() && old_self.wf() && a == HEAP_START {
                assert(self.heap@ =~= Map::<u64, BuddyNode>::empty().insert(a, self.heap@[a]));
                assert forall|i: int| 0 <= i < NUM_FREE_LISTS implies #[trigger] self.list_wf(i) by {
                    assert(old_self.list_wf(i));
                    if i == 0 {
                        assert(self.lists@[0].len() == 1);
                        assert(self.lists@[0].no_duplicates());
                    }
                }
                assert(heap_offset(a) == 0);
                assert(0u64 & low_mask(HEAP_LOG_SIZE) == 0) by (bit_vector);
                assert forall|c: u64| #[trigger] self.blocks@.contains_key(c) implies self.block_wf(c, Set::empty()) by {
                    assert(c == a);
                    assert(self.lists@[0][0] == a);
                }
                assert forall|c: u64| #[trigger] h_avail(self.heap@, c) implies self.blocks@.contains_key(c) by {
                    assert(c == a);
                }
            }
        }
    }

    /// Hands out `size` bytes aligned to `2^align_log`: the block of the smallest size that
    /// holds them past its header, taken from its free list or split off a bigger free
    /// block. The bytes begin `header_offset(align_log)` past the block's start. Returns
    /// their address, or 0 (null) when the alignment is beyond what the heap's start
    /// allows or no free block is big enough.
    pub fn allocate(&mut self, size: usize, align_log: u32) -> (r: u64)
        requires
            old(self).wf(),
        ensures
            ({
                let off = header_offset(align_log);
                let k = alloc_size_log(size as nat, off as nat);
                &&& r == 0 <==> (align_log > MAX_ALIGN_LOG || k > HEAP_LOG_SIZE || smallest_free(
                    old(self).spec_lists(),
                    k as u64,
                ) is None)
                &&& r == 0 ==> *final(self) == *old(self)
                &&& r != 0 ==> {
                    let p = (r - off) as u64;
                    &&& align_log <= MAX_ALIGN_LOG
                    &&& r % (1u64 << align_log) == 0
                    &&& r >= off
                    &&& r + size <= p + block_bytes(k as u64)
                    &&& smallest_free(old(self).spec_lists(), k as u64) matches Some(s)
                        && p == old(self).spec_lists()[list_index(s)][0]
                        && old(self).is_free(p) && old(self).spec_blocks()[p] == s && k <= s
                    &&& fully_coalesced(old(self).free_blocks()) ==> fully_coalesced(final(self).free_blocks())
                    &&& final(self).wf()
                    &&& final(self).is_allocated(p)
                    &&& final(self).spec_blocks()[p] == k
                    &&& forall|x: u64|
                        x != p ==> (#[trigger] final(self).is_allocated(x) <==> old(
                            self,
                        ).is_allocated(x))
                    &&& forall|x: u64|
                        x != p && #[trigger] old(self).is_allocated(x) ==> final(self).spec_blocks()[x]
                            == old(self).spec_blocks()[x]
                    &&& smallest_free(old(self).spec_lists(), k as u64) matches Some(s)
                        && final(self).free_blocks() == split_free(old(self).free_blocks(), p, s, k as u64)
                    &&& block_range(p, k as u64).subset_of(old(self).free_bytes())
                    &&& final(self).free_bytes() == old(self).free_bytes().difference(block_range(p, k as u64))
                }
            }),
    {
        let ghost old_self = *self;
        if align_log > MAX_ALIGN_LOG {
            return 0;
        }
        let offset = header_offset_of(align_log);
        if size > 0x10_0000 {
            proof {
                lemma_too_big(size as nat, offset as nat);
            }
            return 0;
        }
        // The block needs room for the header, and for the free-list links once it is
        // freed: at least 32 bytes.
        let mut block_size_log = round_log(offset + size as u64);
        if block_size_log < (MIN_BLOCK_SIZE_LOG as u8) {
            block_size_log = MIN_BLOCK_SIZE_LOG as u8;
        }
        let index = self.get_free_list_index(block_size_log);
        let index = match index {
            Some(index) => index,
            None => {
                return 0;
            },
        };
        let block = self.request_block(block_size_log, index);
        match block {
            None => 0,
            Some(kernel_ptr) => {
                let ghost mid = *self;
                let ghost p = kernel_ptr.ptr;
                assert(set![p].contains(p));
                assert(mid.is_allocated(p));
                assert(mid.block_wf(p, set![p]));
                self.write_node(kernel_ptr.ptr, BuddyNode::new(block_size_log, false));
                proof {
                    let k = block_size_log as u64;
                    assert(self.heap@.dom() =~= mid.heap@.dom());
                    assert forall|i2: int| 0 <= i2 < NUM_FREE_LISTS implies #[trigger] self.list_wf(i2) by {
                        assert(mid.list_wf(i2));
                        let l = self.lists@[i2];
                        assert forall|j: int| 0 <= j < l.len() implies l[j] != p by {
                            assert(mid.blocks@.contains_key(l[j]));
                            if l[j] == p {
                                assert(l.contains(p));
                            }
                        }
                    }
                    assert forall|c: u64| #[trigger] self.blocks@.contains_key(c) implies self.block_wf(c, Set::empty()) by {
                        assert(mid.block_wf(c, set![p]));
                    }
                    assert forall|c: u64| #[trigger] h_avail(self.heap@, c) implies self.blocks@.contains_key(c) by {
                        assert(c != p);
                        assert(h_avail(mid.heap@, c));
                    }
                    assert forall|x: u64| x != p implies (#[trigger] self.is_allocated(x) <==> old_self.is_allocated(x)) by {
                        assert(mid.is_allocated(x) == self.is_allocated(x));
                    }
                }
                proof {
                    let k = block_size_log as u64;
                    assert(mid.block_wf(p, set![p]));
                    lemma_allocation_fits(size as nat, offset as nat);
                    assert(k == alloc_size_log(size as nat, offset as nat));
                    lemma_aligned_result(p, k, align_log, offset, size as nat);
                    let s = smallest_free(old_self.spec_lists(), k)->0;
                    lemma_smallest_free_nonempty(old_self.spec_lists(), k);
                    lemma_smallest_free_ge(old_self.spec_lists(), k);
                    assert(old_self.lists@[list_index(s)][0] == p);
                    assert(old_self.spec_lists()[list_index(s)].contains(p));
                    assert(old_self.blocks@.contains_key(p));
                    assert(old_self.is_free(p) && old_self.spec_blocks()[p] == s);
                    if fully_coalesced(old_self.free_blocks()) {
                        lemma_allocate_keeps_coalesced(&old_self, self, p, s, k);
                    }
                }
                kernel_ptr.ptr + offset
            },
        }
    }

    /// Frees the block of the allocation at `ptr`, made with alignment `2^align_log`,
    /// merging it with its buddy for as long as the buddy is a free block of the same size.
    pub fn deallocate(&mut self, ptr: u64, align_log: u32)
        requires
            old(self).wf(),
            align_log <= MAX_ALIGN_LOG,
            ptr >= header_offset(align_log),
            old(self).is_allocated((ptr - header_offset(align_log)) as u64),
        ensures
            final(self).wf(),
            final(self).free_blocks() == coalesced(
                old(self).free_blocks(),
                (ptr - header_offset(align_log)) as u64,
                old(self).spec_blocks()[(ptr - header_offset(align_log)) as u64],
            ),
            forall|x: u64|
                #[trigger] final(self).is_allocated(x) <==> (old(self).is_allocated(x) && x != (ptr
                    - header_offset(align_log))),
            forall|x: u64|
                x != (ptr - header_offset(align_log)) && #[trigger] old(self).is_allocated(x) ==> final(self).spec_blocks()[x]
                    == old(self).spec_blocks()[x],
            final(self).has_free_block(old(self).spec_blocks()[(ptr - header_offset(align_log)) as u64]),
            final(self).free_bytes() == old(self).free_bytes().union(
                block_range((ptr - header_offset(align_log)) as u64, old(self).spec_blocks()[(ptr - header_offset(align_log)) as u64]),
            ),
            fully_coalesced(old(self).free_blocks()) ==> fully_coalesced(final(self).free_blocks()),
    {
        let offset = header_offset_of(align_log);
        let buddy_node_ptr = ptr - offset;
        let buddy_node_kernel_ptr = KernelPointer::new(VirtualAddress::new(buddy_node_ptr));
        proof {
            let a = buddy_node_ptr;
            assert(self.block_wf(a, Set::empty()));
            assert forall|x: u64| #[trigger] set![a].contains(x) implies self.is_allocated(x) by {}
            assert forall|c: u64| #[trigger] self.blocks@.contains_key(c) implies self.block_wf(c, set![a]) by {
                assert(self.block_wf(c, Set::empty()));
            }
        }
        self.free_block(buddy_node_kernel_ptr);
    }
}

impl Default for BinaryBuddyAllocator {
    fn default() -> (r: Self)
        ensures
            r.wf(),
            r.is_empty(),
    {
        Self::new()
    }
}

/// Blocks handed out by the allocator lie inside the heap, aligned to their size, and no
/// two of them overlap.
pub proof fn lemma_allocated_blocks_disjoint(allocator: &BinaryBuddyAllocator, a: u64, b: u64)
    requires
        allocator.wf(),
        allocator.is_allocated(a),
    ensures
        block_ok(a, allocator.spec_blocks()[a]),
        HEAP_START <= a,
        a + block_bytes(allocator.spec_blocks()[a]) <= HEAP_START + 0x10_0000,
        allocator.is_allocated(b) && a != b ==> disjoint(
            a,
            allocator.spec_blocks()[a],
            b,
            allocator.spec_blocks()[b],
        ),
{
    assert(allocator.block_wf(a, Set::empty()));
    lemma_block_end(heap_offset(a), allocator.spec_blocks()[a]);
}

/// A request of `size` bytes that begins `offset` bytes into its block gets the smallest
/// block, no smaller than 32 bytes, that holds it.
pub proof fn lemma_allocation_fits(size: nat, offset: nat)
    ensures
        pow2(alloc_size_log(size, offset)) >= size + offset,
        alloc_size_log(size, offset) == MIN_BLOCK_SIZE_LOG || pow2(
            (alloc_size_log(size, offset) - 1) as nat,
        ) < size + offset,
{
    let v = size + offset;
    lemma_log_ceiling(v);
    let k = log_ceiling(v);
    if k < MIN_BLOCK_SIZE_LOG {
        lemma_pow2_strictly_increases(k, MIN_BLOCK_SIZE_LOG as nat);
    }
}

/// A request of more than the heap's size needs a block bigger than the heap.
proof fn lemma_too_big(size: nat, offset: nat)
    requires
        size > 0x10_0000,
    ensures
        alloc_size_log(size, offset) > HEAP_LOG_SIZE,
{
    lemma_log_ceiling(size + offset);
    lemma2_to64();
    let k = log_ceiling(size + offset);
    if k <= 20 {
        if k < 20 {
            lemma_pow2_strictly_increases(k, 20);
        }
    }
}

/// The bytes handed out from the block at `p` of size log `k`, `offset` bytes past its
/// start, are aligned to `2^align_log` and fit in the block.
proof fn lemma_aligned_result(p: u64, k: u64, align_log: u32, offset: u64, size: nat)
    requires
        block_ok(p, k),
        align_log <= MAX_ALIGN_LOG,
        offset == header_offset(align_log),
        pow2(k as nat) >= size + offset,
    ensures
        p + offset <= u64::MAX,
        (p + offset) as u64 % (1u64 << align_log) == 0,
        p + offset + size <= p + block_bytes(k),
{
    let o = heap_offset(p);
    lemma_block_end(o, k);
    vstd::bits::lemma_u64_pow2_no_overflow(k as nat);
    vstd::bits::lemma_u64_shl_is_mul(1, k);
    assert(block_bytes(k) == pow2(k as nat));
    let r = (p + offset) as u64;
    if align_log <= 3 {
        assert(r % (1u64 << align_log) == 0) by (bit_vector)
            requires
                align_log <= 3,
                5 <= k <= 20,
                p == o + 0x4444_4444_0000u64,
                o < 0x10_0000,
                o & !(0xFFFF_FFFF_FFFF_FFFFu64 << k) == 0,
                offset == 8,
                r == p + offset,
        ;
    } else {
        vstd::bits::lemma_u64_pow2_no_overflow(align_log as nat);
        vstd::bits::lemma_u64_shl_is_mul(1, align_log as u64);
        assert(offset == pow2(align_log as nat));
        // the block holds the offset, so it is at least as big as the alignment
        if (k as nat) < (align_log as nat) {
            lemma_pow2_strictly_increases(k as nat, align_log as nat);
        }
        assert(r % (1u64 << align_log) == 0) by (bit_vector)
            requires
                4 <= align_log <= 18,
                align_log <= k <= 20,
                p == o + 0x4444_4444_0000u64,
                o < 0x10_0000,
                o & !(0xFFFF_FFFF_FFFF_FFFFu64 << k) == 0,
                offset == 1u64 << align_log,
                r == p + offset,
        ;
    }
}

/// Where the allocator has a free block of size log `k` or more, the smallest nonempty
/// free list from any size log `j <= k` up is found.
proof fn lemma_smallest_free_found(allocator: &BinaryBuddyAllocator, j: u64, m: u64)
    requires
        allocator.wf(),
        allocator.is_free(m),
        j <= allocator.spec_blocks()[m],
    ensures
        smallest_free(allocator.spec_lists(), j) is Some,
    decreases allocator.spec_blocks()[m] - j,
{
    let km = allocator.spec_blocks()[m];
    assert(allocator.block_wf(m, Set::empty()));
    if j < km && allocator.spec_lists()[list_index(j)].len() == 0 {
        lemma_smallest_free_found(allocator, (j + 1) as u64, m);
    }
}

/// Freed memory can be handed out again: where a free block of size log `k` or more is
/// left, as `deallocate` leaves one of the freed block's size, a request that fits in a
/// block of size log `k` finds a free list to take it from, so `allocate` does not fail.
pub proof fn lemma_freed_block_reusable(allocator: &BinaryBuddyAllocator, k: u64, size: nat, offset: nat)
    requires
        allocator.wf(),
        allocator.has_free_block(k),
        alloc_size_log(size, offset) <= k,
    ensures
        alloc_size_log(size, offset) <= HEAP_LOG_SIZE,
        smallest_free(allocator.spec_lists(), alloc_size_log(size, offset) as u64) is Some,
{
    let m = choose|m: u64| #[trigger] allocator.is_free(m) && allocator.spec_blocks()[m] >= k;
    assert(allocator.block_wf(m, Set::empty()));
    lemma_smallest_free_found(allocator, alloc_size_log(size, offset) as u64, m);
}

/// Freeing what was allocated gives the memory back: where `allocate` took the block at
/// `p` out of the free memory and `deallocate` of the same block put it back, the free
/// memory is what it was before the allocation; while the block is handed out, none of its
/// addresses is free.
pub proof fn lemma_allocate_then_deallocate(
    before: &BinaryBuddyAllocator,
    allocated: &BinaryBuddyAllocator,
    after: &BinaryBuddyAllocator,
    p: u64,
)
    requires
        block_range(p, allocated.spec_blocks()[p]).subset_of(before.free_bytes()),
        allocated.free_bytes() == before.free_bytes().difference(
            block_range(p, allocated.spec_blocks()[p]),
        ),
        after.free_bytes() == allocated.free_bytes().union(block_range(p, allocated.spec_blocks()[p])),
    ensures
        after.free_bytes() == before.free_bytes(),
        allocated.free_bytes().disjoint(block_range(p, allocated.spec_blocks()[p])),
{
    assert(after.free_bytes() =~= before.free_bytes());
}

/// Freeing what was allocated gives the free blocks back: where the free blocks were
/// fully coalesced, `allocate` split the free block at `p` of size log `s` down to size
/// log `k`, and `deallocate` freed `p` again, the free lists hold the blocks they held
/// before the allocation.
pub proof fn lemma_deallocate_restores_free_blocks(
    before: &BinaryBuddyAllocator,
    allocated: &BinaryBuddyAllocator,
    after: &BinaryBuddyAllocator,
    p: u64,
    s: u64,
    k: u64,
)
    requires
        before.wf(),
        fully_coalesced(before.free_blocks()),
        before.is_free(p),
        before.spec_blocks()[p] == s,
        k <= s,
        allocated.free_blocks() == split_free(before.free_blocks(), p, s, k),
        after.free_blocks() == coalesced(allocated.free_blocks(), p, k),
    ensures
        after.free_blocks() == before.free_blocks(),
{
    before.lemma_inv_facts(Set::empty());
    assert(before.block_wf(p, Set::empty()));
    assert(before.free_blocks().contains_key(p));
    lemma_coalesce_split(before.free_blocks(), p, s, k);
}

/// Every free block is a block of its size inside the heap.
pub open spec fn free_blocks_ok(free: Map<u64, u64>) -> bool {
    forall|a: u64| #[trigger] free.contains_key(a) ==> block_ok(a, free[a])
}

/// A block aligned to a size log is aligned to every smaller one the allocator handles.
proof fn lemma_block_ok_smaller(a: u64, j: u64, k: u64)
    requires
        block_ok(a, j),
        MIN_BLOCK_SIZE_LOG <= k <= j,
    ensures
        block_ok(a, k),
{
    let o = heap_offset(a);
    assert(o & low_mask(k) == 0) by (bit_vector)
        requires
            o & !(0xFFFF_FFFF_FFFF_FFFFu64 << j) == 0,
            k <= j,
            j <= 20,
    ;
}

/// Two blocks of one size with the same buddy are the same block.
proof fn lemma_buddy_injective(a: u64, c: u64, k: u64)
    requires
        block_ok(a, k),
        block_ok(c, k),
        k < HEAP_LOG_SIZE,
        spec_buddy(a, k) == spec_buddy(c, k),
    ensures
        a == c,
{
    lemma_buddy_involution(a, k);
    lemma_buddy_involution(c, k);
}

/// Splitting a free block keeps the free blocks fully coalesced: each upper half that
/// goes back to a free list has the lower half, taken further, as its buddy.
pub proof fn lemma_split_keeps_coalesced(free: Map<u64, u64>, s: u64, j: u64, k: u64)
    requires
        fully_coalesced(free),
        free_blocks_ok(free),
        block_ok(s, j),
        MIN_BLOCK_SIZE_LOG <= k <= j,
    ensures
        fully_coalesced(split_free(free, s, j, k)),
        free_blocks_ok(split_free(free, s, j, k)),
        !split_free(free, s, j, k).contains_key(s),
    decreases j - k,
{
    if k < j {
        lemma_split_keeps_coalesced(free, s, j, (k + 1) as u64);
        let g = split_free(free, s, j, (k + 1) as u64);
        let n = (s + block_bytes(k)) as u64;
        let f = g.insert(n, k);
        assert(f == split_free(free, s, j, k));
        lemma_block_ok_smaller(s, j, k);
        lemma_buddy_inside(s, j, k);
        lemma_buddy_involution(s, k);
        assert(spec_buddy(s, k) == n);
        assert(n != s);
        assert forall|a: u64| #[trigger] f.contains_key(a) implies block_ok(a, f[a]) by {
            if a != n {
                assert(g.contains_key(a));
            }
        }
        assert forall|a: u64|
            #[trigger] f.contains_key(a) && f[a] < HEAP_LOG_SIZE implies !(f.contains_key(
                spec_buddy(a, f[a]),
            ) && f[spec_buddy(a, f[a])] == f[a]) by {
            if a == n {
                assert(spec_buddy(n, k) == s);
            } else {
                assert(g.contains_key(a));
                let t = g[a];
                let b = spec_buddy(a, t);
                if b == n && t == k {
                    assert(block_ok(a, k));
                    lemma_buddy_injective(a, s, k);
                }
            }
        }
    }
}

/// Freeing a block keeps the free blocks fully coalesced: the merges go on for as long as
/// the buddy is free and of the same size, so no two buddies are left free side by side.
pub proof fn lemma_coalesce_keeps_coalesced(free: Map<u64, u64>, a: u64, k: u64)
    requires
        fully_coalesced(free),
        free_blocks_ok(free),
        block_ok(a, k),
    ensures
        fully_coalesced(coalesced(free, a, k)),
        free_blocks_ok(coalesced(free, a, k)),
    decreases HEAP_LOG_SIZE - k,
{
    if k < HEAP_LOG_SIZE {
        let b = spec_buddy(a, k);
        lemma_buddy_involution(a, k);
        if free.contains_key(b) && free[b] == k {
            let m = if a < b {
                a
            } else {
                b
            };
            let g = free.remove(b);
            assert forall|c: u64| #[trigger] g.contains_key(c) implies block_ok(c, g[c]) by {
                assert(free.contains_key(c));
            }
            lemma_coalesce_keeps_coalesced(g, m, (k + 1) as u64);
            return;
        }
    }
    let f = free.insert(a, k);
    assert(f == coalesced(free, a, k));
    assert forall|c: u64| #[trigger] f.contains_key(c) implies block_ok(c, f[c]) by {
        if c != a {
            assert(free.contains_key(c));
        }
    }
    assert forall|c: u64|
        #[trigger] f.contains_key(c) && f[c] < HEAP_LOG_SIZE implies !(f.contains_key(
            spec_buddy(c, f[c]),
        ) && f[spec_buddy(c, f[c])] == f[c]) by {
        if c == a {
            assert(spec_buddy(a, k) != a);
        } else {
            assert(free.contains_key(c));
            let t = free[c];
            let d = spec_buddy(c, t);
            if d == a && t == k {
                assert(block_ok(c, k));
                lemma_buddy_involution(c, k);
                assert(c == spec_buddy(a, k));
            }
        }
    }
}

/// The free blocks stay fully coalesced through an allocation: where they were before
/// `allocate` split the free block at `p` of size log `s` down to size log `k`, they are
/// after it.
pub proof fn lemma_allocate_keeps_coalesced(
    before: &BinaryBuddyAllocator,
    after: &BinaryBuddyAllocator,
    p: u64,
    s: u64,
    k: u64,
)
    requires
        before.wf(),
        fully_coalesced(before.free_blocks()),
        before.is_free(p),
        before.spec_blocks()[p] == s,
        MIN_BLOCK_SIZE_LOG <= k <= s,
        after.free_blocks() == split_free(before.free_blocks(), p, s, k),
    ensures
        fully_coalesced(after.free_blocks()),
{
    before.lemma_blocks_ok();
    assert(before.block_wf(p, Set::empty()));
    lemma_split_keeps_coalesced(before.free_blocks(), p, s, k);
}

/// The free blocks stay fully coalesced through a free: where they were before
/// `deallocate` freed the allocated block at `p`, they are after it.
pub proof fn lemma_deallocate_keeps_coalesced(
    before: &BinaryBuddyAllocator,
    after: &BinaryBuddyAllocator,
    p: u64,
)
    requires
        before.wf(),
        fully_coalesced(before.free_blocks()),
        before.is_allocated(p),
        after.free_blocks() == coalesced(before.free_blocks(), p, before.spec_blocks()[p]),
    ensures
        fully_coalesced(after.free_blocks()),
{
    before.lemma_blocks_ok();
    assert(before.block_wf(p, Set::empty()));
    lemma_coalesce_keeps_coalesced(before.free_blocks(), p, before.spec_blocks()[p]);
}

} // verus!
