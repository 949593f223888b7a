use crate::utils::KernelPointer;
use vstd::prelude::*;

verus! {

/// Size: a block of `2^k` bytes stores `k`.
#[derive(Debug, Clone, Copy)]
pub struct BuddyHeader {
    available: u32,
    size: u32,
}

impl BuddyHeader {
    /// The block is free.
    pub closed spec fn spec_available(&self) -> bool {
        self.available == 1
    }

    /// The base-2 logarithm of the block's size.
    pub closed spec fn spec_size(&self) -> u8 {
        self.size as u8
    }

    pub fn new(size: u8, available: bool) -> (r: Self)
        ensures
            r.spec_size() == size,
            r.spec_available() == available,
    {
        BuddyHeader { available: if available { 1 } else { 0 }, size: size as u32 }
    }

    pub fn is_available(&self) -> (r: bool)
        ensures
            r == self.spec_available(),
    {
        self.available == 1
    }

    pub fn size(&self) -> (r: u8)
        ensures
            r == self.spec_size(),
    {
        self.size as u8
    }
}

/// Each block of the heap starts with this node: its header, and the links of the
/// doubly linked free list that holds it while it is free (`None` stands for the null
/// pointer at either end of the list).
#[derive(Debug, Clone, Copy)]
pub struct BuddyNode {
    pub header: BuddyHeader,
    pub next: Option<KernelPointer<BuddyNode>>,
    pub previous: Option<KernelPointer<BuddyNode>>,
}

impl BuddyNode {
    pub fn new(size: u8, available: bool) -> (r: Self)
        ensures
            r.header.spec_size() == size,
            r.header.spec_available() == available,
            r.next is None,
            r.previous is None,
    {
        BuddyNode {
            header: BuddyHeader::new(size, available),
            next: None,
            previous: None,
        }
    }
}

} // verus!
