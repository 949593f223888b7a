use vstd::prelude::*;

verus! {

/// A physical address.
#[derive(Debug, Clone, Copy)]
pub struct PhysicalAddress {
    pub addr: u64,
}

impl PhysicalAddress {
    pub fn new(addr: u64) -> (r: Self)
        ensures
            r.addr == addr,
    {
        PhysicalAddress { addr }
    }

    pub fn as_u64(&self) -> (r: u64)
        ensures
            r == self.addr,
    {
        self.addr
    }
}

} // verus!
