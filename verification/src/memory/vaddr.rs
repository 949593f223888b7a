use vstd::prelude::*;

verus! {

/// A virtual address, as the physical-memory mapping uses it.
#[derive(Debug, Clone, Copy)]
pub struct VirtualAddress {
    pub addr: u64,
}

impl VirtualAddress {
    pub fn new(addr: u64) -> (r: Self)
        ensures
            r.addr == addr,
    {
        VirtualAddress { addr }
    }

    pub fn as_u64(&self) -> (r: u64)
        ensures
            r == self.addr,
    {
        self.addr
    }
}

/// Translating a virtual address of the bootloader's complete physical-memory mapping
/// adds the offset.
impl core::ops::Add<u64> for VirtualAddress {
    type Output = Self;

    fn add(self, other: u64) -> (r: Self)
        ensures
            r.addr == self.addr + other,
    {
        VirtualAddress { addr: self.as_u64() + other }
    }
}

impl vstd::std_specs::ops::AddSpecImpl<u64> for VirtualAddress {
    open spec fn obeys_add_spec() -> bool {
        true
    }

    open spec fn add_req(self, rhs: u64) -> bool {
        self.addr + rhs <= u64::MAX
    }

    open spec fn add_spec(self, rhs: u64) -> Self {
        VirtualAddress { addr: (self.addr + rhs) as u64 }
    }
}

} // verus!
