use vstd::prelude::*;

verus! {

/// An x86-64 I/O port, named by its 16-bit address. Reading and writing a port is done
/// by the `in` and `out` instructions, outside this library.
#[derive(Debug, Clone, Copy, PartialEq, Eq)]
pub struct Port {
    pub addr: u16,
}

impl Port {
    pub fn new(addr: u16) -> (r: Self)
        ensures
            r.addr == addr,
    {
        Port { addr }
    }
}

/// A byte to write to a port.
#[derive(Debug, Clone, Copy, PartialEq, Eq)]
pub struct PortWrite {
    pub port: Port,
    pub value: u8,
}

/// A 32-bit word to write to a port.
#[derive(Debug, Clone, Copy, PartialEq, Eq)]
pub struct PortWriteLong {
    pub port: Port,
    pub value: u32,
}

} // verus!
