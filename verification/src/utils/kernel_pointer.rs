use crate::memory::addr::VirtualAddress;
use core::marker::PhantomData;
use vstd::prelude::*;

verus! {

/// The address of a `T` in kernel memory.
///
/// A structure that holds such pointers (the buddy allocator) is shared only behind a
/// lock, so the pointer may move between threads.
#[derive(Debug)]
pub struct KernelPointer<T> {
    pub ptr: u64,
    pub marker: PhantomData<T>,
}

impl<T> Clone for KernelPointer<T> {
    fn clone(&self) -> (r: Self)
        ensures
            r == *self,
    {
        KernelPointer { ptr: self.ptr, marker: PhantomData }
    }
}

impl<T> Copy for KernelPointer<T> {

}

impl<T> KernelPointer<T> {
    pub fn new(addr: VirtualAddress) -> (r: Self)
        ensures
            r.ptr == addr.addr,
    {
        KernelPointer { ptr: addr.addr, marker: PhantomData }
    }

    /// The pointer holds address zero.
    pub fn is_null(&self) -> (r: bool)
        ensures
            r == (self.ptr == 0),
    {
        self.ptr == 0
    }
}

} // verus!
