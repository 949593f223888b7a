//! The scancode stream that the keyboard interrupt fills.
use crate::utils::byte_queue::{
    byte_queue_is_full, byte_queue_pop, byte_queue_push, new_byte_queue, queue_capacity,
    queue_capacity_ok, queue_items,
};
use crossbeam_queue::ArrayQueue;
use vstd::prelude::*;

verus! {

/// The capacity of the kernel's scancode stream.
pub const SCANCODE_QUEUE_SIZE: usize = 100;

/// Scancodes in the order the keyboard sent them.
pub struct ScancodeStream {
    queue: ArrayQueue<u8>,
}

impl ScancodeStream {
    /// The scancodes waiting, oldest first.
    pub closed spec fn items(&self) -> Seq<u8> {
        queue_items(self.queue)
    }

    /// How many scancodes the stream can hold.
    pub closed spec fn capacity(&self) -> nat {
        queue_capacity(self.queue)
    }

    /// The stream holds no more than its capacity.
    pub open spec fn wf(&self) -> bool {
        self.items().len() <= self.capacity()
    }

    /// An empty stream for `size` scancodes.
    pub fn new(size: usize) -> (r: Self)
        requires
            queue_capacity_ok(size),
        ensures
            r.wf(),
            r.items() == Seq::<u8>::empty(),
            r.capacity() == size,
    {
        ScancodeStream { queue: new_byte_queue(size) }
    }

    /// Whether the stream holds as many scancodes as it can.
    pub fn is_full(&self) -> (r: bool)
        requires
            self.wf(),
        ensures
            r == (self.items().len() == self.capacity()),
    {
        byte_queue_is_full(&self.queue)
    }

    /// Appends `value`. The stream must not be full.
    pub fn push(&mut self, value: u8)
        requires
            old(self).wf(),
            old(self).items().len() < old(self).capacity(),
        ensures
            final(self).wf(),
            final(self).capacity() == old(self).capacity(),
            final(self).items() == old(self).items().push(value),
    {
        let pushed = byte_queue_push(&mut self.queue, value);
        // the stream was not full
        assert(pushed is Ok);
    }

    /// Takes the oldest scancode; none from an empty stream.
    pub fn pop(&mut self) -> (r: Option<u8>)
        requires
            old(self).wf(),
        ensures
            final(self).wf(),
            final(self).capacity() == old(self).capacity(),
            old(self).items().len() == 0 ==> r == None::<u8> && final(self).items() == old(self).items(),
            old(self).items().len() > 0 ==> r == Some(old(self).items()[0]) && final(self).items()
                == old(self).items().drop_first(),
    {
        byte_queue_pop(&mut self.queue)
    }
}

} // verus!
