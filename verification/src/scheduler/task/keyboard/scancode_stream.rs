//! The queue through which the keyboard interrupt hands scancodes to the tasks that read
//! the keyboard.
use crate::utils::byte_queue::{
    byte_queue_pop, byte_queue_push, new_byte_queue, queue_capacity, queue_items,
    queue_capacity_ok,
};
use crossbeam_queue::ArrayQueue;
use vstd::prelude::*;

verus! {

/// The capacity of the kernel's scancode queue.
pub const SCANCODE_QUEUE_SIZE: usize = 100;

/// Scancodes in the order the keyboard sent them, at most as many as the capacity.
pub struct ScancodeQueue {
    pub queue: ArrayQueue<u8>,
}

impl ScancodeQueue {
    /// The scancodes waiting, oldest first.
    pub open spec fn items(&self) -> Seq<u8> {
        queue_items(self.queue)
    }

    /// How many scancodes the queue can hold.
    pub open spec fn capacity(&self) -> nat {
        queue_capacity(self.queue)
    }

    /// The queue holds no more than its capacity.
    pub open spec fn wf(&self) -> bool {
        self.items().len() <= self.capacity()
    }

    /// An empty queue for `size` scancodes.
    pub fn new(size: usize) -> (r: Self)
        requires
            queue_capacity_ok(size),
        ensures
            r.wf(),
            r.items() == Seq::<u8>::empty(),
            r.capacity() == size,
    {
        ScancodeQueue { queue: new_byte_queue(size) }
    }

    /// Appends `value`; where the queue is full, hands `value` back and changes nothing.
    pub fn push(&mut self, value: u8) -> (r: Result<(), u8>)
        requires
            old(self).wf(),
        ensures
            final(self).wf(),
            final(self).capacity() == old(self).capacity(),
            r is Ok <==> old(self).items().len() < old(self).capacity(),
            r is Ok ==> final(self).items() == old(self).items().push(value),
            r matches Err(v) ==> v == value && final(self).items() == old(self).items(),
    {
        byte_queue_push(&mut self.queue, value)
    }

    /// Takes the oldest scancode; none from an empty queue.
    pub fn pop(&mut self) -> (r: Option<u8>)
        requires
            old(self).wf(),
        ensures
            final(self).wf(),
            final(self).capacity() == old(self).capacity(),
            old(self).items().len() == 0 ==> r == None::<u8> && final(self).items() == old(self).items(),
            old(self).items().len() > 0 ==> r == Some(old(self).items()[0]) && final(self).items()
                == old(self).items().drop_first(),
    {
        byte_queue_pop(&mut self.queue)
    }
}

/// Scancodes come out in the order they went in: after pushing `value` onto a queue with
/// room, a pop gives the oldest scancode, and `value` waits behind the others.
pub proof fn lemma_scancodes_in_order(before: Seq<u8>, value: u8)
    ensures
        before.len() == 0 ==> before.push(value)[0] == value && before.push(value).drop_first()
            == before,
        before.len() > 0 ==> before.push(value)[0] == before[0] && before.push(value).drop_first()
            == before.drop_first().push(value),
{
    assert(before.len() > 0 ==> before.push(value).drop_first() =~= before.drop_first().push(value));
    assert(before.len() == 0 ==> before.push(value).drop_first() =~= before);
}

} // verus!
