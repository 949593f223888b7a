//! crossbeam's bounded first-in first-out `ArrayQueue<u8>`, seen through the bytes it
//! holds and the capacity it was made with.
use crossbeam_queue::ArrayQueue;
use vstd::prelude::*;

verus! {

#[verifier::external_type_specification]
#[verifier::external_body]
#[verifier::reject_recursive_types(T)]
pub struct ExArrayQueue<T>(ArrayQueue<T>);

/// The bytes that `queue` holds, oldest first.
pub uninterp spec fn queue_items(queue: ArrayQueue<u8>) -> Seq<u8>;

/// The capacity that `queue` was made with.
pub uninterp spec fn queue_capacity(queue: ArrayQueue<u8>) -> nat;

/// A capacity that `ArrayQueue::new` takes: not zero, and its buffer of 16-byte slots
/// fits in `isize::MAX` bytes.
pub open spec fn queue_capacity_ok(cap: usize) -> bool {
    0 < cap && cap * 16 <= isize::MAX
}

/// `ArrayQueue::new(cap)`: an empty queue of capacity `cap`. The crate panics on a zero
/// capacity and on one whose buffer cannot be allocated; `requires` leaves both out.
#[verifier::external_body]
pub(crate) fn new_byte_queue(cap: usize) -> (r: ArrayQueue<u8>)
    requires
        queue_capacity_ok(cap),
    ensures
        queue_items(r) == Seq::<u8>::empty(),
        queue_capacity(r) == cap,
{
    ArrayQueue::new(cap)
}

/// `ArrayQueue::push_mut`: appends `value` at the back when the queue holds fewer bytes
/// than its capacity; otherwise hands `value` back and leaves the queue as it was.
#[verifier::external_body]
pub(crate) fn byte_queue_push(queue: &mut ArrayQueue<u8>, value: u8) -> (r: Result<(), u8>)
    requires
        queue_items(*old(queue)).len() <= queue_capacity(*old(queue)),
    ensures
        queue_capacity(*final(queue)) == queue_capacity(*old(queue)),
        r is Ok <==> queue_items(*old(queue)).len() < queue_capacity(*old(queue)),
        r is Ok ==> queue_items(*final(queue)) == queue_items(*old(queue)).push(value),
        r matches Err(v) ==> v == value && queue_items(*final(queue)) == queue_items(*old(queue)),
{
    queue.push_mut(value)
}

/// `ArrayQueue::pop_mut`: takes the oldest byte from the front; none from an empty queue.
#[verifier::external_body]
pub(crate) fn byte_queue_pop(queue: &mut ArrayQueue<u8>) -> (r: Option<u8>)
    ensures
        queue_capacity(*final(queue)) == queue_capacity(*old(queue)),
        queue_items(*old(queue)).len() == 0 ==> r == None::<u8> && queue_items(*final(queue))
            == queue_items(*old(queue)),
        queue_items(*old(queue)).len() > 0 ==> r == Some(queue_items(*old(queue))[0])
            && queue_items(*final(queue)) == queue_items(*old(queue)).drop_first(),
{
    queue.pop_mut()
}

/// `ArrayQueue::is_full`: whether the queue holds as many bytes as its capacity.
#[verifier::external_body]
pub(crate) fn byte_queue_is_full(queue: &ArrayQueue<u8>) -> (r: bool)
    requires
        queue_items(*queue).len() <= queue_capacity(*queue),
    ensures
        r == (queue_items(*queue).len() == queue_capacity(*queue)),
{
    queue.is_full()
}

} // verus!
