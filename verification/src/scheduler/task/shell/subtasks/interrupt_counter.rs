//! The `int_count` command: the timer and keyboard interrupts counted since it started,
//! shown on one line until `q` is pressed. The counters and the waking are kept outside
//! this library.
use crate::scheduler::task::keyboard::scancode_stream::ScancodeQueue;
use crate::scheduler::task::keyboard::{key_char, KeyboardDecoder};
use crate::utils::text::{ascii_bytes, left_aligned, push_ascii, push_decimal_left, spec_decimal};
use vstd::prelude::*;
use vstd::string::*;

verus! {

/// The width of each count's field.
pub const COUNT_WIDTH: usize = 5;

/// `Timer: t | Kbd: k`, each count left-aligned in a field of five.
pub open spec fn spec_counter_text(timer: u64, keyboard: u64) -> Seq<u8> {
    ascii_bytes(seq!['T', 'i', 'm', 'e', 'r', ':', ' ']) + left_aligned(spec_decimal(timer as nat), 5)
        + ascii_bytes(seq![' ', '|', ' ', 'K', 'b', 'd', ':', ' ']) + left_aligned(
        spec_decimal(keyboard as nat),
        5,
    )
}

pub fn counter_text(timer: u64, keyboard: u64) -> (r: Vec<u8>)
    ensures
        r@ == spec_counter_text(timer, keyboard),
{
    let head = "Timer: ";
    let mid = " | Kbd: ";
    proof {
        reveal_strlit("Timer: ");
        reveal_strlit(" | Kbd: ");
        assert(head@ =~= seq!['T', 'i', 'm', 'e', 'r', ':', ' ']);
        assert(mid@ =~= seq![' ', '|', ' ', 'K', 'b', 'd', ':', ' ']);
    }
    let mut out: Vec<u8> = Vec::new();
    push_ascii(&mut out, head);
    push_decimal_left(&mut out, timer, COUNT_WIDTH);
    push_ascii(&mut out, mid);
    push_decimal_left(&mut out, keyboard, COUNT_WIDTH);
    assert(out@ =~= spec_counter_text(timer, keyboard));
    out
}

/// Whether a key ends the command: `q`.
pub fn is_quit_key(c: char) -> (r: bool)
    ensures
        r == (c == 'q'),
{
    c == 'q'
}

/// Feeds the scancodes waiting in `queue` to `decoder`, oldest first, until one completes
/// the key `q`: true where one did, and the scancodes after it stay in the queue; false
/// where the queue ran empty first. Which scancode completes which key is the decoder's
/// (its state is not modelled), so where the drain stops is not fixed here: what is left
/// is what came last, one scancode fewer at least where `q` came.
pub fn drain_until_quit(queue: &mut ScancodeQueue, decoder: &mut KeyboardDecoder) -> (r: bool)
    requires
        old(queue).wf(),
    ensures
        final(queue).wf(),
        final(queue).capacity() == old(queue).capacity(),
        !r ==> final(queue).items().len() == 0,
        exists|k: int|
            #![trigger old(queue).items().subrange(k, old(queue).items().len() as int)]
            (if r { 1int } else { 0int }) <= k <= old(queue).items().len() && final(queue).items()
                == old(queue).items().subrange(k, old(queue).items().len() as int),
{
    let ghost q0 = queue.items();
    let ghost mut consumed: int = 0;
    assert(q0.subrange(0, q0.len() as int) =~= q0);
    loop
        invariant
            queue.wf(),
            queue.capacity() == old(queue).capacity(),
            q0 == old(queue).items(),
            0 <= consumed <= q0.len(),
            queue.items() == q0.subrange(consumed, q0.len() as int),
        decreases queue.items().len(),
    {
        match queue.pop() {
            None => {
                return false;
            },
            Some(scancode) => {
                proof {
                    consumed = consumed + 1;
                    assert(queue.items() =~= q0.subrange(consumed, q0.len() as int));
                }
                if let Some(key) = decoder.decode(scancode) {
                    if is_quit_key(key_char(&key)) {
                        return true;
                    }
                }
            },
        }
    }
}

} // verus!
