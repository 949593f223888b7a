//! Tasks: a future with an identifier. Identifiers are handed out in increasing order from
//! one counter, which wraps around after 2^64 tasks.
use vstd::prelude::*;

pub mod keyboard;
pub mod shell;
pub mod time;

verus! {

/// A task's identifier.
#[derive(Debug, Clone, Copy, PartialEq, Eq, PartialOrd, Ord, Hash)]
pub struct TaskId(pub u64);

/// The counter that identifiers are taken from.
pub struct TaskIdCounter {
    next: u64,
}

impl TaskIdCounter {
    /// The identifier that the next task gets.
    pub closed spec fn next(&self) -> u64 {
        self.next
    }

    /// A counter that starts at 0.
    pub fn new() -> (r: Self)
        ensures
            r.next() == 0,
    {
        TaskIdCounter { next: 0 }
    }

    /// Takes the next identifier; the counter moves on by one, wrapping around.
    pub fn fresh(&mut self) -> (r: TaskId)
        ensures
            r == TaskId(old(self).next()),
            final(self).next() == (old(self).next() + 1) % 0x1_0000_0000_0000_0000,
    {
        let id = self.next;
        self.next = self.next.wrapping_add(1);
        TaskId(id)
    }
}

/// The identifier that the `k`-th take (counting from 0) from a counter at `start` gives:
/// `start + k`, wrapped around.
pub open spec fn nth_id(start: u64, k: nat) -> u64 {
    ((start + k) % 0x1_0000_0000_0000_0000) as u64
}

/// Each take moves the counter on to the identifier of the next take: a counter at the
/// `k`-th identifier is at the `k + 1`-th one after `fresh`.
pub proof fn lemma_fresh_steps(start: u64, k: nat)
    ensures
        (nth_id(start, k) + 1) % 0x1_0000_0000_0000_0000 == nth_id(start, k + 1),
{
    let m: int = 0x1_0000_0000_0000_0000;
    let a: int = start + k;
    assert(((a % m) + 1) % m == (a + 1) % m) by (nonlinear_arith)
        requires
            m > 0,
    ;
}

/// Identifiers taken one after the other from a counter are all different as long as
/// fewer than 2^64 are taken.
pub proof fn lemma_fresh_ids_differ(start: u64, i: nat, j: nat)
    requires
        i < j < 0x1_0000_0000_0000_0000,
    ensures
        nth_id(start, i) != nth_id(start, j),
{
    let m: int = 0x1_0000_0000_0000_0000;
    let a = start + i;
    let b = start + j;
    assert(0 < b - a < m);
    assert(a % m != b % m) by (nonlinear_arith)
        requires
            0 < b - a < m,
            m > 0,
    ;
}

/// Identifiers taken one after the other from a counter increase as long as the counter
/// does not wrap around: from a new counter (at 0), a task made earlier has the smaller
/// identifier, for the first 2^64 tasks.
pub proof fn lemma_fresh_ids_increase(start: u64, i: nat, j: nat)
    requires
        i < j,
        start + j < 0x1_0000_0000_0000_0000,
    ensures
        nth_id(start, i) < nth_id(start, j),
{
    let m: int = 0x1_0000_0000_0000_0000;
    assert((start + i) % m == start + i) by (nonlinear_arith)
        requires
            0 <= start + i < m,
    ;
    assert((start + j) % m == start + j) by (nonlinear_arith)
        requires
            0 <= start + j < m,
    ;
}

/// A task: its identifier and its future.
pub struct Task<F> {
    pub id: TaskId,
    pub future: F,
}

impl<F> Task<F> {
    /// A task for `future`, with the next identifier of `ids`.
    pub fn new(ids: &mut TaskIdCounter, future: F) -> (r: Self)
        ensures
            r.id == TaskId(old(ids).next()),
            r.future == future,
            final(ids).next() == (old(ids).next() + 1) % 0x1_0000_0000_0000_0000,
    {
        let id = ids.fresh();
        Task { id, future }
    }
}

} // verus!
