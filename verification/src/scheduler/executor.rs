//! The executor's run queue: tasks are polled in turn, first in first out; a task that is
//! not finished goes to the back. Polling a task is running its future, done outside this
//! library.
use std::collections::VecDeque;
use vstd::prelude::*;

verus! {

/// The tasks waiting to be polled, in the order they will be.
pub struct Executor<T> {
    tasks: VecDeque<T>,
}

impl<T> View for Executor<T> {
    type V = Seq<T>;

    closed spec fn view(&self) -> Seq<T> {
        self.tasks@
    }
}

impl<T> Executor<T> {
    /// An empty run queue.
    pub fn new() -> (r: Self)
        ensures
            r@ == Seq::<T>::empty(),
    {
        Executor { tasks: VecDeque::new() }
    }

    /// Puts `task` at the back of the queue.
    pub fn add(&mut self, task: T)
        ensures
            final(self)@ == old(self)@.push(task),
    {
        self.tasks.push_back(task);
    }

    /// Takes the task at the front of the queue; none when the queue is empty.
    pub fn next_task(&mut self) -> (r: Option<T>)
        ensures
            old(self)@.len() == 0 ==> r is None && final(self)@ == old(self)@,
            old(self)@.len() > 0 ==> r == Some(old(self)@[0]) && final(self)@ == old(self)@.drop_first(),
    {
        self.tasks.pop_front()
    }

    /// After `task` was polled: a finished task leaves, one that is not goes to the back.
    pub fn requeue(&mut self, task: T, finished: bool)
        ensures
            finished ==> final(self)@ == old(self)@,
            !finished ==> final(self)@ == old(self)@.push(task),
    {
        if !finished {
            self.add(task);
        }
    }
}

impl<T> Default for Executor<T> {
    fn default() -> (r: Self)
        ensures
            r@ == Seq::<T>::empty(),
    {
        Self::new()
    }
}

/// Polling the front task and putting it back when it is not finished loses no task and
/// adds none: the queue holds the same tasks, the polled one now last.
pub proof fn lemma_requeue_keeps_tasks<T>(tasks: Seq<T>)
    requires
        tasks.len() > 0,
    ensures
        tasks.drop_first().push(tasks[0]).to_multiset() == tasks.to_multiset(),
        tasks.drop_first().push(tasks[0]).last() == tasks[0],
{
    broadcast use vstd::seq_lib::group_to_multiset_ensures;

    assert(tasks =~= seq![tasks[0]] + tasks.drop_first());
    vstd::seq_lib::lemma_multiset_commutative(seq![tasks[0]], tasks.drop_first());
    assert(tasks.drop_first().push(tasks[0]) =~= tasks.drop_first() + seq![tasks[0]]);
}

} // verus!
