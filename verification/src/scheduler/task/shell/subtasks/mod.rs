//! The shell's commands: a registry from command names to handlers. What a handler does
//! when called is the task it starts, outside this library.
use crate::utils::text::str_eq;
use vstd::prelude::*;
use vstd::string::*;

pub mod interrupt_counter;
pub mod memdump;
pub mod sound;

verus! {

/// Command names and their handlers, each name once.
pub struct CommandRegistry<H> {
    names: Vec<String>,
    handlers: Vec<H>,
}

impl<H> CommandRegistry<H> {
    /// The name of the `i`-th entry.
    pub closed spec fn name(&self, i: int) -> Seq<char> {
        self.names@[i]@
    }

    /// The number of entries.
    pub closed spec fn len(&self) -> nat {
        self.names@.len()
    }

    /// The entry that holds name `k`.
    pub closed spec fn index_of(&self, k: Seq<char>) -> int {
        choose|i: int| 0 <= i < self.len() && #[trigger] self.name(i) == k
    }

    /// As many handlers as names, and no name twice.
    pub closed spec fn wf(&self) -> bool {
        &&& self.names@.len() == self.handlers@.len()
        &&& forall|i: int, j: int|
            0 <= i < self.len() && 0 <= j < self.len() && i != j ==> #[trigger] self.name(i)
                != #[trigger] self.name(j)
    }

    proof fn lemma_index_of(&self, i: int)
        requires
            self.wf(),
            0 <= i < self.len(),
        ensures
            self.index_of(self.name(i)) == i,
    {
        let k = self.name(i);
        assert(0 <= i < self.len() && self.name(i) == k);
        let j = self.index_of(k);
        assert(0 <= j < self.len() && self.name(j) == k);
    }
}

impl<H> View for CommandRegistry<H> {
    type V = Map<Seq<char>, H>;

    closed spec fn view(&self) -> Map<Seq<char>, H> {
        Map::new(
            |k: Seq<char>| exists|i: int| 0 <= i < self.len() && #[trigger] self.name(i) == k,
            |k: Seq<char>| self.handlers@[self.index_of(k)],
        )
    }
}

impl<H> CommandRegistry<H> {
    /// An empty registry.
    pub fn new() -> (r: Self)
        ensures
            r.wf(),
            r@ == Map::<Seq<char>, H>::empty(),
    {
        let r = CommandRegistry { names: Vec::new(), handlers: Vec::new() };
        assert(r@ =~= Map::<Seq<char>, H>::empty());
        r
    }

    /// The entry named `name`, if any.
    fn find(&self, name: &str) -> (r: Option<usize>)
        requires
            self.wf(),
        ensures
            r matches Some(i) ==> i < self.len() && self.name(i as int) == name@,
            r is None ==> !self@.contains_key(name@),
    {
        let mut i: usize = 0;
        while i < self.names.len()
            invariant
                self.wf(),
                i <= self.len(),
                forall|j: int| 0 <= j < i ==> #[trigger] self.name(j) != name@,
            decreases self.len() - i,
        {
            if str_eq(self.names[i].as_str(), name) {
                return Some(i);
            }
            i += 1;
        }
        None
    }

    /// Maps `name` to `handler`, in place of a handler it had.
    pub fn register(&mut self, name: &str, handler: H)
        requires
            old(self).wf(),
        ensures
            final(self).wf(),
            final(self)@ == old(self)@.insert(name@, handler),
    {
        let ghost old_self = *self;
        match self.find(name) {
            Some(i) => {
                self.handlers.set(i, handler);
                proof {
                    assert(self.names@ == old_self.names@);
                    assert forall|a: int, b: int|
                        0 <= a < self.len() && 0 <= b < self.len() && a != b implies #[trigger] self.name(a)
                        != #[trigger] self.name(b) by {
                        assert(self.name(a) == old_self.name(a));
                        assert(self.name(b) == old_self.name(b));
                    }
                    assert(self.wf());
                    old_self.lemma_index_of(i as int);
                    assert forall|k: Seq<char>| #[trigger] self@.contains_key(k) implies self@[k] == old_self@.insert(name@, handler)[k] by {
                        let j = choose|j: int| 0 <= j < self.len() && #[trigger] self.name(j) == k;
                        self.lemma_index_of(j);
                        old_self.lemma_index_of(j);
                        assert(old_self@.contains_key(k));
                    }
                    assert forall|k: Seq<char>| #[trigger] old_self@.insert(name@, handler).contains_key(k) implies self@.contains_key(k) by {
                        if k != name@ {
                            let j = choose|j: int| 0 <= j < old_self.len() && #[trigger] old_self.name(j) == k;
                            assert(self.name(j) == k);
                        } else {
                            assert(self.name(i as int) == k);
                        }
                    }
                    assert forall|k: Seq<char>| #[trigger] self@.contains_key(k) implies old_self@.insert(name@, handler).contains_key(k) by {
                        let j = choose|j: int| 0 <= j < self.len() && #[trigger] self.name(j) == k;
                        assert(old_self.name(j) == k);
                    }
                    assert(self@ =~= old_self@.insert(name@, handler));
                }
            },
            None => {
                self.names.push(String::from_str(name));
                self.handlers.push(handler);
                proof {
                    let n = old_self.len() as int;
                    assert(self.name(n) == name@);
                    assert forall|i: int, j: int|
                        0 <= i < self.len() && 0 <= j < self.len() && i != j implies #[trigger] self.name(i)
                        != #[trigger] self.name(j) by {
                        if i < n && j < n {
                            assert(self.name(i) == old_self.name(i));
                            assert(self.name(j) == old_self.name(j));
                        } else if i < n {
                            assert(self.name(i) == old_self.name(i));
                            assert(old_self@.contains_key(old_self.name(i)));
                        } else if j < n {
                            assert(self.name(j) == old_self.name(j));
                            assert(old_self@.contains_key(old_self.name(j)));
                        }
                    }
                    assert forall|k: Seq<char>| #[trigger] self@.contains_key(k) implies self@[k] == old_self@.insert(name@, handler)[k] by {
                        let j = choose|j: int| 0 <= j < self.len() && #[trigger] self.name(j) == k;
                        self.lemma_index_of(j);
                        if j < n {
                            assert(old_self.name(j) == k);
                            old_self.lemma_index_of(j);
                        }
                    }
                    assert forall|k: Seq<char>| #[trigger] old_self@.insert(name@, handler).contains_key(k) implies self@.contains_key(k) by {
                        if k != name@ {
                            let j = choose|j: int| 0 <= j < old_self.len() && #[trigger] old_self.name(j) == k;
                            assert(self.name(j) == k);
                        }
                    }
                    assert forall|k: Seq<char>| #[trigger] self@.contains_key(k) implies old_self@.insert(name@, handler).contains_key(k) by {
                        let j = choose|j: int| 0 <= j < self.len() && #[trigger] self.name(j) == k;
                        if j < n {
                            assert(old_self.name(j) == k);
                        }
                    }
                    assert(self@ =~= old_self@.insert(name@, handler));
                }
            },
        }
    }

    /// The handler of command `command_name`, if it is registered.
    pub fn get_command_handler(&self, command_name: &str) -> (r: Option<&H>)
        requires
            self.wf(),
        ensures
            r == (if self@.contains_key(command_name@) {
                Some(&self@[command_name@])
            } else {
                None
            }),
    {
        match self.find(command_name) {
            Some(i) => {
                proof {
                    self.lemma_index_of(i as int);
                    assert(self@.contains_key(command_name@));
                }
                Some(&self.handlers[i])
            },
            None => None,
        }
    }
}

/// Looking a name up after registering a handler for it gives that handler; every other
/// name keeps what it had.
pub proof fn lemma_register_then_get<H>(
    before: Map<Seq<char>, H>,
    name: Seq<char>,
    handler: H,
    other: Seq<char>,
)
    ensures
        before.insert(name, handler).contains_key(name),
        before.insert(name, handler)[name] == handler,
        other != name ==> before.insert(name, handler).contains_key(other) == before.contains_key(
            other,
        ),
        other != name && before.contains_key(other) ==> before.insert(name, handler)[other]
            == before[other],
{
}

/// The name of the built-in `echo` command.
pub open spec fn echo_name() -> Seq<char> {
    seq!['e', 'c', 'h', 'o']
}

/// The built-in commands: `echo`, with the given handler.
pub fn load<H>(echo: H) -> (r: CommandRegistry<H>)
    ensures
        r.wf(),
        r@ == Map::<Seq<char>, H>::empty().insert(echo_name(), echo),
{
    let mut registry = CommandRegistry::new();
    let name = "echo";
    proof {
        reveal_strlit("echo");
        assert(name@ =~= echo_name());
    }
    registry.register(name, echo);
    registry
}

} // verus!
