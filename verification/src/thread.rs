//! Threads of a process, and the functions that they are to run.

use vstd::prelude::*;
use vstd::std_specs::btree::*;

use std::collections::BTreeMap;

verus! {

broadcast use group_btree_axioms;

/// A thread, known by its identifier.
#[derive(Copy, Clone, Debug, PartialEq, Eq, Structural)]
pub struct Thread {
    pub id: usize,
}

impl Thread {
    /// The thread with this identifier.
    pub fn new(id: usize) -> (r: Thread)
        ensures
            r == (Thread { id }),
    {
        Thread { id }
    }

    /// The identifier.
    pub fn id(&self) -> (r: usize)
        ensures
            r == self.id,
    {
        self.id
    }

    /// The thread that a system call names, if it succeeded.
    pub fn from_call<E>(result: Result<usize, E>) -> (r: Option<Thread>)
        ensures
            r == (match result {
                Ok(id) => Some(Thread { id }),
                Err(_) => None,
            }),
    {
        match result {
            Ok(id) => Some(Thread::new(id)),
            Err(_) => None,
        }
    }
}

/// How many threads there are, according to a system call.
pub fn count<E>(result: Result<usize, E>) -> (r: usize)
    ensures
        r == (match result {
            Ok(count) => count,
            Err(_) => 0,
        }),
{
    match result {
        Ok(count) => count,
        Err(_) => 0,
    }
}

/// The functions that wait for their threads, and the number for the next one.
#[verifier::ext_equal]
pub struct Waiting<F> {
    pub next: int,
    pub functions: Map<u64, F>,
}

impl<F> Waiting<F> {
    /// With one more function; the numbers start over at the end of their range.
    pub open spec fn with(self, function: F) -> Waiting<F> {
        Waiting {
            next: (self.next + 1) % (u64::MAX + 1),
            functions: self.functions.insert(self.next as u64, function),
        }
    }

    /// Without the function of this number.
    pub open spec fn without(self, number: u64) -> Waiting<F> {
        Waiting { next: self.next, functions: self.functions.remove(number) }
    }
}

/// A function cannot be passed through a system call, so it is kept under a number,
/// which is passed to the new thread in its place. The thread takes the function out
/// with the number.
pub struct Functions<F> {
    next: u64,
    functions: BTreeMap<u64, F>,
}

impl<F> View for Functions<F> {
    type V = Waiting<F>;

    closed spec fn view(&self) -> Waiting<F> {
        Waiting { next: self.next as int, functions: self.functions@ }
    }
}

impl<F> Functions<F> {
    /// No functions.
    pub fn new() -> (r: Functions<F>)
        ensures
            r@ == (Waiting::<F> { next: 0, functions: Map::empty() }),
    {
        Functions { next: 0, functions: BTreeMap::new() }
    }

    /// Keep a function and return its number.
    pub fn keep(&mut self, function: F) -> (r: u64)
        ensures
            r == old(self)@.next,
            final(self)@ == old(self)@.with(function),
    {
        let number: u64 = self.next;
        self.next = if number == u64::MAX {
            0
        } else {
            number + 1
        };
        self.functions.insert(number, function);
        number
    }

    /// Take out the function with this number.
    pub fn take(&mut self, number: u64) -> (r: Option<F>)
        ensures
            r == (if old(self)@.functions.contains_key(number) {
                Some(old(self)@.functions[number])
            } else {
                None
            }),
            final(self)@ == old(self)@.without(number),
    {
        let r = self.functions.remove(&number);
        proof {
            assert(self@ =~= old(self)@.without(number));
        }
        r
    }
}

/// A thread that takes out its function gets the one that was kept for it, once.
pub proof fn law_each_function_runs_once<F>(waiting: Waiting<F>, function: F)
    requires
        0 <= waiting.next <= u64::MAX,
    ensures
        waiting.with(function).functions.contains_key(waiting.next as u64),
        waiting.with(function).functions[waiting.next as u64] == function,
        !waiting.with(function).without(waiting.next as u64).functions.contains_key(
            waiting.next as u64,
        ),
{
}

/// Two functions that are kept one after the other have different numbers, and the
/// second does not displace the first.
pub proof fn law_numbers_differ<F>(waiting: Waiting<F>, first: F, second: F)
    requires
        0 <= waiting.next <= u64::MAX,
    ensures
        waiting.with(first).next != waiting.next,
        waiting.with(first).with(second).functions[waiting.next as u64] == first,
        waiting.with(first).with(second).functions[waiting.with(first).next as u64] == second,
{
}

/// A function is kept under the number that was next, and nothing else changes but that
/// the next number is one more, or 0 behind the last.
pub proof fn law_kept_under_number<F>(waiting: Waiting<F>, function: F, other: u64)
    requires
        0 <= waiting.next <= u64::MAX,
    ensures
        ({
            let after = waiting.with(function);
            &&& after.functions.contains_key(waiting.next as u64)
            &&& after.functions[waiting.next as u64] == function
            &&& other != waiting.next ==> {
                &&& after.functions.contains_key(other) <==> waiting.functions.contains_key(other)
                &&& waiting.functions.contains_key(other) ==> after.functions[other]
                    == waiting.functions[other]
            }
            &&& waiting.next < u64::MAX ==> after.next == waiting.next + 1
            &&& waiting.next == u64::MAX ==> after.next == 0
        }),
{
}

} // verus!
