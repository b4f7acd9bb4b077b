//! The counter that numbers terminals and identifies leaves.

use vstd::prelude::*;

verus! {

/// Hands out terminal numbers, which double as leaf identifiers. A number is
/// handed out once: the counter only ever moves up.
#[derive(Debug)]
pub struct IdCounter {
    /// The number that the next request receives.
    pub next: usize,
}

impl IdCounter {
    /// Whether at least one more number can be handed out.
    pub open spec fn has_room(&self) -> bool {
        self.next < usize::MAX
    }

    /// Whether `count` more numbers can be handed out.
    pub open spec fn has_room_for(&self, count: nat) -> bool {
        self.next + count <= usize::MAX
    }

    /// A counter whose first number is 1.
    pub fn new() -> (counter: IdCounter)
        ensures
            counter.next == 1,
    {
        IdCounter { next: 1 }
    }

    /// A counter whose first number is `first`.
    pub fn starting_at(first: usize) -> (counter: IdCounter)
        ensures
            counter.next == first,
    {
        IdCounter { next: first }
    }

    /// The number that the next request will receive; the counter stays as it is.
    pub fn peek(&self) -> (next: usize)
        ensures
            next == self.next,
    {
        self.next
    }

    /// How many numbers are left before the counter is exhausted.
    pub fn remaining(&self) -> (left: usize)
        ensures
            left == usize::MAX - self.next,
            self.has_room() <==> left > 0,
            forall|count: nat| self.has_room_for(count) <==> count <= left,
    {
        usize::MAX - self.next
    }
}

/// Takes the next terminal number from the counter and advances it by one.
pub fn next_terminal_number(counter: &mut IdCounter) -> (number: usize)
    requires
        old(counter).has_room(),
    ensures
        number == old(counter).next,
        final(counter).next == number + 1,
{
    let number: usize = counter.next;
    counter.next = number + 1;
    number
}

} // verus!
