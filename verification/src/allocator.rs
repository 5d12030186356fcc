//! Finding an unused identifier: draw one at random, ask the store whether
//! it is taken, and draw again if it is, a bounded number of times.
//!
//! The library decides; its caller draws the numbers and asks the store. An
//! `Allocation` says what is wanted next, and the caller answers with
//! `drawn` or `probed`. The store's answer may come from a look, or, to leave
//! no gap between the look and the first write, from creating the entry if
//! it is absent.

use vstd::prelude::*;
use crate::identifier::Identifier;

verus! {

/// Where an allocation stands, and so what its caller is to do next.
#[derive(Clone, Copy, Debug, PartialEq, Eq, Structural)]
pub enum Allocation {
    /// A random number is wanted; `attempts_left` draws may still be made.
    Drawing { attempts_left: u32 },
    /// The store is to say whether `candidate` is taken.
    Probing { candidate: Identifier, attempts_left: u32 },
    /// The identifier is unused: the allocation has ended with it.
    Granted(Identifier),
    /// Every attempt met a taken identifier: the allocation has failed.
    Exhausted,
}

/// The identifier that a drawn number proposes: the number modulo 2^24.
pub open spec fn candidate_of(number: u64) -> Identifier {
    Identifier::with_number(number as int % 0x100_0000)
}

impl Allocation {
    /// Where an allocation with `max_attempts` draws starts.
    pub open spec fn initial(max_attempts: u32) -> Allocation {
        if max_attempts == 0 {
            Allocation::Exhausted
        } else {
            Allocation::Drawing { attempts_left: max_attempts }
        }
    }

    /// The state after `number` was drawn. Only a drawing allocation takes a
    /// number: it spends one attempt on the number's candidate.
    pub open spec fn after_draw(self, number: u64) -> Allocation {
        match self {
            Allocation::Drawing { attempts_left } => if attempts_left == 0 {
                Allocation::Exhausted
            } else {
                Allocation::Probing {
                    candidate: candidate_of(number),
                    attempts_left: (attempts_left - 1) as u32,
                }
            },
            _ => self,
        }
    }

    /// The state after the store said whether the candidate is taken. Only a
    /// probing allocation takes an answer: it grants a free candidate, and
    /// after a taken one draws again while attempts are left.
    pub open spec fn after_probe(self, taken: bool) -> Allocation {
        match self {
            Allocation::Probing { candidate, attempts_left } => if !taken {
                Allocation::Granted(candidate)
            } else if attempts_left == 0 {
                Allocation::Exhausted
            } else {
                Allocation::Drawing { attempts_left }
            },
            _ => self,
        }
    }

    /// Whether the allocation has ended, with an identifier or without.
    pub open spec fn is_final(self) -> bool {
        self is Granted || self is Exhausted
    }

    /// Starts an allocation that may draw `max_attempts` times.
    pub fn begin(max_attempts: u32) -> (state: Allocation)
        ensures
            state == Allocation::initial(max_attempts),
    {
        if max_attempts == 0 {
            Allocation::Exhausted
        } else {
            Allocation::Drawing { attempts_left: max_attempts }
        }
    }

    /// Takes a drawn number.
    pub fn drawn(self, number: u64) -> (state: Allocation)
        ensures
            state == self.after_draw(number),
    {
        match self {
            Allocation::Drawing { attempts_left } => {
                if attempts_left == 0 {
                    Allocation::Exhausted
                } else {
                    let candidate = Identifier::from_number(number);
                    Allocation::Probing { candidate, attempts_left: attempts_left - 1 }
                }
            },
            _ => self,
        }
    }

    /// Takes the store's answer on the candidate.
    pub fn probed(self, taken: bool) -> (state: Allocation)
        ensures
            state == self.after_probe(taken),
            state is Granted && !(self is Granted) ==> !taken && self is Probing
                && self->candidate == state->0,
    {
        match self {
            Allocation::Probing { candidate, attempts_left } => {
                if !taken {
                    Allocation::Granted(candidate)
                } else if attempts_left == 0 {
                    Allocation::Exhausted
                } else {
                    Allocation::Drawing { attempts_left }
                }
            },
            _ => self,
        }
    }
}

/// Where an allocation arrives from `state` when the numbers of `draws` are
/// drawn in order and the store answers for the set `taken` of identifiers.
/// It stops at a final state, or drawing when the numbers have run out.
pub open spec fn outcome(state: Allocation, draws: Seq<u64>, taken: Set<Identifier>) -> Allocation
    decreases draws.len(), (if state is Probing { 1int } else { 0int }),
{
    match state {
        Allocation::Drawing { .. } => if draws.len() == 0 {
            state
        } else {
            outcome(state.after_draw(draws[0]), draws.drop_first(), taken)
        },
        Allocation::Probing { candidate, .. } => outcome(
            state.after_probe(taken.contains(candidate)),
            draws,
            taken,
        ),
        _ => state,
    }
}

/// The draws that `state` may still make.
pub open spec fn attempts_left(state: Allocation) -> nat {
    match state {
        Allocation::Drawing { attempts_left } => attempts_left as nat,
        Allocation::Probing { attempts_left, .. } => attempts_left as nat,
        _ => 0,
    }
}

/// An identifier that is granted on the way from a state that has not
/// granted one is not taken.
pub proof fn lemma_outcome_unused(state: Allocation, draws: Seq<u64>, taken: Set<Identifier>)
    requires
        !(state is Granted),
        outcome(state, draws, taken) is Granted,
    ensures
        !taken.contains(outcome(state, draws, taken)->0),
    decreases draws.len(), (if state is Probing { 1int } else { 0int }),
{
    match state {
        Allocation::Drawing { .. } => {
            if draws.len() > 0 {
                lemma_outcome_unused(state.after_draw(draws[0]), draws.drop_first(), taken);
            }
        },
        Allocation::Probing { candidate, .. } => {
            if taken.contains(candidate) {
                lemma_outcome_unused(state.after_probe(true), draws, taken);
            }
        },
        _ => {},
    }
}

/// With as many numbers as it has attempts left, an allocation ends, unless
/// it waits for a number with no attempt left to spend on it.
pub proof fn lemma_outcome_final(state: Allocation, draws: Seq<u64>, taken: Set<Identifier>)
    requires
        attempts_left(state) <= draws.len(),
        state is Drawing ==> attempts_left(state) > 0,
    ensures
        outcome(state, draws, taken).is_final(),
    decreases draws.len(), (if state is Probing { 1int } else { 0int }),
{
    match state {
        Allocation::Drawing { attempts_left } => {
            if draws.len() > 0 {
                lemma_outcome_final(state.after_draw(draws[0]), draws.drop_first(), taken);
            }
        },
        Allocation::Probing { candidate, .. } => {
            lemma_outcome_final(state.after_probe(taken.contains(candidate)), draws, taken);
        },
        _ => {},
    }
}

/// An allocation never grants an identifier that the store holds.
pub proof fn lemma_allocation_unused(max_attempts: u32, draws: Seq<u64>, taken: Set<Identifier>)
    requires
        outcome(Allocation::initial(max_attempts), draws, taken) is Granted,
    ensures
        !taken.contains(outcome(Allocation::initial(max_attempts), draws, taken)->0),
{
    lemma_outcome_unused(Allocation::initial(max_attempts), draws, taken);
}

/// An allocation ends within `max_attempts` draws.
pub proof fn lemma_allocation_bounded(max_attempts: u32, draws: Seq<u64>, taken: Set<Identifier>)
    requires
        draws.len() >= max_attempts,
    ensures
        outcome(Allocation::initial(max_attempts), draws, taken).is_final(),
{
    lemma_outcome_final(Allocation::initial(max_attempts), draws, taken);
}

/// Once a granted identifier has been written, no later allocation grants it
/// again: two allocations with a write between them differ.
pub proof fn lemma_allocations_distinct(
    first_attempts: u32,
    first_draws: Seq<u64>,
    second_attempts: u32,
    second_draws: Seq<u64>,
    taken: Set<Identifier>,
)
    requires
        outcome(Allocation::initial(first_attempts), first_draws, taken) is Granted,
        outcome(
            Allocation::initial(second_attempts),
            second_draws,
            taken.insert(outcome(Allocation::initial(first_attempts), first_draws, taken)->0),
        ) is Granted,
    ensures
        ({
            let first = outcome(Allocation::initial(first_attempts), first_draws, taken)->0;
            let second = outcome(
                Allocation::initial(second_attempts),
                second_draws,
                taken.insert(first),
            )->0;
            first != second && !taken.contains(first) && !taken.contains(second)
        }),
{
    let first = outcome(Allocation::initial(first_attempts), first_draws, taken)->0;
    lemma_allocation_unused(first_attempts, first_draws, taken);
    lemma_allocation_unused(second_attempts, second_draws, taken.insert(first));
}

} // verus!
