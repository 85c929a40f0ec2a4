//! The per-element delay policy and the strategy a generator group uses to
//! pick its next child.

use crate::random::random_u64_below;
use crate::utils::{add_in_range, spec_add_range};
use core::ops::Range;
use vstd::prelude::*;

verus! {

/// How long to pause before yielding each element, in milliseconds.
/// `NoDelay` sleeps nothing; `Fixed(d)` sleeps exactly `d`; `Random(d)`
/// sleeps a uniformly random time in `[0, 2 * d]`.
#[derive(Debug, Clone, Copy, PartialEq, Eq)]
pub enum DelayStrategy {
    NoDelay,
    Fixed(u64),
    Random(u64),
}

impl Default for DelayStrategy {
    /// By default, no delay.
    fn default() -> (r: DelayStrategy)
        ensures
            r is NoDelay,
    {
        DelayStrategy::NoDelay
    }
}

impl DelayStrategy {
    /// The pause this policy asks for, in milliseconds: zero, the fixed
    /// time, or a uniformly random time up to twice the given bound. The
    /// caller performs the actual sleep.
    pub fn sample_millis(&self) -> (r: u64)
        requires
            (*self) matches DelayStrategy::Random(d) ==> d < u64::MAX / 2,
        ensures
            self is NoDelay ==> r == 0,
            (*self) matches DelayStrategy::Fixed(d) ==> r == d,
            (*self) matches DelayStrategy::Random(d) ==> r <= 2 * d,
    {
        match self {
            DelayStrategy::NoDelay => 0,
            DelayStrategy::Fixed(d) => *d,
            DelayStrategy::Random(d) => {
                if *d == 0 {
                    0
                } else {
                    random_u64_below(2 * *d + 1)
                }
            },
        }
    }
}

/// How a generator group schedules its children.
#[derive(Debug, Clone, PartialEq, Eq)]
pub enum GeneratorGroupStrategy {
    /// Visit children in turn; the payload remembers the last choice.
    RoundRobin(usize),
    /// Pick a uniformly random live child.
    Random,
    /// Stay on the first child until it is exhausted.
    Chain,
}

impl Default for GeneratorGroupStrategy {
    /// By default, round robin starting at the first child.
    fn default() -> (r: GeneratorGroupStrategy)
        ensures
            r == GeneratorGroupStrategy::RoundRobin(0usize),
    {
        GeneratorGroupStrategy::RoundRobin(0)
    }
}

impl GeneratorGroupStrategy {
    /// Choose the next index in `range`. Round robin steps one past its
    /// remembered position and records the choice; chain always takes the
    /// start; random picks uniformly.
    pub fn pick(&mut self, range: Range<usize>) -> (r: usize)
        requires
            range.start < range.end,
            range.end <= usize::MAX,
        ensures
            range.start <= r < range.end,
            (*old(self)) matches GeneratorGroupStrategy::RoundRobin(last) ==> r == spec_add_range(
                last,
                1,
                range.start,
                range.end,
            ) && *final(self) == GeneratorGroupStrategy::RoundRobin(r),
            (*old(self)) is Random ==> *final(self) == *old(self),
            (*old(self)) is Chain ==> r == range.start && *final(self) == *old(self),
    {
        match self {
            GeneratorGroupStrategy::RoundRobin(last_choose) => {
                let chosen = add_in_range(*last_choose, 1, range);
                *last_choose = chosen;
                chosen
            },
            GeneratorGroupStrategy::Random => {
                let width = (range.end - range.start) as u64;
                let offset = random_u64_below(width);
                range.start + (offset as usize)
            },
            GeneratorGroupStrategy::Chain => range.start,
        }
    }
}

} // verus!
