//! Cooperative scheduling and retries.

use vstd::prelude::*;

verus! {

/// Counts how often a task yields before it goes on.
#[derive(Debug)]
pub struct CooperativeYield {
    /// How often the task has yielded.
    pub yields: usize,
    /// How often it is to yield.
    pub target_yields: usize,
}

impl CooperativeYield {
    /// The yields that are left.
    pub open spec fn left(&self) -> int {
        if self.yields >= self.target_yields {
            0
        } else {
            self.target_yields - self.yields
        }
    }

    /// Create a counter that yields `target_yields` times.
    pub fn new(target_yields: usize) -> (y: Self)
        ensures
            y.yields == 0,
            y.target_yields == target_yields,
            y.left() == target_yields,
    {
        CooperativeYield { yields: 0, target_yields }
    }

    /// Poll the counter: `true` when the task may go on, `false` when it has to
    /// yield once more.
    pub fn poll_ready(&mut self) -> (ready: bool)
        ensures
            ready <==> old(self).left() == 0,
            final(self).target_yields == old(self).target_yields,
            ready ==> final(self).yields == old(self).yields,
            !ready ==> final(self).yields == old(self).yields + 1 && final(self).left() == old(
                self,
            ).left() - 1,
    {
        if self.yields >= self.target_yields {
            true
        } else {
            self.yields = self.yields + 1;
            false
        }
    }
}

/// An exponential backoff for retries. Delays are in nanoseconds.
#[derive(Debug, Clone, Copy, PartialEq, Eq, Structural)]
pub struct ExponentialBackoff {
    /// The delay before the next retry.
    pub current: u128,
    /// The longest delay that a retry is put off to.
    pub max: u128,
}

impl ExponentialBackoff {
    /// Create a new backoff strategy.
    pub fn new(initial: u128, max: u128) -> (b: Self)
        ensures
            b.current == initial,
            b.max == max,
    {
        ExponentialBackoff { current: initial, max }
    }

    /// The delay before the next retry. The delay after that is the scaled one,
    /// at most the longest.
    pub fn next_backoff(&mut self, scaled: u128) -> (delay: u128)
        ensures
            delay == old(self).current,
            final(self).current == (if scaled < old(self).max {
                scaled
            } else {
                old(self).max
            }),
            final(self).max == old(self).max,
    {
        let delay: u128 = self.current;
        self.current = if scaled < self.max { scaled } else { self.max };
        delay
    }

    /// Reset the backoff to the initial delay.
    pub fn reset(&mut self, initial: u128)
        ensures
            final(self).current == initial,
            final(self).max == old(self).max,
    {
        self.current = initial;
    }
}

/// The delay given out is the current one, and the next is the scaled one or, where that is
/// longer, the longest; a reset starts over.
pub proof fn delays_grow_up_to_the_longest(scaled: u128, initial: u128)
    ensures
        forall|b: &mut ExponentialBackoff, delay: u128| #[trigger]
            call_ensures(ExponentialBackoff::next_backoff, (b, scaled), delay) ==> {
                &&& delay == b.current
                &&& scaled <= b.max ==> final(b).current == scaled
                &&& scaled > b.max ==> final(b).current == b.max
                &&& final(b).max == b.max
            },
        forall|b: &mut ExponentialBackoff, out: ()| #[trigger]
            call_ensures(ExponentialBackoff::reset, (b, initial), out) ==> final(b).current
                == initial && final(b).max == b.max,
{
}

/// A task yields as often as it was asked to, and then goes on.
pub proof fn tasks_yield_as_often_as_asked()
    ensures
        forall|y: &mut CooperativeYield, ready: bool| #[trigger]
            call_ensures(CooperativeYield::poll_ready, (y,), ready) ==> {
                &&& ready <==> y.yields >= y.target_yields
                &&& ready ==> final(y).yields == y.yields
                &&& !ready ==> final(y).yields == y.yields + 1
                &&& final(y).target_yields == y.target_yields
            },
{
}

} // verus!
