//! The rate divider that throttles how fast a trail falls.

use vstd::arithmetic::div_mod::{lemma_add_mod_noop_right, lemma_mod_self_0, lemma_small_mod};
use vstd::prelude::*;

verus! {

/// Mathematical state of a modulo counter.
pub struct CounterState {
    pub count: int,
    pub limit: int,
}

impl CounterState {
    /// The count stays below a positive limit that fits the machine type.
    pub open spec fn wf(self) -> bool {
        0 <= self.count < self.limit <= u16::MAX
    }

    /// The state after one advance: the count goes up by one modulo the limit.
    pub open spec fn advance(self) -> CounterState {
        CounterState { count: (self.count + 1) % self.limit, limit: self.limit }
    }

    /// Whether the next advance brings the count back to zero.
    pub open spec fn wraps(self) -> bool {
        self.advance().count == 0
    }

    /// The state after `n` advances.
    pub open spec fn advanced(self, n: nat) -> CounterState
        decreases n,
    {
        if n == 0 {
            self
        } else {
            self.advance().advanced((n - 1) as nat)
        }
    }

    /// On a valid counter the advance wraps exactly from the last count below
    /// the limit, and otherwise moves the count up by one.
    pub proof fn lemma_advance(self)
        requires
            self.wf(),
        ensures
            self.advance().wf(),
            self.wraps() <==> self.count + 1 == self.limit,
            !self.wraps() ==> self.advance().count == self.count + 1,
    {
        if self.count + 1 == self.limit {
            lemma_mod_self_0(self.limit);
        } else {
            lemma_small_mod((self.count + 1) as nat, self.limit as nat);
        }
    }

    /// After `n` advances the count has gone up by `n` modulo the limit. So
    /// a counter wraps once every `limit` advances: counted from zero, the
    /// advances that wrap are those whose number is a multiple of the limit.
    pub proof fn lemma_advanced(self, n: nat)
        requires
            self.wf(),
        ensures
            self.advanced(n).wf(),
            self.advanced(n).limit == self.limit,
            self.advanced(n).count == (self.count + n) % self.limit,
            self.advanced(n).wraps() <==> (self.count + n + 1) % self.limit == 0,
        decreases n,
    {
        if n == 0 {
            lemma_small_mod(self.count as nat, self.limit as nat);
        } else {
            self.lemma_advance();
            self.advance().lemma_advanced((n - 1) as nat);
            lemma_add_mod_noop_right(n - 1, self.count + 1, self.limit);
        }
        lemma_add_mod_noop_right(1, self.count + n, self.limit);
    }
}

/// A counter that runs from zero up to `limit - 1` and starts over.
#[derive(Debug, Clone, Copy)]
pub struct LimitedCounter {
    count: u16,
    limit: u16,
}

impl View for LimitedCounter {
    type V = CounterState;

    closed spec fn view(&self) -> CounterState {
        CounterState { count: self.count as int, limit: self.limit as int }
    }
}

impl LimitedCounter {
    /// Every value of this type is in a valid state.
    #[verifier::type_invariant]
    pub open spec fn inv(self) -> bool {
        self@.wf()
    }

    /// A counter at zero that wraps once every `limit` advances.
    pub fn new(limit: u16) -> (counter: Self)
        requires
            limit >= 1,
        ensures
            counter@ == (CounterState { count: 0, limit: limit as int }),
            counter@.wf(),
    {
        LimitedCounter { count: 0, limit }
    }

    /// Advances the counter by one and reports whether it wrapped to zero.
    pub fn tick(&mut self) -> (wrapped: bool)
        ensures
            final(self)@ == old(self)@.advance(),
            wrapped == old(self)@.wraps(),
            final(self)@.wf(),
    {
        proof {
            use_type_invariant(&*self);
            self@.lemma_advance();
        }
        self.count = (self.count + 1) % self.limit;
        self.count == 0
    }
}

} // verus!
