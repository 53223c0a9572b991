//! Vanilla payoffs: the reward for exercising at a given underlying price.
use vstd::prelude::*;

verus! {

/// Direction of a vanilla option.
#[derive(Clone, Copy, Debug, PartialEq, Eq, Structural)]
pub enum OptionKind {
    Call,
    Put,
}

/// A vanilla payoff with a fixed-point strike.
#[derive(Clone, Copy, Debug, PartialEq, Eq, Structural)]
pub struct Payoff {
    pub kind: OptionKind,
    pub strike: u64,
}

impl Payoff {
    /// `max(price - strike, 0)` for a call, `max(strike - price, 0)` for a put.
    pub open spec fn spec_reward(self, price: int) -> int {
        match self.kind {
            OptionKind::Call => if price > self.strike as int {
                price - self.strike as int
            } else {
                0
            },
            OptionKind::Put => if (self.strike as int) > price {
                self.strike as int - price
            } else {
                0
            },
        }
    }

    pub fn call(strike: u64) -> (r: Payoff)
        ensures
            r.kind == OptionKind::Call,
            r.strike == strike,
    {
        Payoff { kind: OptionKind::Call, strike }
    }

    pub fn put(strike: u64) -> (r: Payoff)
        ensures
            r.kind == OptionKind::Put,
            r.strike == strike,
    {
        Payoff { kind: OptionKind::Put, strike }
    }

    pub fn is_call(&self) -> (r: bool)
        ensures
            r == (self.kind == OptionKind::Call),
    {
        match self.kind {
            OptionKind::Call => true,
            OptionKind::Put => false,
        }
    }

    /// The reward for exercising when the underlying trades at `price`.
    pub fn reward(&self, price: u64) -> (r: u64)
        ensures
            r == self.spec_reward(price as int),
    {
        match self.kind {
            OptionKind::Call => if price > self.strike {
                price - self.strike
            } else {
                0
            },
            OptionKind::Put => if self.strike > price {
                self.strike - price
            } else {
                0
            },
        }
    }
}

} // verus!
