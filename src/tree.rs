//! The contract being priced and the geometry of its lattice.
use vstd::prelude::*;
use crate::fixed::{SCALE, fx_mul, mul_sat};
use crate::payoff::Payoff;

verus! {

/// Why a set of contract parameters cannot be priced.
#[derive(Clone, Copy, Debug, PartialEq, Eq, Structural)]
pub enum ConfigError {
    /// The lattice has no steps.
    ZeroSteps,
    /// The spot price is zero.
    NonPositiveSpot,
    /// The expiry is zero.
    NonPositiveExpiry,
    /// The expiry divided by the number of steps rounds to a zero time step.
    ZeroTimeStep,
    /// The up-move factor is not above one, i.e. the volatility is not positive.
    NonPositiveVolatility,
    /// The risk-neutral up-probability does not lie strictly between 0 and 1.
    ProbabilityOutOfRange,
    /// The price after `num_steps` up-moves does not fit in a `u64`.
    PriceOverflow,
}

/// A contract together with the factors of its binomial lattice.
///
/// `up_factor` is `exp(vol * sqrt(dt))`, `down_factor` its reciprocal,
/// `discount` is `exp(-rate * dt)` and `up_prob` the risk-neutral probability
/// of an up-move, all in fixed point.
pub struct OptimalExerciseBinTree {
    pub spot_price: u64,
    pub payoff: Payoff,
    pub step_time: u64,
    pub up_factor: u64,
    pub down_factor: u64,
    pub discount: u64,
    pub up_prob: u64,
    pub num_steps: usize,
}

/// `x` multiplied `k` times by the fixed-point factor `f`.
pub open spec fn scaled(x: int, f: int, k: nat) -> int
    decreases k,
{
    if k == 0 {
        x
    } else {
        fx_mul(scaled(x, f, (k - 1) as nat), f)
    }
}

/// `growth * up - 1` in fixed point, the numerator of the up-probability.
pub open spec fn prob_numerator(up: int, growth: int) -> int {
    growth * up / (SCALE as int) - SCALE as int
}

/// `up * up - 1` in fixed point, the denominator of the up-probability.
pub open spec fn prob_denominator(up: int) -> int {
    up * up / (SCALE as int) - SCALE as int
}

/// The risk-neutral up-probability `(growth * up - 1) / (up * up - 1)`.
pub open spec fn risk_neutral_prob(up: int, growth: int) -> int {
    prob_numerator(up, growth) * (SCALE as int) / prob_denominator(up)
}

/// The probability lies strictly between 0 and 1 once rounded to fixed point.
pub open spec fn prob_in_range(up: int, growth: int) -> bool {
    &&& prob_numerator(up, growth) > 0
    &&& prob_numerator(up, growth) < prob_denominator(up)
    &&& risk_neutral_prob(up, growth) > 0
}

/// The first parameter check that fails, in the order in which `new`
/// makes them, or `None` when the parameters can be priced.
pub open spec fn config_error(spot_price: u64, expiry: u64, num_steps: usize, up_factor: u64, growth: u64) -> Option<
    ConfigError,
> {
    if num_steps == 0 {
        Some(ConfigError::ZeroSteps)
    } else if spot_price == 0 {
        Some(ConfigError::NonPositiveSpot)
    } else if expiry == 0 {
        Some(ConfigError::NonPositiveExpiry)
    } else if expiry / (num_steps as u64) == 0 {
        Some(ConfigError::ZeroTimeStep)
    } else if up_factor <= SCALE {
        Some(ConfigError::NonPositiveVolatility)
    } else if !prob_in_range(up_factor as int, growth as int) {
        Some(ConfigError::ProbabilityOutOfRange)
    } else if scaled(spot_price as int, up_factor as int, num_steps as nat) >= u64::MAX {
        Some(ConfigError::PriceOverflow)
    } else {
        None
    }
}

proof fn lemma_scaled_range(x: int, f: int, k: nat)
    requires
        0 <= x <= u64::MAX,
        0 <= f,
    ensures
        0 <= scaled(x, f, k) <= u64::MAX,
    decreases k,
{
    if k > 0 {
        lemma_scaled_range(x, f, (k - 1) as nat);
        let y = scaled(x, f, (k - 1) as nat);
        assert(y * f / (SCALE as int) >= 0) by (nonlinear_arith)
            requires
                y >= 0,
                f >= 0,
        ;
    }
}

proof fn lemma_scaled_grows(x: int, f: int, k1: nat, k2: nat)
    requires
        0 <= x <= u64::MAX,
        f >= SCALE,
        k1 <= k2,
    ensures
        scaled(x, f, k1) <= scaled(x, f, k2),
    decreases k2,
{
    if k2 > k1 {
        lemma_scaled_grows(x, f, k1, (k2 - 1) as nat);
        lemma_scaled_range(x, f, (k2 - 1) as nat);
        let y = scaled(x, f, (k2 - 1) as nat);
        assert(y * f / (SCALE as int) >= y) by (nonlinear_arith)
            requires
                y >= 0,
                f >= SCALE,
        ;
    }
}

proof fn lemma_scaled_shrinks(x: int, f: int, k1: nat, k2: nat)
    requires
        0 <= x <= u64::MAX,
        0 <= f <= SCALE,
        k1 <= k2,
    ensures
        scaled(x, f, k2) <= scaled(x, f, k1),
    decreases k2,
{
    if k2 > k1 {
        lemma_scaled_shrinks(x, f, k1, (k2 - 1) as nat);
        lemma_scaled_range(x, f, (k2 - 1) as nat);
        let y = scaled(x, f, (k2 - 1) as nat);
        assert(y * f / (SCALE as int) <= y) by (nonlinear_arith)
            requires
                y >= 0,
                0 <= f <= SCALE,
        ;
    }
}

/// Multiplies `x` by the fixed-point factor `f`, `k` times over.
pub fn scale_repeat(x: u64, f: u64, k: usize) -> (r: u64)
    ensures
        r == scaled(x as int, f as int, k as nat),
{
    let mut s: u64 = x;
    let mut m: usize = 0;
    while m < k
        invariant
            m <= k,
            s == scaled(x as int, f as int, m as nat),
        decreases k - m,
    {
        s = mul_sat(s, f);
        m = m + 1;
    }
    s
}

impl OptimalExerciseBinTree {
    pub open spec fn wf(self) -> bool {
        &&& self.spot_price > 0
        &&& self.num_steps >= 1
        &&& self.up_factor > SCALE
        &&& 0 < self.up_prob < SCALE
        &&& self.down_factor == (SCALE as int) * (SCALE as int) / (self.up_factor as int)
        &&& self.step_time > 0
        &&& (self.step_time as int) * (self.num_steps as int) <= u64::MAX as int
    }

    /// Price of the underlying after `j` up-moves and `i - j` down-moves: it
    /// depends on the net number of moves `2j - i` alone, so paths that
    /// reach the same node share its price.
    pub open spec fn spec_price(self, i: nat, j: nat) -> int {
        self.net_price(2 * j - i)
    }

    /// Price after `m` net up-moves (net down-moves when `m` is negative).
    pub open spec fn net_price(self, m: int) -> int {
        if m >= 0 {
            scaled(self.spot_price as int, self.up_factor as int, m as nat)
        } else {
            scaled(self.spot_price as int, self.down_factor as int, (-m) as nat)
        }
    }

    /// More net up-moves never give a lower price.
    pub proof fn lemma_net_price_monotone(self, m1: int, m2: int)
        requires
            self.wf(),
            m1 <= m2,
        ensures
            0 <= self.net_price(m1) <= self.net_price(m2) <= u64::MAX,
    {
        let s = SCALE as int;
        let up = self.up_factor as int;
        assert(self.down_factor <= s) by (nonlinear_arith)
            requires
                self.down_factor == s * s / up,
                up > s,
                s > 0,
        ;
        let x = self.spot_price as int;
        let d = self.down_factor as int;
        if m1 >= 0 {
            lemma_scaled_grows(x, up, m1 as nat, m2 as nat);
            lemma_scaled_range(x, up, m1 as nat);
        } else if m2 < 0 {
            lemma_scaled_shrinks(x, d, (-m2) as nat, (-m1) as nat);
            lemma_scaled_range(x, d, (-m1) as nat);
            lemma_scaled_range(x, d, (-m2) as nat);
        } else {
            lemma_scaled_shrinks(x, d, 0, (-m1) as nat);
            lemma_scaled_range(x, d, (-m1) as nat);
            lemma_scaled_grows(x, up, 0, m2 as nat);
            lemma_scaled_range(x, up, m2 as nat);
        }
    }

    /// Reward for exercising at node `(i, j)`.
    pub open spec fn exercise_value(self, i: nat, j: nat) -> int {
        self.payoff.spec_reward(self.spec_price(i, j))
    }

    /// Builds a contract from fixed-point parameters: the spot price, the
    /// expiry, the number of steps, the up-move factor `exp(vol * sqrt(dt))`,
    /// the one-step growth `exp(rate * dt)` and the one-step discount
    /// `exp(-rate * dt)`. Parameters that cannot be priced, including a time
    /// step that rounds to zero and a lattice whose highest price would not
    /// fit, are rejected with the first failing check of `config_error`.
    pub fn new(
        spot_price: u64,
        payoff: Payoff,
        expiry: u64,
        num_steps: usize,
        up_factor: u64,
        growth: u64,
        discount: u64,
    ) -> (r: Result<OptimalExerciseBinTree, ConfigError>)
        ensures
            config_error(spot_price, expiry, num_steps, up_factor, growth) matches Some(e) ==> r == Err::<
                OptimalExerciseBinTree,
                ConfigError,
            >(e),
            r is Ok <==> config_error(spot_price, expiry, num_steps, up_factor, growth) is None,
            r is Ok ==> ({
                let t = r->Ok_0;
                &&& t.wf()
                &&& t.spot_price == spot_price
                &&& t.payoff == payoff
                &&& t.num_steps == num_steps
                &&& t.step_time == expiry / (num_steps as u64)
                &&& t.up_factor == up_factor
                &&& t.down_factor == (SCALE as int) * (SCALE as int) / (up_factor as int)
                &&& t.discount == discount
                &&& t.up_prob == risk_neutral_prob(up_factor as int, growth as int)
            }),
    {
        if num_steps == 0 {
            return Err(ConfigError::ZeroSteps);
        }
        if spot_price == 0 {
            return Err(ConfigError::NonPositiveSpot);
        }
        if expiry == 0 {
            return Err(ConfigError::NonPositiveExpiry);
        }
        let n: u64 = num_steps as u64;
        let step_time: u64 = expiry / n;
        if step_time == 0 {
            return Err(ConfigError::ZeroTimeStep);
        }
        if up_factor <= SCALE {
            return Err(ConfigError::NonPositiveVolatility);
        }
        let s: u128 = SCALE as u128;
        assert((growth as int) * (up_factor as int) <= u128::MAX as int) by (nonlinear_arith)
            requires
                growth <= u64::MAX,
                up_factor <= u64::MAX,
        ;
        assert((up_factor as int) * (up_factor as int) <= u128::MAX as int) by (nonlinear_arith)
            requires
                up_factor <= u64::MAX,
        ;
        let gu: u128 = (growth as u128) * (up_factor as u128) / s;
        let uu: u128 = (up_factor as u128) * (up_factor as u128) / s;
        assert(uu > s) by (nonlinear_arith)
            requires
                uu == (up_factor as int) * (up_factor as int) / (s as int),
                up_factor > s,
                s == 1_000_000_000,
        ;
        if gu <= s {
            return Err(ConfigError::ProbabilityOutOfRange);
        }
        let num: u128 = gu - s;
        let den: u128 = uu - s;
        if num >= den {
            return Err(ConfigError::ProbabilityOutOfRange);
        }
        assert((num as int) * (s as int) <= (uu as int) * (s as int)) by (nonlinear_arith)
            requires
                num < den,
                den < uu,
                s > 0,
        ;
        assert((uu as int) * (s as int) <= (up_factor as int) * (up_factor as int)) by (nonlinear_arith)
            requires
                uu == (up_factor as int) * (up_factor as int) / (s as int),
                s > 0,
        ;
        let p: u128 = num * s / den;
        assert(p < s) by (nonlinear_arith)
            requires
                p == (num as int) * (s as int) / (den as int),
                num < den,
                den > 0,
                s > 0,
        ;
        if p == 0 {
            return Err(ConfigError::ProbabilityOutOfRange);
        }
        if scale_repeat(spot_price, up_factor, num_steps) == u64::MAX {
            return Err(ConfigError::PriceOverflow);
        }
        assert((step_time as int) * (n as int) <= expiry as int) by (nonlinear_arith)
            requires
                step_time == (expiry as int) / (n as int),
                n > 0,
        ;
        let down: u128 = s * s / (up_factor as u128);
        assert(down < s) by (nonlinear_arith)
            requires
                down == (s as int) * (s as int) / (up_factor as int),
                up_factor > s,
                s > 0,
        ;
        Ok(
            OptimalExerciseBinTree {
                spot_price,
                payoff,
                step_time,
                up_factor,
                down_factor: down as u64,
                discount,
                up_prob: p as u64,
                num_steps,
            },
        )
    }

    /// Length of one time step, in fixed point.
    pub fn dt(&self) -> (r: u64)
        ensures
            r == self.step_time,
    {
        self.step_time
    }

    /// Price of the underlying at node `(i, j)`: the spot multiplied by the
    /// up-factor once for each net up-move, or by the down-factor once for
    /// each net down-move.
    pub fn state_price(&self, i: usize, j: usize) -> (r: u64)
        requires
            j <= i,
        ensures
            r == self.spec_price(i as nat, j as nat),
    {
        if j >= i - j {
            scale_repeat(self.spot_price, self.up_factor, j - (i - j))
        } else {
            scale_repeat(self.spot_price, self.down_factor, (i - j) - j)
        }
    }
}

} // verus!
