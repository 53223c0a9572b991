//! Backward induction: option values and exercise decisions at every node.
use vstd::prelude::*;
use crate::fixed::{SCALE, fx_mul, mul_sat};
use crate::payoff::OptionKind;
use crate::tree::OptimalExerciseBinTree;

verus! {

proof fn lemma_mix_bounded(p: int, s: int, vu: int, vd: int)
    requires
        0 <= p <= s,
        s > 0,
        0 <= vu <= u64::MAX,
        0 <= vd <= u64::MAX,
    ensures
        0 <= p * vu + (s - p) * vd <= s * (u64::MAX as int),
        0 <= (p * vu + (s - p) * vd) / s <= u64::MAX,
{
    let m = u64::MAX as int;
    assert(0 <= p * vu <= p * m) by (nonlinear_arith)
        requires
            0 <= p,
            0 <= vu <= m,
    ;
    assert(0 <= (s - p) * vd <= (s - p) * m) by (nonlinear_arith)
        requires
            0 <= s - p,
            0 <= vd <= m,
    ;
    assert(p * m + (s - p) * m == s * m) by (nonlinear_arith);
    let x = p * vu + (s - p) * vd;
    assert(0 <= x / s <= m) by (nonlinear_arith)
        requires
            0 <= x <= s * m,
            s > 0,
    ;
}

impl OptimalExerciseBinTree {
    /// Discounted risk-neutral expectation `discount * (p * vu + (1 - p) * vd)`
    /// of the two successor values, rounded down.
    pub open spec fn continuation_of(self, vu: int, vd: int) -> int {
        fx_mul(
            self.discount as int,
            ((self.up_prob as int) * vu + (SCALE as int - self.up_prob as int) * vd) / (SCALE as int),
        )
    }

    /// Value of the option at node `(i, j)` under the optimal policy: the
    /// payoff at expiry, and before it the larger of the exercise value and
    /// the continuation value.
    pub open spec fn node_value(self, i: nat, j: nat) -> int
        decreases self.num_steps - i,
    {
        if i >= self.num_steps {
            self.exercise_value(i, j)
        } else {
            let e = self.exercise_value(i, j);
            let c = self.continuation_of(self.node_value(i + 1, j + 1), self.node_value(i + 1, j));
            if e >= c {
                e
            } else {
                c
            }
        }
    }

    /// Value of holding on at node `(i, j)`; nothing is left at expiry.
    pub open spec fn continuation_value(self, i: nat, j: nat) -> int {
        if i >= self.num_steps {
            0
        } else {
            self.continuation_of(self.node_value(i + 1, j + 1), self.node_value(i + 1, j))
        }
    }

    /// Exercising is chosen whenever it is worth at least as much as holding
    /// on; a tie goes to exercising.
    pub open spec fn exercise_policy(self, i: nat, j: nat) -> bool {
        self.exercise_value(i, j) >= self.continuation_value(i, j)
    }

    /// Row `i` of the value table, and of the policy table, is complete and exact.
    pub open spec fn row_ok(self, vals: Seq<u64>, pol: Seq<bool>, i: nat) -> bool {
        &&& vals.len() == i + 1
        &&& pol.len() == i + 1
        &&& forall|j: int|
            0 <= j <= i ==> vals[j] == self.node_value(i, j as nat) && pol[j] == self.exercise_policy(
                i,
                j as nat,
            )
    }

    /// The value and policy tables hold one row per step `0..=num_steps`,
    /// each exact.
    pub open spec fn is_solution(self, values: Seq<Vec<u64>>, policy: Seq<Vec<bool>>) -> bool {
        &&& values.len() == self.num_steps + 1
        &&& policy.len() == self.num_steps + 1
        &&& forall|i: int|
            0 <= i <= self.num_steps ==> #[trigger] self.row_ok(values[i]@, policy[i]@, i as nat)
    }

    /// The discounted expectation of the two successor values.
    pub fn continuation(&self, vu: u64, vd: u64) -> (r: u64)
        requires
            self.wf(),
        ensures
            r == self.continuation_of(vu as int, vd as int),
    {
        let s: u128 = SCALE as u128;
        let p: u128 = self.up_prob as u128;
        proof {
            lemma_mix_bounded(p as int, s as int, vu as int, vd as int);
        }
        let mix: u128 = p * (vu as u128) + (s - p) * (vd as u128);
        let avg: u128 = mix / s;
        mul_sat(self.discount, avg as u64)
    }

    /// Value and exercise decision at node `(i, j)`, given the values of
    /// step `i + 1` when `i` is before expiry.
    fn node(&self, i: usize, j: usize, next: &Vec<u64>) -> (r: (u64, bool))
        requires
            self.wf(),
            j <= i <= self.num_steps,
            i < self.num_steps ==> next@.len() > j + 1 && next@[j as int] == self.node_value(
                (i + 1) as nat,
                j as nat,
            ) && next@[j + 1] == self.node_value((i + 1) as nat, (j + 1) as nat),
        ensures
            r.0 == self.node_value(i as nat, j as nat),
            r.1 == self.exercise_policy(i as nat, j as nat),
    {
        let s = self.state_price(i, j);
        let ex = self.payoff.reward(s);
        let cont: u64 = if i == self.num_steps {
            0
        } else {
            self.continuation(next[j + 1], next[j])
        };
        if ex >= cont {
            (ex, true)
        } else {
            (cont, false)
        }
    }

    /// Row `i` of both tables, given row `i + 1` of the value table when `i`
    /// is before expiry.
    fn step_row(&self, i: usize, next: &Vec<u64>) -> (r: (Vec<u64>, Vec<bool>))
        requires
            self.wf(),
            i <= self.num_steps,
            i < self.num_steps ==> next@.len() == i + 2 && forall|j: int|
                0 <= j <= i + 1 ==> next@[j] == self.node_value((i + 1) as nat, j as nat),
        ensures
            self.row_ok(r.0@, r.1@, i as nat),
    {
        let mut vals: Vec<u64> = Vec::new();
        let mut pol: Vec<bool> = Vec::new();
        let mut j: usize = 0;
        while j < i
            invariant
                j <= i <= self.num_steps,
                self.wf(),
                i < self.num_steps ==> next@.len() == i + 2 && forall|k: int|
                    0 <= k <= i + 1 ==> next@[k] == self.node_value((i + 1) as nat, k as nat),
                vals@.len() == j,
                pol@.len() == j,
                forall|k: int|
                    0 <= k < j ==> vals@[k] == self.node_value(i as nat, k as nat) && pol@[k]
                        == self.exercise_policy(i as nat, k as nat),
            decreases i - j,
        {
            let (v, e) = self.node(i, j, next);
            vals.push(v);
            pol.push(e);
            j = j + 1;
        }
        let (v, e) = self.node(i, i, next);
        vals.push(v);
        pol.push(e);
        (vals, pol)
    }

    /// Runs backward induction from expiry to time zero and returns the value
    /// table and the policy table, indexed by step and then by up-count.
    pub fn get_opt_vf_and_policy(&self) -> (r: (Vec<Vec<u64>>, Vec<Vec<bool>>))
        requires
            self.wf(),
        ensures
            self.is_solution(r.0@, r.1@),
            r.0@.len() == self.num_steps + 1,
            r.1@.len() == self.num_steps + 1,
            forall|i: int|
                0 <= i <= self.num_steps ==> (#[trigger] r.0@[i])@.len() == i + 1 && r.1@[i]@.len() == i
                    + 1,
            forall|j: int|
                0 <= j <= self.num_steps ==> (#[trigger] r.0@[self.num_steps as int]@[j])
                    == self.exercise_value(self.num_steps as nat, j as nat),
            forall|i: int, j: int|
                0 <= j <= i <= self.num_steps ==> (#[trigger] r.1@[i]@[j]) == (self.exercise_value(
                    i as nat,
                    j as nat,
                ) >= self.continuation_value(i as nat, j as nat)),
    {
        let n = self.num_steps;
        let mut values: Vec<Vec<u64>> = Vec::new();
        let mut policy: Vec<Vec<bool>> = Vec::new();
        let mut k: usize = 0;
        while k < n
            invariant
                k <= n,
                values@.len() == k,
                policy@.len() == k,
            decreases n - k,
        {
            values.push(Vec::new());
            policy.push(Vec::new());
            k = k + 1;
        }
        let (last_v, last_p) = self.step_row(n, &Vec::new());
        values.push(last_v);
        policy.push(last_p);
        let mut i: usize = n;
        while i > 0
            invariant
                self.wf(),
                n == self.num_steps,
                i <= n,
                values@.len() == n + 1,
                policy@.len() == n + 1,
                forall|a: int| i <= a <= n ==> #[trigger] self.row_ok(values@[a]@, policy@[a]@, a as nat),
            decreases i,
        {
            i = i - 1;
            assert(self.row_ok(values@[i + 1]@, policy@[i + 1]@, (i + 1) as nat));
            let (row_v, row_p) = self.step_row(i, &values[i + 1]);
            values.set(i, row_v);
            policy.set(i, row_p);
        }
        proof {
            assert forall|i: int| 0 <= i <= n implies (#[trigger] values@[i])@.len() == i + 1
                && policy@[i]@.len() == i + 1 by {
                assert(self.row_ok(values@[i]@, policy@[i]@, i as nat));
            }
            let last: int = n as int;
            assert(self.row_ok(values@[last]@, policy@[last]@, last as nat));
            assert forall|i: int, j: int| 0 <= j <= i <= n implies (#[trigger] policy@[i]@[j])
                == (self.exercise_value(i as nat, j as nat) >= self.continuation_value(
                i as nat,
                j as nat,
            )) by {
                assert(self.row_ok(values@[i]@, policy@[i]@, i as nat));
            }
        }
        (values, policy)
    }

    /// Without discounting above one, holding on is never worth more than
    /// the better of the two successor values.
    proof fn lemma_continuation_at_most_max(self, vu: int, vd: int)
        requires
            self.wf(),
            self.discount <= SCALE,
            0 <= vu <= u64::MAX,
            0 <= vd <= u64::MAX,
        ensures
            0 <= self.continuation_of(vu, vd),
            self.continuation_of(vu, vd) <= if vu >= vd {
                vu
            } else {
                vd
            },
    {
        let s = SCALE as int;
        let p = self.up_prob as int;
        let m = if vu >= vd {
            vu
        } else {
            vd
        };
        let mix = p * vu + (s - p) * vd;
        assert(0 <= mix <= s * m) by (nonlinear_arith)
            requires
                mix == p * vu + (s - p) * vd,
                0 <= p <= s,
                0 <= vu <= m,
                0 <= vd <= m,
        ;
        let avg = mix / s;
        assert(0 <= avg <= m) by (nonlinear_arith)
            requires
                avg == mix / s,
                0 <= mix <= s * m,
                s > 0,
        ;
        let g = self.discount as int;
        assert(0 <= g * avg / s <= avg) by (nonlinear_arith)
            requires
                0 <= g <= s,
                0 <= avg,
                s > 0,
        ;
    }

    /// For a put whose one-step discount is at most one (a rate that is not
    /// negative), the value at every node lies between its exercise value
    /// and the payoff at the lowest price reachable from it, which is where
    /// only down-moves lead. At the root the lower bound is the intrinsic
    /// value `max(strike - spot, 0)`; as the volatility goes to zero the
    /// up-factor goes to one, the lowest price to the spot, and the two
    /// bounds meet.
    pub proof fn lemma_put_value_bounds(self, i: nat, j: nat)
        requires
            self.wf(),
            self.payoff.kind == OptionKind::Put,
            self.discount <= SCALE,
            j <= i <= self.num_steps,
        ensures
            0 <= self.exercise_value(i, j) <= self.node_value(i, j),
            self.node_value(i, j) <= self.payoff.spec_reward(self.spec_price(self.num_steps as nat, j)),
            i == 0 ==> self.exercise_value(i, j) == self.payoff.spec_reward(self.spot_price as int),
        decreases self.num_steps - i,
    {
        let n = self.num_steps as nat;
        self.lemma_net_price_monotone(2 * j - n, 2 * j - i);
        if i < n {
            self.lemma_put_value_bounds(i + 1, j);
            self.lemma_put_value_bounds(i + 1, j + 1);
            self.lemma_net_price_monotone(2 * j - n, 2 * (j + 1) - n);
            self.lemma_continuation_at_most_max(
                self.node_value(i + 1, j + 1),
                self.node_value(i + 1, j),
            );
        }
    }

    /// Backward induction has exactly one outcome: two value tables and two
    /// policy tables that both solve the same contract agree entry by entry,
    /// so pricing the same contract twice gives identical tables.
    pub proof fn lemma_solution_unique(
        self,
        values1: Seq<Vec<u64>>,
        policy1: Seq<Vec<bool>>,
        values2: Seq<Vec<u64>>,
        policy2: Seq<Vec<bool>>,
    )
        requires
            self.wf(),
            self.is_solution(values1, policy1),
            self.is_solution(values2, policy2),
        ensures
            values1.len() == values2.len(),
            policy1.len() == policy2.len(),
            forall|i: int|
                0 <= i < values1.len() ==> (#[trigger] values1[i])@ == values2[i]@ && policy1[i]@
                    == policy2[i]@,
    {
        assert forall|i: int| 0 <= i < values1.len() implies (#[trigger] values1[i])@ == values2[i]@
            && policy1[i]@ == policy2[i]@ by {
            assert(self.row_ok(values1[i]@, policy1[i]@, i as nat));
            assert(self.row_ok(values2[i]@, policy2[i]@, i as nat));
            assert(values1[i]@ =~= values2[i]@);
            assert(policy1[i]@ =~= policy2[i]@);
        }
    }
}

} // verus!
