//! The early-exercise boundary read off the policy table.
use vstd::prelude::*;
use crate::payoff::OptionKind;
use crate::tree::OptimalExerciseBinTree;

verus! {

impl OptimalExerciseBinTree {
    /// Node `(i, j)` is marked for exercise and exercising there pays something.
    pub open spec fn qualifies(self, row: Seq<bool>, i: nat, j: int) -> bool {
        &&& 0 <= j < row.len()
        &&& row[j]
        &&& self.exercise_value(i, j as nat) > 0
    }

    /// `j` is the lowest qualifying up-count of the row for a call, the
    /// highest for a put.
    pub open spec fn is_boundary_index(self, row: Seq<bool>, i: nat, is_call: bool, j: int) -> bool {
        &&& self.qualifies(row, i, j)
        &&& forall|k: int|
            #[trigger] self.qualifies(row, i, k) ==> (if is_call {
                j <= k
            } else {
                k <= j
            })
    }

    /// The boundary up-count of a row, if any node of it qualifies.
    pub open spec fn row_boundary(self, row: Seq<bool>, i: nat, is_call: bool) -> Option<int> {
        if exists|j: int| self.qualifies(row, i, j) {
            Some(choose|j: int| self.is_boundary_index(row, i, is_call, j))
        } else {
            None
        }
    }

    /// The boundary points `(time, price)` contributed by the first `k` rows.
    pub open spec fn boundary_seq(self, policy: Seq<Vec<bool>>, is_call: bool, k: nat) -> Seq<
        (u64, u64),
    >
        decreases k,
    {
        if k == 0 {
            seq![]
        } else {
            let i = (k - 1) as nat;
            let prev = self.boundary_seq(policy, is_call, i);
            match self.row_boundary(policy[i as int]@, i, is_call) {
                Some(j) => prev.push(
                    ((i * self.step_time) as u64, self.spec_price(i, j as nat) as u64),
                ),
                None => prev,
            }
        }
    }

    /// Up-count of the boundary node of row `i` of a policy table.
    fn boundary_index(&self, i: usize, row: &Vec<bool>, is_call: bool) -> (r: Option<usize>)
        requires
            self.wf(),
            row@.len() <= i + 1,
        ensures
            match r {
                Some(j) => self.row_boundary(row@, i as nat, is_call) == Some(j as int)
                    && self.is_boundary_index(row@, i as nat, is_call, j as int),
                None => self.row_boundary(row@, i as nat, is_call) == None::<int>,
            },
    {
        let mut found: Option<usize> = None;
        let mut j: usize = 0;
        while j < row.len()
            invariant
                j <= row@.len() <= i + 1,
                self.wf(),
                found is None ==> forall|k: int| 0 <= k < j ==> !#[trigger] self.qualifies(row@, i as nat, k),
                found is Some ==> {
                    let b = found->Some_0 as int;
                    &&& b < j
                    &&& self.qualifies(row@, i as nat, b)
                    &&& forall|k: int|
                        0 <= k < j && #[trigger] self.qualifies(row@, i as nat, k) ==> (if is_call {
                            b <= k
                        } else {
                            k <= b
                        })
                },
            decreases row@.len() - j,
        {
            if row[j] {
                let s = self.state_price(i, j);
                if self.payoff.reward(s) > 0 {
                    if is_call {
                        if found.is_none() {
                            found = Some(j);
                        }
                    } else {
                        found = Some(j);
                    }
                }
            }
            j = j + 1;
        }
        match found {
            Some(b) => {
                proof {
                    assert(self.is_boundary_index(row@, i as nat, is_call, b as int));
                    let c = choose|c: int| self.is_boundary_index(row@, i as nat, is_call, c);
                    assert(self.qualifies(row@, i as nat, c));
                    assert(c == b as int);
                }
            },
            None => {},
        }
        found
    }

    /// Reads the early-exercise boundary off a policy table: for each step
    /// with a node that is marked for exercise and pays something, the time
    /// of the step and the price at its boundary node, the lowest such
    /// up-count for a call and the highest for a put.
    pub fn option_exercise_boundary(&self, policy_seq: &Vec<Vec<bool>>, is_call: bool) -> (r: Vec<
        (u64, u64),
    >)
        requires
            self.wf(),
            policy_seq@.len() <= self.num_steps + 1,
            forall|i: int| 0 <= i < policy_seq@.len() ==> #[trigger] policy_seq@[i]@.len() <= i + 1,
        ensures
            r@ == self.boundary_seq(policy_seq@, is_call, policy_seq@.len()),
            forall|k: int| 0 <= k < r@.len() - 1 ==> (#[trigger] r@[k]).0 < r@[k + 1].0,
            self.payoff.kind == OptionKind::Put ==> forall|k: int|
                0 <= k < r@.len() ==> (#[trigger] r@[k]).1 < self.payoff.strike,
            self.payoff.kind == OptionKind::Call ==> forall|k: int|
                0 <= k < r@.len() ==> (#[trigger] r@[k]).1 > self.payoff.strike,
    {
        let dt = self.dt();
        let mut ex_boundary: Vec<(u64, u64)> = Vec::new();
        let mut i: usize = 0;
        while i < policy_seq.len()
            invariant
                self.wf(),
                dt == self.step_time,
                i <= policy_seq@.len() <= self.num_steps + 1,
                forall|a: int| 0 <= a < policy_seq@.len() ==> #[trigger] policy_seq@[a]@.len() <= a + 1,
                ex_boundary@ == self.boundary_seq(policy_seq@, is_call, i as nat),
                forall|k: int|
                    0 <= k < ex_boundary@.len() - 1 ==> (#[trigger] ex_boundary@[k]).0 < ex_boundary@[k
                        + 1].0,
                forall|k: int|
                    0 <= k < ex_boundary@.len() ==> ((#[trigger] ex_boundary@[k]).0 as int) < (i as int)
                        * (dt as int),
                self.payoff.kind == OptionKind::Put ==> forall|k: int|
                    0 <= k < ex_boundary@.len() ==> (#[trigger] ex_boundary@[k]).1 < self.payoff.strike,
                self.payoff.kind == OptionKind::Call ==> forall|k: int|
                    0 <= k < ex_boundary@.len() ==> (#[trigger] ex_boundary@[k]).1 > self.payoff.strike,
            decreases policy_seq@.len() - i,
        {
            let row = &policy_seq[i];
            assert(row@.len() <= i + 1);
            let picked = self.boundary_index(i, row, is_call);
            match picked {
                Some(b) => {
                    assert((i as int) * (dt as int) <= (self.num_steps as int) * (dt as int)) by (nonlinear_arith)
                        requires
                            i <= self.num_steps,
                            dt >= 0,
                    ;
                    let t: u64 = (i as u64) * dt;
                    let s = self.state_price(i, b);
                    ex_boundary.push((t, s));
                    assert((i as int) * (dt as int) < (i as int + 1) * (dt as int)) by (nonlinear_arith)
                        requires
                            dt > 0,
                    ;
                },
                None => {
                    assert((i as int) * (dt as int) <= (i as int + 1) * (dt as int)) by (nonlinear_arith)
                        requires
                            dt > 0,
                    ;
                },
            }
            i = i + 1;
        }
        ex_boundary
    }
}

} // verus!
