use optops::fixed::{mul_sat, SCALE};
use optops::payoff::{OptionKind, Payoff};
use optops::tree::{ConfigError, OptimalExerciseBinTree};
use statrs::distribution::{ContinuousCDF, Normal};

fn fx(x: f64) -> u64 {
    (x * 1e9).round() as u64
}

fn to_float(x: u64) -> f64 {
    x as f64 / 1e9
}

fn build(spot: f64, strike: f64, expiry: f64, rate: f64, vol: f64, n: usize, is_call: bool) -> OptimalExerciseBinTree {
    let dt = expiry / n as f64;
    let up = (vol * dt.sqrt()).exp();
    let growth = (rate * dt).exp();
    let discount = (-rate * dt).exp();
    let payoff = if is_call { Payoff::call(fx(strike)) } else { Payoff::put(fx(strike)) };
    OptimalExerciseBinTree::new(fx(spot), payoff, fx(expiry), n, fx(up), fx(growth), fx(discount)).unwrap()
}

fn black_scholes(spot: f64, strike: f64, expiry: f64, rate: f64, vol: f64, is_call: bool) -> f64 {
    let sigma_sqrt = vol * expiry.sqrt();
    let d1 = ((spot / strike).ln() + (rate + vol * vol / 2.0) * expiry) / sigma_sqrt;
    let d2 = d1 - sigma_sqrt;
    let norm = Normal::new(0.0, 1.0).unwrap();
    if is_call {
        spot * norm.cdf(d1) - strike * (-rate * expiry).exp() * norm.cdf(d2)
    } else {
        strike * (-rate * expiry).exp() * norm.cdf(-d2) - spot * norm.cdf(-d1)
    }
}

/// A lattice on which holding on is worth exactly as much as exercising:
/// up 4x, down 1/4, probability 1/5, no discounting, call with strike 1.
fn tie_tree() -> OptimalExerciseBinTree {
    OptimalExerciseBinTree::new(1024 * SCALE, Payoff::call(SCALE), 3 * SCALE, 3, 4 * SCALE, SCALE, SCALE).unwrap()
}

#[test]
fn american_put_dominates_european() {
    let tree = build(100.0, 100.0, 1.0, 0.05, 0.25, 300, false);
    let (values, _) = tree.get_opt_vf_and_policy();
    let american = to_float(values[0][0]);
    let european = black_scholes(100.0, 100.0, 1.0, 0.05, 0.25, false);
    assert!((european - 7.459).abs() < 0.01, "european {}", european);
    assert!(american > european, "american {} european {}", american, european);
    assert!((american - 7.97).abs() < 0.01, "american {}", american);
}

#[test]
fn american_call_matches_european_without_dividends() {
    let tree = build(100.0, 100.0, 1.0, 0.05, 0.25, 300, true);
    let (values, _) = tree.get_opt_vf_and_policy();
    let american = to_float(values[0][0]);
    let european = black_scholes(100.0, 100.0, 1.0, 0.05, 0.25, true);
    assert!((american - european).abs() < 0.05, "american {} european {}", american, european);
}

#[test]
fn near_zero_volatility_put_in_the_money() {
    let tree = build(90.0, 100.0, 1.0, 0.0, 1e-4, 300, false);
    let (values, _) = tree.get_opt_vf_and_policy();
    let american = to_float(values[0][0]);
    let european = black_scholes(90.0, 100.0, 1.0, 0.0, 1e-4, false);
    assert!((american - 10.0).abs() < 1e-3, "american {}", american);
    assert!((european - 10.0).abs() < 1e-3, "european {}", european);
}

#[test]
fn near_zero_volatility_put_at_the_money() {
    let tree = build(100.0, 100.0, 1.0, 0.0, 1e-4, 300, false);
    let (values, _) = tree.get_opt_vf_and_policy();
    let american = to_float(values[0][0]);
    let european = black_scholes(100.0, 100.0, 1.0, 0.0, 1e-4, false);
    assert!(american.abs() < 0.01, "american {}", american);
    assert!(european.abs() < 0.01, "european {}", european);
}

#[test]
fn tie_break_prefers_exercise() {
    let tree = tie_tree();
    assert_eq!(tree.up_prob, SCALE / 5);
    assert_eq!(tree.down_factor, SCALE / 4);
    let price = tree.state_price(2, 1);
    let exercise = tree.payoff.reward(price);
    let up = tree.payoff.reward(tree.state_price(3, 2));
    let down = tree.payoff.reward(tree.state_price(3, 1));
    assert_eq!(tree.continuation(up, down), exercise);
    let (values, policy) = tree.get_opt_vf_and_policy();
    for row in &policy {
        assert!(row.iter().all(|&e| e));
    }
    assert_eq!(values[0][0], 1023 * SCALE);
    let (values2, policy2) = tree.get_opt_vf_and_policy();
    assert_eq!(values, values2);
    assert_eq!(policy, policy2);
}

#[test]
fn strict_continuation_keeps_holding() {
    let tree = build(100.0, 100.0, 1.0, 0.05, 0.25, 4, true);
    let (values, policy) = tree.get_opt_vf_and_policy();
    let top = tree.state_price(0, 0);
    assert!(values[0][0] > tree.payoff.reward(top));
    assert!(!policy[0][0]);
}

#[test]
fn put_boundary_is_non_empty_and_below_strike() {
    let tree = build(100.0, 100.0, 1.0, 0.05, 0.25, 300, false);
    let (_, policy) = tree.get_opt_vf_and_policy();
    let boundary = tree.option_exercise_boundary(&policy, false);
    assert!(!boundary.is_empty());
    for &(_, price) in &boundary {
        assert!(price < fx(100.0));
    }
    for w in boundary.windows(2) {
        assert!(w[0].0 < w[1].0);
    }
}

#[test]
fn call_boundary_is_above_strike() {
    let tree = build(100.0, 100.0, 1.0, 0.05, 0.25, 50, true);
    let (_, policy) = tree.get_opt_vf_and_policy();
    let boundary = tree.option_exercise_boundary(&policy, true);
    assert!(!boundary.is_empty());
    for &(_, price) in &boundary {
        assert!(price > fx(100.0));
    }
    let last = boundary[boundary.len() - 1];
    assert_eq!(last.0, 50 * tree.dt());
}

#[test]
fn boundary_picks_extreme_up_counts() {
    let tree = OptimalExerciseBinTree::new(100 * SCALE, Payoff::put(150 * SCALE), SCALE, 2, 2 * SCALE, SCALE, SCALE)
        .unwrap();
    let policy = vec![vec![true], vec![true, true], vec![true, true, true]];
    let boundary = tree.option_exercise_boundary(&policy, false);
    // Step 2 prices are 25, 100 and 400: the put pays at the first two.
    assert_eq!(boundary.len(), 3);
    assert_eq!(boundary[0], (0, 100 * SCALE));
    assert_eq!(boundary[1], (tree.dt(), 50 * SCALE));
    assert_eq!(boundary[2], (2 * tree.dt(), 100 * SCALE));
    let as_call = tree.option_exercise_boundary(&policy, true);
    assert_eq!(as_call[2], (2 * tree.dt(), 25 * SCALE));
}

#[test]
fn boundary_skips_rows_without_paying_exercise() {
    let tree = OptimalExerciseBinTree::new(100 * SCALE, Payoff::put(10 * SCALE), SCALE, 2, 2 * SCALE, SCALE, SCALE)
        .unwrap();
    let policy = vec![vec![true], vec![false, true], vec![true, true, true]];
    let boundary = tree.option_exercise_boundary(&policy, false);
    assert_eq!(boundary.len(), 0);
}

#[test]
fn idempotent_tables() {
    let tree = build(100.0, 100.0, 1.0, 0.05, 0.25, 60, false);
    let first = tree.get_opt_vf_and_policy();
    let second = tree.get_opt_vf_and_policy();
    assert_eq!(first.0, second.0);
    assert_eq!(first.1, second.1);
}

#[test]
fn table_rows_have_step_plus_one_entries() {
    let tree = build(100.0, 100.0, 1.0, 0.05, 0.25, 25, false);
    let (values, policy) = tree.get_opt_vf_and_policy();
    assert_eq!(values.len(), 26);
    assert_eq!(policy.len(), 26);
    for i in 0..26 {
        assert_eq!(values[i].len(), i + 1);
        assert_eq!(policy[i].len(), i + 1);
    }
}

#[test]
fn terminal_row_is_payoff() {
    let tree = build(100.0, 100.0, 1.0, 0.05, 0.25, 25, false);
    let (values, policy) = tree.get_opt_vf_and_policy();
    for j in 0..=25 {
        assert_eq!(values[25][j], tree.payoff.reward(tree.state_price(25, j)));
        assert!(policy[25][j]);
    }
}

#[test]
fn lattice_prices() {
    let tree = OptimalExerciseBinTree::new(100 * SCALE, Payoff::put(SCALE), SCALE, 3, 2 * SCALE, SCALE, SCALE).unwrap();
    assert_eq!(tree.state_price(0, 0), 100 * SCALE);
    assert_eq!(tree.state_price(2, 2), 400 * SCALE);
    assert_eq!(tree.state_price(2, 1), 100 * SCALE);
    assert_eq!(tree.state_price(3, 0), 12_500_000_000);
    assert_eq!(tree.dt(), SCALE / 3);
}

#[test]
fn risk_neutral_probability() {
    // growth 1, up 2: p = (2 - 1) / (4 - 1) = 1/3.
    let tree = OptimalExerciseBinTree::new(100 * SCALE, Payoff::put(SCALE), SCALE, 3, 2 * SCALE, SCALE, SCALE).unwrap();
    assert_eq!(tree.up_prob, 333_333_333);
    assert_eq!(tree.discount, SCALE);
}

#[test]
fn continuation_is_discounted_expectation() {
    let tree = OptimalExerciseBinTree::new(100 * SCALE, Payoff::put(SCALE), SCALE, 3, 4 * SCALE, SCALE, SCALE / 2)
        .unwrap();
    // p = 1/5: (0.2 * 50 + 0.8 * 10) * 0.5 = 9.
    assert_eq!(tree.continuation(50 * SCALE, 10 * SCALE), 9 * SCALE);
}

#[test]
fn config_errors() {
    let p = Payoff::put(SCALE);
    assert_eq!(OptimalExerciseBinTree::new(SCALE, p, SCALE, 0, 2 * SCALE, SCALE, SCALE).err(), Some(ConfigError::ZeroSteps));
    assert_eq!(OptimalExerciseBinTree::new(0, p, SCALE, 3, 2 * SCALE, SCALE, SCALE).err(), Some(ConfigError::NonPositiveSpot));
    assert_eq!(OptimalExerciseBinTree::new(SCALE, p, 0, 3, 2 * SCALE, SCALE, SCALE).err(), Some(ConfigError::NonPositiveExpiry));
    assert_eq!(OptimalExerciseBinTree::new(SCALE, p, SCALE, 3, SCALE, SCALE, SCALE).err(), Some(ConfigError::NonPositiveVolatility));
    // growth above the up-factor: p > 1.
    assert_eq!(
        OptimalExerciseBinTree::new(SCALE, p, SCALE, 3, 2 * SCALE, 3 * SCALE, SCALE).err(),
        Some(ConfigError::ProbabilityOutOfRange)
    );
    // growth below the down-factor: p < 0.
    assert_eq!(
        OptimalExerciseBinTree::new(SCALE, p, SCALE, 3, 2 * SCALE, SCALE / 4, SCALE).err(),
        Some(ConfigError::ProbabilityOutOfRange)
    );
    // expiry of 1e-9 over three steps: the step rounds to zero.
    assert_eq!(OptimalExerciseBinTree::new(SCALE, p, 1, 3, 2 * SCALE, SCALE, SCALE).err(), Some(ConfigError::ZeroTimeStep));
    // 100 * 2^40 does not fit in fixed point.
    assert_eq!(
        OptimalExerciseBinTree::new(100 * SCALE, p, SCALE, 40, 2 * SCALE, SCALE, SCALE).err(),
        Some(ConfigError::PriceOverflow)
    );
    assert!(OptimalExerciseBinTree::new(100 * SCALE, p, SCALE, 20, 2 * SCALE, SCALE, SCALE).is_ok());
    assert!(OptimalExerciseBinTree::new(SCALE, p, SCALE, 3, 2 * SCALE, SCALE, SCALE).is_ok());
}

#[test]
fn nodes_with_equal_net_moves_share_a_price() {
    let tree = build(100.0, 100.0, 1.0, 0.05, 0.25, 300, false);
    assert_eq!(tree.state_price(0, 0), fx(100.0));
    assert_eq!(tree.state_price(2, 1), tree.state_price(0, 0));
    assert_eq!(tree.state_price(7, 5), tree.state_price(3, 3));
    assert_eq!(tree.state_price(6, 1), tree.state_price(4, 0));
    assert!(tree.state_price(5, 3) > tree.state_price(5, 2));
}

#[test]
fn payoff_rewards() {
    let call = Payoff::call(100 * SCALE);
    let put = Payoff::put(100 * SCALE);
    assert_eq!(call.kind, OptionKind::Call);
    assert!(call.is_call());
    assert!(!put.is_call());
    assert_eq!(call.reward(130 * SCALE), 30 * SCALE);
    assert_eq!(call.reward(70 * SCALE), 0);
    assert_eq!(put.reward(70 * SCALE), 30 * SCALE);
    assert_eq!(put.reward(130 * SCALE), 0);
    assert_eq!(put.reward(100 * SCALE), 0);
}

#[test]
fn fixed_point_products() {
    assert_eq!(mul_sat(2 * SCALE, 3 * SCALE), 6 * SCALE);
    assert_eq!(mul_sat(SCALE / 2, 3), 1);
    assert_eq!(mul_sat(u64::MAX, 2 * SCALE), u64::MAX);
}
