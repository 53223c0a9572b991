//! Pricing of American-style options by backward induction on a recombining
//! binomial lattice, with extraction of the early-exercise boundary.
//!
//! All quantities are fixed-point integers: a `u64` value `x` stands for the
//! real number `x / SCALE`.
pub mod fixed;
pub mod payoff;
pub mod tree;
pub mod engine;
pub mod boundary;
