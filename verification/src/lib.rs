//! A portfolio-allocation engine: a volatility-based risk-parity baseline
//! weighting, tilted by macro-economic indicator signals and renormalized so
//! that the final allocations sum to one.
//!
//! All scalar quantities (volatilities, expected returns, correlations,
//! indicator signals) are fixed-point integers with two decimal places: a
//! stored value `v` stands for the real quantity `v / 100`. Allocations are
//! exact rationals, so the sum-to-one guarantees hold exactly rather than up
//! to floating-point tolerance.

pub mod arith;
pub mod asset_allocation;
pub mod economic_data;
pub mod models;
pub mod rational;
