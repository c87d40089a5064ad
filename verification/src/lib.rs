//! A verified engine for the lifecycle of a single cash- or asset-settled
//! option contract between a holder and a counterparty liquidity pool.
//!
//! All money amounts are unsigned integers in minor units of their currency,
//! with [`fixed::SCALE`] minor units to one whole unit. The pricing model is a
//! deterministic fixed-point approximation, so that the same inputs always
//! yield the same settlement amounts on every machine.

pub mod contract;
pub mod error;
pub mod fixed;
pub mod msg;
pub mod pricing;
pub mod state;
