//! The error taxonomy of the option engine.

use vstd::prelude::*;

verus! {

/// Everything a transition can report instead of succeeding. No error leaves
/// a partial state change behind.
#[derive(Clone, Copy, Debug, PartialEq, Eq, Structural)]
pub enum ContractError {
    /// Creation parameters describe an option that could never be settled.
    InvalidTerms,
    /// The caller or the current time fails a transition's guard.
    Unauthorized,
    /// No open option record exists: never created, or already settled.
    NotFound,
    /// The pricing model was handed a non-positive or oversized input.
    InvalidPricingInput,
    /// The host ledger rejected the requested transfers; reported by the
    /// surrounding platform integration, never by this library itself.
    TransferFailed,
}

} // verus!
