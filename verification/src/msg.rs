//! The request messages of the engine's external interface.

use vstd::prelude::*;

use crate::state::Coin;

verus! {

/// Terms of the option to create.
pub struct InstantiateMsg {
    /// Strike price, denominated in the settlement currency.
    pub strike_price: Coin,
    /// Period at or after which the option expires; must lie in the future.
    pub expiration_date: u64,
    /// True when the holder is short the position, false when long.
    pub buysell: bool,
    /// True for a put, false for a call.
    pub putcall: bool,
    /// Number of option units; must be positive.
    pub quantity: u64,
    /// The counterparty liquidity pool.
    pub liq_pool: String,
    /// Settlement (cash) currency.
    pub conv_coin: String,
    /// Collateral currency.
    pub opt_coin: String,
}

/// The three transitions an open option accepts.
pub enum ExecuteMsg {
    /// Exchange the opening premium and collateral legs.
    InitOption { recipient: String },
    /// Settle at or after expiration from intrinsic value, then delete.
    Expires {},
    /// Unwind before expiration at the model fair value, then delete.
    SellOption { owner: String },
}

/// The read-only queries.
pub enum QueryMsg {
    /// The terms of the currently open option.
    Config {},
}

} // verus!
