//! The persisted data model: one option record per deployment, held in an
//! explicit store so its lifecycle is checkable independently of any host
//! storage facility.

use vstd::prelude::*;

use crate::pricing::{AMOUNT_MAX, PERIODS_MAX};

verus! {

/// Largest quantity of option units a record may hold.
pub const QTY_MAX: u64 = 1_000_000_000;

/// An amount of a named currency, in minor units.
#[derive(Debug)]
pub struct Coin {
    pub amount: u128,
    pub denom: String,
}

/// The terms and funds position of the one open option. Terms are fixed at
/// creation and never mutated; the record is deleted by the terminal
/// transitions.
#[derive(Debug)]
pub struct State {
    /// The option holder.
    pub owner: String,
    /// The period (ledger ordinal) at or after which the option expires.
    pub expiration_date: u64,
    /// True for a put, false for a call.
    pub putcall: bool,
    /// True when the holder is short the position, false when long.
    pub buysell: bool,
    /// Strike price, denominated in the settlement currency.
    pub strike_price: Coin,
    /// Number of option units.
    pub quantity: u64,
    /// The counterparty liquidity pool.
    pub liquidity: String,
    /// Funds attached at creation (an audit record, never re-derived).
    pub sent: Vec<Coin>,
    /// Settlement (cash) currency of premium and payoff legs.
    pub conv_coin: String,
    /// Collateral currency of physically settled legs.
    pub opt_coin: String,
}

impl State {
    /// The record invariant: positive quantity and strike, an expiration the
    /// pricing model can handle. Established at creation, preserved for the
    /// record's whole life.
    pub open spec fn wf(self) -> bool {
        &&& 0 < self.quantity <= QTY_MAX
        &&& 0 < self.strike_price.amount <= AMOUNT_MAX
        &&& 0 < self.expiration_date <= PERIODS_MAX
    }
}

/// One fund movement between the two parties, in minor units of `denom`.
#[derive(Debug)]
pub struct Transfer {
    pub from: String,
    pub to: String,
    pub amount: u128,
    pub denom: String,
}

/// What a successful transition hands back: the complete list of transfers
/// that the host ledger must execute atomically before the transition counts
/// as settled. No transition hides fund movements anywhere else.
#[derive(Debug)]
pub struct Response {
    pub transfers: Vec<Transfer>,
}

/// The keyed store holding the single option record. The record exists from
/// successful creation until exactly one terminal transition deletes it.
#[derive(Debug)]
pub struct OptionStore {
    pub record: Option<State>,
}

impl OptionStore {
    /// Every record the store holds satisfies the record invariant.
    pub open spec fn wf(self) -> bool {
        self.record matches Some(s) ==> s.wf()
    }

    /// An empty store, as deployed before any option is created.
    pub fn new() -> (s: OptionStore)
        ensures
            s.record is None,
            s.wf(),
    {
        OptionStore { record: None }
    }
}

} // verus!
