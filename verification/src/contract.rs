//! The lifecycle controller and settlement engine.
//!
//! A deployment starts with an empty [`OptionStore`]. `instantiate` creates
//! the single option record; `try_initoption` exchanges the opening funding
//! legs without changing state; `try_selloption` (early sale, before
//! expiration) and `try_expires` (at or after expiration) are the two
//! terminal transitions, each deleting the record. Every successful
//! transition returns the complete list of transfers the host must execute
//! atomically; every failure leaves the store untouched.

use vstd::prelude::*;

use crate::error::ContractError;
use crate::msg::{ExecuteMsg, InstantiateMsg, QueryMsg};
use crate::pricing::{
    lemma_settled_parity, pricing_domain, spec_dk, spec_fair, price, AMOUNT_MAX, PERIODS_MAX,
};
use crate::state::{Coin, OptionStore, Response, State, Transfer, QTY_MAX};

verus! {

/// Valid creation terms: a future expiration the pricing model can handle,
/// a positive quantity and a positive strike.
pub open spec fn terms_ok(msg: InstantiateMsg, now: u64) -> bool {
    &&& now < msg.expiration_date <= PERIODS_MAX
    &&& 0 < msg.quantity <= QTY_MAX
    &&& 0 < msg.strike_price.amount <= AMOUNT_MAX
}

/// The record that creation persists.
pub open spec fn created_state(msg: InstantiateMsg, sender: String, funds: Vec<Coin>) -> State {
    State {
        owner: sender,
        expiration_date: msg.expiration_date,
        putcall: msg.putcall,
        buysell: msg.buysell,
        strike_price: msg.strike_price,
        quantity: msg.quantity,
        liquidity: msg.liq_pool,
        sent: funds,
        conv_coin: msg.conv_coin,
        opt_coin: msg.opt_coin,
    }
}

/// Expiry settlement is allowed once `now` has reached the expiration.
pub open spec fn expire_timing_ok(expiration: u64, now: u64) -> bool {
    expiration <= now
}

/// Early sale is allowed strictly before the expiration.
pub open spec fn sale_timing_ok(expiration: u64, now: u64) -> bool {
    now < expiration
}

/// Largest spot price expiry settlement accepts. Expiry settles from
/// intrinsic value alone and runs no model price, so any spot the integer
/// arithmetic can carry is taken — including zero; this cap is the
/// overflow-safe machine bound for `quantity * spot`, not a model
/// restriction.
pub const EXPIRY_SPOT_MAX: u128 = 300_000_000_000_000_000_000_000_000_000;

/// An oracle spot price the expiry settlement table accepts.
pub open spec fn spot_ok(spot: int) -> bool {
    0 <= spot <= EXPIRY_SPOT_MAX
}

/// The full pricing domain for a record's own terms.
pub open spec fn oracle_ok(s: State, spot: int, vol: int, rate: int) -> bool {
    pricing_domain(spot, s.strike_price.amount as int, s.expiration_date as int, vol, rate)
}

/// The model fair value of one unit of the recorded option.
pub open spec fn record_fair(s: State, spot: int, vol: int, rate: int) -> int {
    spec_fair(
        s.putcall,
        spot,
        s.strike_price.amount as int,
        s.expiration_date as int,
        vol,
        rate,
    )
}

/// Opening funding legs, by option type and side. The premium is
/// `fair value * quantity` in the settlement currency; a long position also
/// posts collateral: `quantity` units of the option currency for a call,
/// `strike * quantity` settlement units for a put.
pub open spec fn open_transfers(s: State, fair: int) -> Seq<Transfer> {
    let premium = Transfer {
        from: s.liquidity,
        to: s.owner,
        amount: (fair * s.quantity) as u128,
        denom: s.conv_coin,
    };
    if s.buysell {
        seq![
            (Transfer {
                from: s.owner,
                to: s.liquidity,
                amount: (fair * s.quantity) as u128,
                denom: s.conv_coin,
            }),
        ]
    } else if !s.putcall {
        seq![
            premium,
            (Transfer {
                from: s.owner,
                to: s.liquidity,
                amount: s.quantity as u128,
                denom: s.opt_coin,
            }),
        ]
    } else {
        seq![
            premium,
            (Transfer {
                from: s.owner,
                to: s.liquidity,
                amount: (s.strike_price.amount * s.quantity) as u128,
                denom: s.conv_coin,
            }),
        ]
    }
}

/// Expiry settlement, from intrinsic value only: eight branches over
/// (type, side, moneyness). A long position receives the intrinsic payoff
/// when in the money and nothing otherwise; a short position's counterparty
/// obligations are cash-settled when in the money, and the posted collateral
/// comes back otherwise.
pub open spec fn expiry_transfers(s: State, spot: int) -> Seq<Transfer> {
    let qty = s.quantity as int;
    let strike = s.strike_price.amount as int;
    if !s.putcall {
        if !s.buysell {
            if spot > strike {
                seq![
                    (Transfer {
                        from: s.liquidity,
                        to: s.owner,
                        amount: (qty * (spot - strike)) as u128,
                        denom: s.conv_coin,
                    }),
                ]
            } else {
                Seq::<Transfer>::empty()
            }
        } else {
            if spot > strike {
                seq![
                    (Transfer {
                        from: s.liquidity,
                        to: s.owner,
                        amount: (qty * spot) as u128,
                        denom: s.conv_coin,
                    }),
                ]
            } else {
                seq![
                    (Transfer {
                        from: s.liquidity,
                        to: s.owner,
                        amount: s.quantity as u128,
                        denom: s.opt_coin,
                    }),
                ]
            }
        }
    } else {
        if !s.buysell {
            if spot < strike {
                seq![
                    (Transfer {
                        from: s.liquidity,
                        to: s.owner,
                        amount: (qty * (strike - spot)) as u128,
                        denom: s.conv_coin,
                    }),
                ]
            } else {
                Seq::<Transfer>::empty()
            }
        } else {
            if spot < strike {
                seq![
                    (Transfer {
                        from: s.liquidity,
                        to: s.owner,
                        amount: s.quantity as u128,
                        denom: s.opt_coin,
                    }),
                ]
            } else {
                seq![
                    (Transfer {
                        from: s.liquidity,
                        to: s.owner,
                        amount: (qty * strike) as u128,
                        denom: s.conv_coin,
                    }),
                ]
            }
        }
    }
}

/// Early-sale unwind legs. A long holder is paid the current fair value; a
/// short holder buys the position back at fair value and the pool returns
/// `quantity` units of the option currency.
pub open spec fn sale_transfers(s: State, fair: int) -> Seq<Transfer> {
    if !s.buysell {
        seq![
            (Transfer {
                from: s.liquidity,
                to: s.owner,
                amount: (fair * s.quantity) as u128,
                denom: s.conv_coin,
            }),
        ]
    } else {
        seq![
            (Transfer {
                from: s.owner,
                to: s.liquidity,
                amount: (fair * s.quantity) as u128,
                denom: s.conv_coin,
            }),
            (Transfer {
                from: s.liquidity,
                to: s.owner,
                amount: s.quantity as u128,
                denom: s.opt_coin,
            }),
        ]
    }
}

/// When expiry settlement goes through, and what the store holds afterwards.
pub open spec fn expires_accepts(rec: Option<State>, now: u64, spot: int) -> bool {
    rec matches Some(s) && expire_timing_ok(s.expiration_date, now) && spot_ok(spot)
}

pub open spec fn expires_next(rec: Option<State>, now: u64, spot: int) -> Option<State> {
    if expires_accepts(rec, now, spot) {
        None
    } else {
        rec
    }
}

/// When an early sale goes through, and what the store holds afterwards.
pub open spec fn sale_accepts(
    rec: Option<State>,
    sender: Seq<char>,
    now: u64,
    spot: int,
    vol: int,
    rate: int,
) -> bool {
    rec matches Some(s) && sender == s.owner@ && sale_timing_ok(s.expiration_date, now)
        && oracle_ok(s, spot, vol, rate)
}

pub open spec fn sale_next(
    rec: Option<State>,
    sender: Seq<char>,
    now: u64,
    spot: int,
    vol: int,
    rate: int,
) -> Option<State> {
    if sale_accepts(rec, sender, now, spot, vol, rate) {
        None
    } else {
        rec
    }
}

/// Create the option record. Succeeds exactly on valid terms; nothing is
/// persisted otherwise, and no funds move either way.
pub fn instantiate(
    store: &mut OptionStore,
    now: u64,
    sender: String,
    funds: Vec<Coin>,
    msg: InstantiateMsg,
) -> (r: Result<Response, ContractError>)
    requires
        old(store).wf(),
    ensures
        r is Ok <==> terms_ok(msg, now),
        final(store).wf(),
        terms_ok(msg, now) ==> final(store).record == Some(created_state(msg, sender, funds))
            && (r matches Ok(resp) && resp.transfers@.len() == 0),
        !terms_ok(msg, now) ==> *final(store) == *old(store) && r == Err::<
            Response,
            ContractError,
        >(ContractError::InvalidTerms),
{
    if !(now < msg.expiration_date && msg.expiration_date <= PERIODS_MAX && 0 < msg.quantity
        && msg.quantity <= QTY_MAX && 0 < msg.strike_price.amount && msg.strike_price.amount
        <= AMOUNT_MAX) {
        return Err(ContractError::InvalidTerms);
    }
    store.record = Some(
        State {
            owner: sender,
            expiration_date: msg.expiration_date,
            putcall: msg.putcall,
            buysell: msg.buysell,
            strike_price: msg.strike_price,
            quantity: msg.quantity,
            liquidity: msg.liq_pool,
            sent: funds,
            conv_coin: msg.conv_coin,
            opt_coin: msg.opt_coin,
        },
    );
    Ok(Response { transfers: Vec::new() })
}

/// Exchange the opening funding legs (see [`open_transfers`]). Reads the
/// record but never changes state; fails with `NotFound` when no option is
/// open and `InvalidPricingInput` when the oracle inputs are unusable.
pub fn try_initoption(store: &OptionStore, spot: u128, vol: u128, rate: u128) -> (r: Result<
    Response,
    ContractError,
>)
    requires
        store.wf(),
    ensures
        store.record is None ==> r == Err::<Response, ContractError>(ContractError::NotFound),
        store.record matches Some(s) && !oracle_ok(s, spot as int, vol as int, rate as int)
            ==> r == Err::<Response, ContractError>(ContractError::InvalidPricingInput),
        store.record matches Some(s) ==> (oracle_ok(s, spot as int, vol as int, rate as int)
            ==> (r matches Ok(resp) && resp.transfers@ == open_transfers(
            s,
            record_fair(s, spot as int, vol as int, rate as int),
        ))),
{
    match &store.record {
        None => Err(ContractError::NotFound),
        Some(s) => {
            let fair = match price(
                spot,
                s.strike_price.amount,
                s.expiration_date,
                vol,
                rate,
                s.putcall,
            ) {
                Ok(v) => v,
                Err(e) => {
                    return Err(e);
                },
            };
            proof {
                assert(fair * s.quantity <= u128::MAX) by (nonlinear_arith)
                    requires
                        fair <= 1_000_000_000_000,
                        s.quantity <= 1_000_000_000,
                        fair >= 0,
                        s.quantity >= 0,
                ;
                assert(s.strike_price.amount * s.quantity <= u128::MAX) by (nonlinear_arith)
                    requires
                        s.strike_price.amount <= 1_000_000_000_000,
                        s.quantity <= 1_000_000_000,
                        s.strike_price.amount >= 0,
                        s.quantity >= 0,
                ;
            }
            let premium: u128 = fair * (s.quantity as u128);
            let mut ts: Vec<Transfer> = Vec::new();
            if s.buysell {
                ts.push(
                    Transfer {
                        from: s.owner.clone(),
                        to: s.liquidity.clone(),
                        amount: premium,
                        denom: s.conv_coin.clone(),
                    },
                );
            } else {
                ts.push(
                    Transfer {
                        from: s.liquidity.clone(),
                        to: s.owner.clone(),
                        amount: premium,
                        denom: s.conv_coin.clone(),
                    },
                );
                if !s.putcall {
                    ts.push(
                        Transfer {
                            from: s.owner.clone(),
                            to: s.liquidity.clone(),
                            amount: s.quantity as u128,
                            denom: s.opt_coin.clone(),
                        },
                    );
                } else {
                    ts.push(
                        Transfer {
                            from: s.owner.clone(),
                            to: s.liquidity.clone(),
                            amount: s.strike_price.amount * (s.quantity as u128),
                            denom: s.conv_coin.clone(),
                        },
                    );
                }
            }
            proof {
                assert(ts@ =~= open_transfers(
                    *s,
                    record_fair(*s, spot as int, vol as int, rate as int),
                ));
            }
            Ok(Response { transfers: ts })
        },
    }
}

/// Settle at or after expiration from intrinsic value (see
/// [`expiry_transfers`]) and delete the record. Premature calls fail with
/// `Unauthorized`; a missing record with `NotFound`; a spot beyond the
/// machine bound [`EXPIRY_SPOT_MAX`] with `InvalidPricingInput`; every
/// failure leaves the store untouched.
pub fn try_expires(store: &mut OptionStore, now: u64, spot: u128) -> (r: Result<
    Response,
    ContractError,
>)
    requires
        old(store).wf(),
    ensures
        final(store).wf(),
        r is Ok <==> expires_accepts(old(store).record, now, spot as int),
        final(store).record == expires_next(old(store).record, now, spot as int),
        old(store).record is None ==> r == Err::<Response, ContractError>(
            ContractError::NotFound,
        ),
        old(store).record matches Some(s) && !expire_timing_ok(s.expiration_date, now) ==> r
            == Err::<Response, ContractError>(ContractError::Unauthorized),
        old(store).record matches Some(s) && expire_timing_ok(s.expiration_date, now) && !spot_ok(
            spot as int,
        ) ==> r == Err::<Response, ContractError>(ContractError::InvalidPricingInput),
        expires_accepts(old(store).record, now, spot as int) ==> (r matches Ok(resp)
            && resp.transfers@ == expiry_transfers(old(store).record->Some_0, spot as int)),
{
    let resp: Response;
    match &store.record {
        None => {
            return Err(ContractError::NotFound);
        },
        Some(s) => {
            if s.expiration_date > now {
                return Err(ContractError::Unauthorized);
            }
            if spot > EXPIRY_SPOT_MAX {
                return Err(ContractError::InvalidPricingInput);
            }
            proof {
                assert((s.quantity as int) * (spot as int) <= u128::MAX && (s.quantity as int) * (
                s.strike_price.amount as int) <= u128::MAX) by (nonlinear_arith)
                    requires
                        s.quantity <= 1_000_000_000,
                        spot <= 300_000_000_000_000_000_000_000_000_000u128,
                        s.strike_price.amount <= 1_000_000_000_000,
                        s.quantity >= 0,
                        spot >= 0,
                        s.strike_price.amount >= 0,
                ;
            }
            let mut ts: Vec<Transfer> = Vec::new();
            let qty = s.quantity as u128;
            let strike = s.strike_price.amount;
            if !s.putcall {
                if !s.buysell {
                    if spot > strike {
                        proof {
                            vstd::arithmetic::mul::lemma_mul_upper_bound(
                                qty as int,
                                1_000_000_000int,
                                (spot - strike) as int,
                                300_000_000_000_000_000_000_000_000_000int,
                            );
                        }
                        ts.push(
                            Transfer {
                                from: s.liquidity.clone(),
                                to: s.owner.clone(),
                                amount: qty * (spot - strike),
                                denom: s.conv_coin.clone(),
                            },
                        );
                    }
                } else {
                    if spot > strike {
                        ts.push(
                            Transfer {
                                from: s.liquidity.clone(),
                                to: s.owner.clone(),
                                amount: qty * spot,
                                denom: s.conv_coin.clone(),
                            },
                        );
                    } else {
                        ts.push(
                            Transfer {
                                from: s.liquidity.clone(),
                                to: s.owner.clone(),
                                amount: qty,
                                denom: s.opt_coin.clone(),
                            },
                        );
                    }
                }
            } else {
                if !s.buysell {
                    if spot < strike {
                        proof {
                            vstd::arithmetic::mul::lemma_mul_upper_bound(
                                qty as int,
                                1_000_000_000int,
                                (strike - spot) as int,
                                1_000_000_000_000int,
                            );
                        }
                        ts.push(
                            Transfer {
                                from: s.liquidity.clone(),
                                to: s.owner.clone(),
                                amount: qty * (strike - spot),
                                denom: s.conv_coin.clone(),
                            },
                        );
                    }
                } else {
                    if spot < strike {
                        ts.push(
                            Transfer {
                                from: s.liquidity.clone(),
                                to: s.owner.clone(),
                                amount: qty,
                                denom: s.opt_coin.clone(),
                            },
                        );
                    } else {
                        ts.push(
                            Transfer {
                                from: s.liquidity.clone(),
                                to: s.owner.clone(),
                                amount: qty * strike,
                                denom: s.conv_coin.clone(),
                            },
                        );
                    }
                }
            }
            proof {
                assert(ts@ =~= expiry_transfers(*s, spot as int));
            }
            resp = Response { transfers: ts };
        },
    }
    store.record = None;
    Ok(resp)
}

/// Unwind the position before expiration at the model fair value (see
/// [`sale_transfers`]) and delete the record. Only the owner may sell, and
/// only strictly before expiration; every failure leaves the store untouched.
pub fn try_selloption(
    store: &mut OptionStore,
    sender: String,
    now: u64,
    spot: u128,
    vol: u128,
    rate: u128,
) -> (r: Result<Response, ContractError>)
    requires
        old(store).wf(),
    ensures
        final(store).wf(),
        r is Ok <==> sale_accepts(
            old(store).record,
            sender@,
            now,
            spot as int,
            vol as int,
            rate as int,
        ),
        final(store).record == sale_next(
            old(store).record,
            sender@,
            now,
            spot as int,
            vol as int,
            rate as int,
        ),
        old(store).record is None ==> r == Err::<Response, ContractError>(
            ContractError::NotFound,
        ),
        old(store).record matches Some(s) && sender@ != s.owner@ ==> r == Err::<
            Response,
            ContractError,
        >(ContractError::Unauthorized),
        old(store).record matches Some(s) && sender@ == s.owner@ && !sale_timing_ok(
            s.expiration_date,
            now,
        ) ==> r == Err::<Response, ContractError>(ContractError::Unauthorized),
        old(store).record matches Some(s) && sender@ == s.owner@ && sale_timing_ok(
            s.expiration_date,
            now,
        ) && !oracle_ok(s, spot as int, vol as int, rate as int) ==> r == Err::<
            Response,
            ContractError,
        >(ContractError::InvalidPricingInput),
        sale_accepts(old(store).record, sender@, now, spot as int, vol as int, rate as int)
            ==> (r matches Ok(resp) && resp.transfers@ == sale_transfers(
            old(store).record->Some_0,
            record_fair(old(store).record->Some_0, spot as int, vol as int, rate as int),
        )),
{
    let resp: Response;
    match &store.record {
        None => {
            return Err(ContractError::NotFound);
        },
        Some(s) => {
            if !(sender == s.owner) {
                return Err(ContractError::Unauthorized);
            }
            if s.expiration_date <= now {
                return Err(ContractError::Unauthorized);
            }
            let fair = match price(
                spot,
                s.strike_price.amount,
                s.expiration_date,
                vol,
                rate,
                s.putcall,
            ) {
                Ok(v) => v,
                Err(e) => {
                    return Err(e);
                },
            };
            proof {
                assert(fair * s.quantity <= u128::MAX) by (nonlinear_arith)
                    requires
                        fair <= 1_000_000_000_000,
                        s.quantity <= 1_000_000_000,
                        fair >= 0,
                        s.quantity >= 0,
                ;
            }
            let premium: u128 = fair * (s.quantity as u128);
            let mut ts: Vec<Transfer> = Vec::new();
            if !s.buysell {
                ts.push(
                    Transfer {
                        from: s.liquidity.clone(),
                        to: s.owner.clone(),
                        amount: premium,
                        denom: s.conv_coin.clone(),
                    },
                );
            } else {
                ts.push(
                    Transfer {
                        from: s.owner.clone(),
                        to: s.liquidity.clone(),
                        amount: premium,
                        denom: s.conv_coin.clone(),
                    },
                );
                ts.push(
                    Transfer {
                        from: s.liquidity.clone(),
                        to: s.owner.clone(),
                        amount: s.quantity as u128,
                        denom: s.opt_coin.clone(),
                    },
                );
            }
            proof {
                assert(ts@ =~= sale_transfers(
                    *s,
                    record_fair(*s, spot as int, vol as int, rate as int),
                ));
            }
            resp = Response { transfers: ts };
        },
    }
    store.record = None;
    Ok(resp)
}

/// Dispatch one transition request against the store.
pub fn execute(
    store: &mut OptionStore,
    now: u64,
    sender: String,
    msg: ExecuteMsg,
    spot: u128,
    vol: u128,
    rate: u128,
) -> (r: Result<Response, ContractError>)
    requires
        old(store).wf(),
    ensures
        final(store).wf(),
        msg matches ExecuteMsg::InitOption { .. } ==> {
            &&& *final(store) == *old(store)
            &&& (old(store).record is None ==> r == Err::<Response, ContractError>(
                ContractError::NotFound,
            ))
            &&& (old(store).record matches Some(s) ==> (oracle_ok(
                s,
                spot as int,
                vol as int,
                rate as int,
            ) ==> (r matches Ok(resp) && resp.transfers@ == open_transfers(
                s,
                record_fair(s, spot as int, vol as int, rate as int),
            ))))
            &&& (old(store).record matches Some(s) ==> (!oracle_ok(
                s,
                spot as int,
                vol as int,
                rate as int,
            ) ==> r == Err::<Response, ContractError>(ContractError::InvalidPricingInput)))
        },
        msg matches ExecuteMsg::Expires { .. } ==> {
            &&& (r is Ok <==> expires_accepts(old(store).record, now, spot as int))
            &&& final(store).record == expires_next(old(store).record, now, spot as int)
            &&& (expires_accepts(old(store).record, now, spot as int) ==> (r matches Ok(resp)
                && resp.transfers@ == expiry_transfers(old(store).record->Some_0, spot as int)))
            &&& (old(store).record is None ==> r == Err::<Response, ContractError>(
                ContractError::NotFound,
            ))
            &&& (old(store).record matches Some(s) && !expire_timing_ok(s.expiration_date, now)
                ==> r == Err::<Response, ContractError>(ContractError::Unauthorized))
            &&& (old(store).record matches Some(s) && expire_timing_ok(s.expiration_date, now)
                && !spot_ok(spot as int) ==> r == Err::<Response, ContractError>(
                ContractError::InvalidPricingInput,
            ))
        },
        msg matches ExecuteMsg::SellOption { .. } ==> {
            &&& (r is Ok <==> sale_accepts(
                old(store).record,
                sender@,
                now,
                spot as int,
                vol as int,
                rate as int,
            ))
            &&& final(store).record == sale_next(
                old(store).record,
                sender@,
                now,
                spot as int,
                vol as int,
                rate as int,
            )
            &&& (sale_accepts(old(store).record, sender@, now, spot as int, vol as int, rate as int)
                ==> (r matches Ok(resp) && resp.transfers@ == sale_transfers(
                old(store).record->Some_0,
                record_fair(old(store).record->Some_0, spot as int, vol as int, rate as int),
            )))
            &&& (old(store).record is None ==> r == Err::<Response, ContractError>(
                ContractError::NotFound,
            ))
            &&& (old(store).record matches Some(s) && sender@ != s.owner@ ==> r == Err::<
                Response,
                ContractError,
            >(ContractError::Unauthorized))
            &&& (old(store).record matches Some(s) && sender@ == s.owner@ && !sale_timing_ok(
                s.expiration_date,
                now,
            ) ==> r == Err::<Response, ContractError>(ContractError::Unauthorized))
            &&& (old(store).record matches Some(s) && sender@ == s.owner@ && sale_timing_ok(
                s.expiration_date,
                now,
            ) && !oracle_ok(s, spot as int, vol as int, rate as int) ==> r == Err::<
                Response,
                ContractError,
            >(ContractError::InvalidPricingInput))
        },
{
    match msg {
        ExecuteMsg::InitOption { recipient: _ } => try_initoption(store, spot, vol, rate),
        ExecuteMsg::Expires {  } => try_expires(store, now, spot),
        ExecuteMsg::SellOption { owner: _ } => try_selloption(store, sender, now, spot, vol, rate),
    }
}

/// Read the terms of the currently open option.
pub fn query(store: &OptionStore, msg: QueryMsg) -> (r: Result<&State, ContractError>)
    ensures
        store.record matches Some(s) ==> (r matches Ok(v) && *v == s),
        store.record is None ==> r == Err::<&State, ContractError>(ContractError::NotFound),
{
    match msg {
        QueryMsg::Config {  } => match &store.record {
            Some(s) => Ok(s),
            None => Err(ContractError::NotFound),
        },
    }
}

/// Net change, in minor units of `denom`, that the transfer list causes in
/// `party`'s balance: incoming amounts count positive, outgoing negative.
pub open spec fn net_flow(ts: Seq<Transfer>, party: Seq<char>, denom: Seq<char>) -> int
    decreases ts.len(),
{
    if ts.len() == 0 {
        0
    } else {
        let t = ts.first();
        let head: int = if t.denom@ == denom {
            (if t.to@ == party {
                t.amount as int
            } else {
                0
            }) - (if t.from@ == party {
                t.amount as int
            } else {
                0
            })
        } else {
            0
        };
        head + net_flow(ts.drop_first(), party, denom)
    }
}

/// Every transfer in the list moves funds between the two named parties.
pub open spec fn between_parties(ts: Seq<Transfer>, a: Seq<char>, b: Seq<char>) -> bool {
    forall|i: int|
        0 <= i < ts.len() ==> ((#[trigger] ts[i]).from@ == a && ts[i].to@ == b) || (ts[i].from@
            == b && ts[i].to@ == a)
}

/// Conservation: over any transfer list between two parties, whatever leaves
/// one party enters the other, currency by currency — no leg creates or
/// destroys funds.
pub proof fn lemma_conservation(ts: Seq<Transfer>, a: Seq<char>, b: Seq<char>, denom: Seq<char>)
    requires
        between_parties(ts, a, b),
    ensures
        net_flow(ts, a, denom) + net_flow(ts, b, denom) == 0,
    decreases ts.len(),
{
    if ts.len() > 0 {
        assert(between_parties(ts.drop_first(), a, b)) by {
            assert(forall|i: int|
                0 <= i < ts.drop_first().len() ==> ts.drop_first()[i] == ts[i + 1]);
        }
        lemma_conservation(ts.drop_first(), a, b, denom);
    }
}

/// Every transition's transfers run between the record's owner and its
/// liquidity pool, so conservation holds of all three settlement tables.
pub proof fn lemma_transfers_between(s: State, fair: int, spot: int)
    ensures
        between_parties(open_transfers(s, fair), s.owner@, s.liquidity@),
        between_parties(sale_transfers(s, fair), s.owner@, s.liquidity@),
        between_parties(expiry_transfers(s, spot), s.owner@, s.liquidity@),
{
}

/// Conservation law, stated for each settlement table: the owner's net change
/// and the pool's net change cancel exactly, in every currency.
pub proof fn lemma_settlement_conserves(s: State, fair: int, spot: int, denom: Seq<char>)
    ensures
        net_flow(open_transfers(s, fair), s.owner@, denom) + net_flow(
            open_transfers(s, fair),
            s.liquidity@,
            denom,
        ) == 0,
        net_flow(sale_transfers(s, fair), s.owner@, denom) + net_flow(
            sale_transfers(s, fair),
            s.liquidity@,
            denom,
        ) == 0,
        net_flow(expiry_transfers(s, spot), s.owner@, denom) + net_flow(
            expiry_transfers(s, spot),
            s.liquidity@,
            denom,
        ) == 0,
{
    lemma_transfers_between(s, fair, spot);
    lemma_conservation(open_transfers(s, fair), s.owner@, s.liquidity@, denom);
    lemma_conservation(sale_transfers(s, fair), s.owner@, s.liquidity@, denom);
    lemma_conservation(expiry_transfers(s, spot), s.owner@, s.liquidity@, denom);
}

/// Timing gate law: for any current period, exactly one of early sale and
/// expiry settlement is timing-eligible — never both, never neither.
pub proof fn lemma_timing_gate(expiration: u64, now: u64)
    ensures
        sale_timing_ok(expiration, now) <==> !expire_timing_ok(expiration, now),
{
}

/// Terminal exclusivity, expiry first: once expiry settlement succeeds the
/// record is gone, and on the emptied store both terminal transitions are
/// refused (the exec functions then return `NotFound`).
pub proof fn lemma_expire_terminal(
    rec: Option<State>,
    now: u64,
    spot: int,
    now2: u64,
    spot2: int,
    sender2: Seq<char>,
    vol2: int,
    rate2: int,
)
    requires
        expires_accepts(rec, now, spot),
    ensures
        expires_next(rec, now, spot) is None,
        !expires_accepts(expires_next(rec, now, spot), now2, spot2),
        !sale_accepts(expires_next(rec, now, spot), sender2, now2, spot2, vol2, rate2),
{
}

/// Terminal exclusivity, early sale first: once an early sale succeeds the
/// record is gone, and on the emptied store both terminal transitions are
/// refused (the exec functions then return `NotFound`).
pub proof fn lemma_sale_terminal(
    rec: Option<State>,
    sender: Seq<char>,
    now: u64,
    spot: int,
    vol: int,
    rate: int,
    now2: u64,
    spot2: int,
    sender2: Seq<char>,
    vol2: int,
    rate2: int,
)
    requires
        sale_accepts(rec, sender, now, spot, vol, rate),
    ensures
        sale_next(rec, sender, now, spot, vol, rate) is None,
        !expires_accepts(sale_next(rec, sender, now, spot, vol, rate), now2, spot2),
        !sale_accepts(
            sale_next(rec, sender, now, spot, vol, rate),
            sender2,
            now2,
            spot2,
            vol2,
            rate2,
        ),
{
}

/// Put–call parity at the record level: two records with the same strike and
/// expiration, one a call and one a put, settle per unit at fair values that
/// differ by `spot` minus the discounted strike, to within one minor unit;
/// the total premiums of [`open_transfers`] therefore differ by `quantity`
/// times that, to within `quantity` minor units.
pub proof fn lemma_record_parity(s_call: State, s_put: State, spot: int, vol: int, rate: int)
    requires
        !s_call.putcall,
        s_put.putcall,
        s_put.strike_price.amount == s_call.strike_price.amount,
        s_put.expiration_date == s_call.expiration_date,
        oracle_ok(s_call, spot, vol, rate),
    ensures
        record_fair(s_call, spot, vol, rate) - record_fair(s_put, spot, vol, rate) - (spot
            - spec_dk(
            s_call.strike_price.amount as int,
            s_call.expiration_date as int,
            rate,
        )) <= 1,
        -1 <= record_fair(s_call, spot, vol, rate) - record_fair(s_put, spot, vol, rate) - (spot
            - spec_dk(
            s_call.strike_price.amount as int,
            s_call.expiration_date as int,
            rate,
        )),
{
    lemma_settled_parity(
        spot,
        s_call.strike_price.amount as int,
        s_call.expiration_date as int,
        vol,
        rate,
    );
}

/// Moneyness boundary law: when the spot lands exactly on the strike, a long
/// call and a long put both expire worthless — no transfer at all.
pub proof fn lemma_moneyness_boundary(s: State, spot: int)
    requires
        !s.buysell,
        spot == s.strike_price.amount as int,
    ensures
        expiry_transfers(s, spot).len() == 0,
{
}

} // verus!

