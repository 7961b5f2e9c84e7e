//! A single-round binary wagering ledger.
//!
//! Participants each place one bet on a binary outcome (`Big` or `Small`),
//! an operator reveals the winning outcome, winners are owed their stake
//! plus a fixed percentage bonus, and the operator resets the round.
//! All ledger state lives in [`round::SimpleTaiXiu`]; the host environment
//! (caller identity, attached deposits, clocks, value transfers) stays
//! outside and hands plain values in.

pub mod laws;
pub mod round;

pub use round::{
    Bet, BetError, BetItem, SimpleTaiXiu, MAX_BET_AMOUNT, MIN_BET_AMOUNT, PAYOUT_PERCENT,
};
