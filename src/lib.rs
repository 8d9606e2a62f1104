//! A simulated derivatives exchange: balances, open-order books, leveraged
//! positions, a matching engine driven by replayed public trades, and the
//! naming and paging rules of the historical trade store.
//!
//! Every amount is an integer in the smallest unit that the caller picks for
//! each token: a size counts lots of the base token, a price counts quote units
//! per lot, so a notional `price * size` is exact. Buying holds back
//! `price * size / leverage` of the quote token and selling holds back `size`
//! of the base token; a fill turns the consumed part of that into position
//! margin, and a cancel returns the rest. For every token the account keeps
//! `total == available + held by resting orders + position margin`.

pub mod account;
pub mod balance;
pub mod book;
pub mod config;
pub mod error;
pub mod event;
pub mod exchange;
pub mod history;
pub mod instrument;
pub mod latency;
pub mod ledger;
pub mod matching;
pub mod order;
pub mod positions;
pub mod settlement;
pub mod sums;
pub mod test_utils;
pub mod text;
pub mod trade;
pub mod ws_trade;
