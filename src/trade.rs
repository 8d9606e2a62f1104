use vstd::prelude::*;
use crate::instrument::{Instrument, Side};

verus! {

/// A trade on the public market, as replayed from the store.
#[derive(Copy, Clone, Debug, PartialEq, Eq, Structural)]
pub struct PublicTrade {
    pub side: Side,
    pub price: u64,
    pub amount: u64,
    pub timestamp: i64,
}

/// The settlement record of one fill of one of the account's orders.
#[derive(Clone, Debug, PartialEq, Eq)]
pub struct ClientTrade {
    pub instrument: Instrument,
    pub side: Side,
    pub price: u64,
    pub quantity: u64,
    pub fees: i64,
    pub timestamp: i64,
}

} // verus!
