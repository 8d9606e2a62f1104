use vstd::prelude::*;
use crate::order::OrderId;

verus! {

/// What an account operation can fail with.
#[derive(Clone, Debug, PartialEq, Eq)]
pub enum ExchangeError {
    /// A reservation would drive an available amount below zero.
    InsufficientBalance,
    /// A malformed or unfillable order request.
    InvalidRequest,
    /// A cancel that names no resting order.
    OrderNotFound(OrderId),
    /// An exchange built without one of its parts, named here.
    BuilderIncomplete(String),
    /// An instrument kind for which the engine keeps no orders or positions.
    UnsupportedInstrument,
    /// A failure of the trade store, with the query that failed.
    StoreError(String),
}

} // verus!
