use vstd::prelude::*;
use crate::balance::TokenBalance;
use crate::config::AccountConfig;
use crate::instrument::Exchange;
use crate::order::{Cancelled, FullyFill, Open, Order, PartialFill};
use crate::positions::AccountPositions;
use crate::trade::ClientTrade;

verus! {

/// Something that happened to the account, as the exchange reports it.
#[derive(Clone, Debug)]
pub struct AccountEvent {
    pub exchange_timestamp: i64,
    pub exchange: Exchange,
    pub kind: AccountEventKind,
}

/// The kinds of [`AccountEvent`].
#[derive(Clone, Debug)]
pub enum AccountEventKind {
    OrdersOpen(Vec<Order<Open>>),
    OrdersNew(Vec<Order<Open>>),
    OrdersCancelled(Vec<Order<Cancelled>>),
    OrdersFilled(Vec<Order<FullyFill>>),
    OrdersPartiallyFilled(Vec<Order<PartialFill>>),
    Balance(TokenBalance),
    Trade(ClientTrade),
    Balances(Vec<TokenBalance>),
    Positions(AccountPositions),
    AccountConfig(AccountConfig),
}

impl AccountEventKind {
    /// The variant's name.
    pub fn name(&self) -> &'static str {
        match self {
            AccountEventKind::OrdersOpen(_) => "OrdersOpen",
            AccountEventKind::OrdersNew(_) => "OrdersNew",
            AccountEventKind::OrdersCancelled(_) => "OrdersCancelled",
            AccountEventKind::OrdersFilled(_) => "OrdersFilled",
            AccountEventKind::OrdersPartiallyFilled(_) => "OrdersPartiallyFilled",
            AccountEventKind::Balance(_) => "Balance",
            AccountEventKind::Trade(_) => "Trade",
            AccountEventKind::Balances(_) => "Balances",
            AccountEventKind::Positions(_) => "Positions",
            AccountEventKind::AccountConfig(_) => "AccountConfig",
        }
    }
}

} // verus!
