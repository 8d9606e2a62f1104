use vstd::prelude::*;
use crate::account::Account;
use crate::ledger::total_in;
use crate::matching::{lemma_cancel_chain_floor, lemma_open_chain_floor, cancel_chain, fill_event_matches, lists_id, match_effect, open_chain};
use crate::order::OrderId;
use crate::settlement::Fill;
use crate::balance::TokenBalance;
use crate::error::ExchangeError;
use crate::event::AccountEvent;
use crate::instrument::Instrument;
use crate::order::{Cancelled, Open, Order, RequestCancel, RequestOpen};
use crate::trade::PublicTrade;

verus! {

/// A request to the simulated exchange: from the client, or a trade of the market.
#[derive(Debug)]
pub enum ExchangeRequest {
    FetchOrdersOpen,
    FetchBalances,
    OpenOrders(Vec<Order<RequestOpen>>),
    CancelOrders(Vec<Order<RequestCancel>>),
    CancelOrdersAll,
    MarketTrade(Instrument, PublicTrade),
}

/// The exchange's answer to one [`ExchangeRequest`].
#[derive(Debug)]
pub enum ExchangeResponse {
    OrdersOpen(Vec<Order<Open>>),
    Balances(Vec<TokenBalance>),
    OpenOrders(Vec<Result<Order<Open>, ExchangeError>>),
    CancelOrders(Vec<Result<Order<Cancelled>, ExchangeError>>),
    CancelOrdersAll(Vec<Order<Cancelled>>),
    MarketTrade(Vec<AccountEvent>),
}

/// The simulated exchange: one account, served one request at a time.
#[derive(Debug)]
pub struct SimulatedExchange {
    pub account: Account,
}

impl SimulatedExchange {
    pub fn new(account: Account) -> (r: SimulatedExchange)
        ensures
            r.account == account,
    {
        SimulatedExchange { account }
    }

    /// The exchange clock in milliseconds: the last market time seen, never below zero.
    pub open spec fn clock(&self) -> u64 {
        if self.account.exchange_timestamp < 0 { 0 } else { self.account.exchange_timestamp as u64 }
    }

    /// Serves one request to completion. New orders take their ids at the
    /// exchange clock, request by request as `open_order` does; cancels go id
    /// by id as `cancel_order` does; a market trade is matched against the
    /// books as `match_orders` does (moving the clock to its time) and gives
    /// one event per fill.
    pub fn handle(&mut self, request: ExchangeRequest) -> (r: ExchangeResponse)
        requires
            old(self).account.wf(),
        ensures
            final(self).account.wf(),
            final(self).account.config == old(self).account.config,
            final(self).account.orders.id_floor() >= old(self).account.orders.id_floor(),
            request is FetchOrdersOpen ==> (r matches ExchangeResponse::OrdersOpen(v)
                && forall|id: OrderId| #[trigger] lists_id(v@, id) <==> old(self).account.has_order(id))
                && final(self).account == old(self).account,
            request is FetchBalances ==> (r matches ExchangeResponse::Balances(v)
                && v@.len() == old(self).account.balances@.len()
                && forall|i: int| 0 <= i < v@.len() ==> #[trigger] v@[i] == old(self).account.balances@[i])
                && final(self).account == old(self).account,
            request matches ExchangeRequest::OpenOrders(v) ==> (r matches ExchangeResponse::OpenOrders(w)
                && w@.len() == v@.len()
                && exists|states: Seq<Account>| #[trigger] open_chain(states, old(self).account, final(self).account,
                    v@, old(self).clock(), w@)),
            request matches ExchangeRequest::CancelOrders(v) ==> (r matches ExchangeResponse::CancelOrders(w)
                && w@.len() == v@.len()
                && exists|states: Seq<Account>| #[trigger] cancel_chain(states, old(self).account, final(self).account, v@, w@)),
            request is CancelOrdersAll ==> r is CancelOrdersAll
                && (forall|id| !#[trigger] final(self).account.has_order(id))
                && forall|t: Seq<char>| #[trigger] total_in(final(self).account.balances@, t) == total_in(old(self).account.balances@, t),
            request matches ExchangeRequest::MarketTrade(instrument, t) ==> (r matches ExchangeResponse::MarketTrade(ev)
                && exists|fills: Seq<Fill>| #[trigger] market_reply(old(self).account, instrument, t, fills, ev@, final(self).account)),
    {
        let ghost pre = self.account;
        match request {
            ExchangeRequest::FetchOrdersOpen => {
                let open = self.account.fetch_orders_open();
                proof {
                    pre.lemma_same_wf(self.account);
                    assert forall|id: OrderId| #[trigger] lists_id(open@, id) <==> pre.has_order(id) by {
                        assert(lists_id(open@, id) <==> self.account.has_order(id));
                    }
                }
                ExchangeResponse::OrdersOpen(open)
            },
            ExchangeRequest::FetchBalances => {
                let balances = self.account.fetch_balances();
                proof {
                    pre.lemma_same_wf(self.account);
                }
                ExchangeResponse::Balances(balances)
            },
            ExchangeRequest::OpenOrders(requests) => {
                let now: u64 = if self.account.exchange_timestamp < 0 { 0 } else { self.account.exchange_timestamp as u64 };
                let ghost reqs = requests@;
                let ghost clock = old(self).clock();
                let res = self.account.open_orders(requests, now);
                proof {
                    assert(now == clock);
                    let states = choose|states: Seq<Account>| open_chain(states, pre, self.account, reqs, now, res@);
                    assert(open_chain(states, pre, self.account, reqs, clock, res@));
                    lemma_open_chain_floor(states, pre, self.account, reqs, now, res@, 0, reqs.len() as int);
                }
                ExchangeResponse::OpenOrders(res)
            },
            ExchangeRequest::CancelOrders(requests) => {
                let res = self.account.cancel_orders(&requests);
                proof {
                    let states = choose|states: Seq<Account>| cancel_chain(states, pre, self.account, requests@, res@);
                    assert(cancel_chain(states, pre, self.account, requests@, res@));
                    lemma_cancel_chain_floor(states, pre, self.account, requests@, res@, requests@.len() as int);
                }
                ExchangeResponse::CancelOrders(res)
            },
            ExchangeRequest::CancelOrdersAll => {
                let res = self.account.cancel_orders_all();
                proof {
                    assert(forall|t: Seq<char>| #[trigger] total_in(self.account.balances@, t) == total_in(pre.balances@, t));
                }
                ExchangeResponse::CancelOrdersAll(res)
            },
            ExchangeRequest::MarketTrade(instrument, trade) => {
                let fills = self.account.match_orders(&instrument, &trade);
                let events = Account::fill_events(&fills, trade.timestamp);
                proof {
                    assert(market_reply(pre, instrument, trade, fills@, events@, self.account));
                    assert(exists|f: Seq<Fill>| #[trigger] market_reply(pre, instrument, trade, f, events@, self.account));
                }
                let r = ExchangeResponse::MarketTrade(events);
                proof {
                    assert(r matches ExchangeResponse::MarketTrade(ev) && ev@ == events@);
                }
                r
            },
        }
    }
}

/// Gathers the parts of a simulated exchange: the receiver of its requests
/// (of whatever channel type the caller runs it on) and its account.
#[derive(Debug)]
pub struct ExchangeBuilder<R> {
    pub event_simulated_rx: Option<R>,
    pub account: Option<Account>,
}

impl<R> ExchangeBuilder<R> {
    /// A builder with no part yet.
    pub fn new() -> (r: ExchangeBuilder<R>)
        ensures
            r.event_simulated_rx is None,
            r.account is None,
    {
        ExchangeBuilder { event_simulated_rx: None, account: None }
    }

    pub fn event_simulated_rx(self, value: R) -> (r: ExchangeBuilder<R>)
        ensures
            r.event_simulated_rx == Some(value),
            r.account == self.account,
    {
        ExchangeBuilder { event_simulated_rx: Some(value), account: self.account }
    }

    pub fn account(self, value: Account) -> (r: ExchangeBuilder<R>)
        ensures
            r.event_simulated_rx == self.event_simulated_rx,
            r.account == Some(value),
    {
        ExchangeBuilder { event_simulated_rx: self.event_simulated_rx, account: Some(value) }
    }

    /// The exchange and its receiver, or `BuilderIncomplete` naming the first
    /// missing part (the receiver, then the account).
    pub fn build(self) -> (r: Result<(SimulatedExchange, R), ExchangeError>)
        ensures
            self.event_simulated_rx is None ==> (r matches Err(ExchangeError::BuilderIncomplete(m))
                && m@ == "event_simulated_rx"@),
            self.event_simulated_rx is Some && self.account is None ==> (r matches Err(ExchangeError::BuilderIncomplete(m))
                && m@ == "account"@),
            self.event_simulated_rx is Some && self.account is Some ==> (r matches Ok(p)
                && Some(p.1) == self.event_simulated_rx && Some(p.0.account) == self.account),
    {
        match self.event_simulated_rx {
            None => Err(ExchangeError::BuilderIncomplete(String::from_str("event_simulated_rx"))),
            Some(rx) => match self.account {
                None => Err(ExchangeError::BuilderIncomplete(String::from_str("account"))),
                Some(account) => Ok((SimulatedExchange { account }, rx)),
            },
        }
    }
}

/// What a market trade does at the exchange: the account moves as
/// `match_orders` says, and each event reports its fill, in order.
pub open spec fn market_reply(a0: Account, instrument: Instrument, trade: PublicTrade, fills: Seq<Fill>,
    events: Seq<AccountEvent>, a1: Account) -> bool {
    &&& match_effect(a0, instrument, trade, fills, a1)
    &&& events.len() == fills.len()
    &&& forall|k: int| 0 <= k < fills.len() ==> #[trigger] fill_event_matches(events[k], fills[k])
}

} // verus!
