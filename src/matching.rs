//! Opening, matching and cancelling orders against the books.

use vstd::prelude::*;
use crate::account::{Account, AccountOrders, cancel_effect, in_book, in_side, lemma_open_then_cancel};
use crate::balance::TokenBalance;
use crate::book::{OrderBook, holds_id, ranks_before, resting_ok};
use crate::config::{AccountConfig, PPM};
use crate::error::ExchangeError;
use crate::event::{AccountEvent, AccountEventKind};
use crate::instrument::{Exchange, Instrument, InstrumentKind, Side};
use crate::latency::AccountLatency;
use crate::ledger::{available_in, lemma_balance_update, lemma_books_count, reserve_token, total_in, unique_tokens};
use crate::order::{Cancelled, RequestCancel, FullyFill, MACHINE_SPAN, MAX_PRICE, MAX_SIZE, Open, Order, OrderId, OrderKind, OrderRole, PartialFill, RequestOpen, in_range, required_amount, required_of};
use crate::positions::{AccountPositions, PerpetualPosition};
use crate::settlement::{Fill, commission, side_token};
use crate::sums::{lemma_sum_ext, lemma_sum_push, lemma_sum_remove, lemma_sum_update, seq_sum};
use crate::trade::PublicTrade;

verus! {

/// Whether a resting order at `price` is marketable against an incoming
/// order or trade of side `incoming` with price `limit` (none: any price).
/// An incoming buy lifts asks at or below its price; a sell hits bids at or above it.
pub open spec fn crosses(incoming: Side, limit: Option<u64>, price: u64) -> bool {
    match limit {
        None => true,
        Some(l) => match incoming {
            Side::Buy => l >= price,
            Side::Sell => l <= price,
        },
    }
}

/// The remaining quantity of the orders of `s` that are marketable against the incoming side and limit.
pub open spec fn depth(s: Seq<Order<Open>>, incoming: Side, limit: Option<u64>) -> int {
    seq_sum(s, |o: Order<Open>| if crosses(incoming, limit, o.state.price) { o.state.remaining() } else { 0int })
}

pub fn crosses_exec(incoming: Side, limit: Option<u64>, price: u64) -> (r: bool)
    ensures
        r == crosses(incoming, limit, price),
{
    match limit {
        None => true,
        Some(l) => match incoming {
            Side::Buy => l >= price,
            Side::Sell => l <= price,
        },
    }
}

/// On a sorted side, when the best order is not marketable no order is, and nothing is.
pub(crate) proof fn lemma_no_depth(s: Seq<Order<Open>>, incoming: Side, limit: Option<u64>)
    requires
        crate::book::sorted(s, incoming.flip()),
        s.len() == 0 || !crosses(incoming, limit, s[0].state.price),
    ensures
        depth(s, incoming, limit) == 0,
{
    let f = |o: Order<Open>| if crosses(incoming, limit, o.state.price) { o.state.remaining() } else { 0int };
    let zero = |o: Order<Open>| 0int;
    assert forall|i: int| 0 <= i < s.len() implies f(#[trigger] s[i]) == zero(s[i]) by {
        if i > 0 {
            assert(!ranks_before(s[i].state, s[0].state, incoming.flip()));
        }
    }
    lemma_sum_ext(s, f, zero);
    crate::ledger::lemma_sum_zero(s);
}

impl Account {
    /// Walks the side of book `j` opposite to `incoming`, filling resting
    /// orders while they are marketable against `limit` and `amount` lasts.
    /// Returns the fills, in order; their quantities add up to
    /// `min(amount, depth)`, the marketable depth there was.
    pub fn match_incoming(&mut self, j: usize, incoming: Side, limit: Option<u64>, amount: u64, ts: i64)
        -> (r: (Vec<Fill>, u64))
        requires
            old(self).wf(),
            j < old(self).orders.books@.len(),
        ensures
            final(self).wf(),
            final(self).config == old(self).config,
            final(self).orders.id_floor() == old(self).orders.id_floor(),
            final(self).orders.books@.len() == old(self).orders.books@.len(),
            final(self).orders.books@[j as int].instrument == old(self).orders.books@[j as int].instrument,
            forall|i: int| 0 <= i < old(self).orders.books@.len() && i != j ==>
                #[trigger] final(self).orders.books@[i] == old(self).orders.books@[i],
            final(self).orders.books@[j as int].side_seq(incoming) == old(self).orders.books@[j as int].side_seq(incoming),
            r.1 <= amount,
            r.1 == amount || r.1 == depth(old(self).orders.books@[j as int].side_seq(incoming.flip()), incoming, limit),
            r.1 <= depth(old(self).orders.books@[j as int].side_seq(incoming.flip()), incoming, limit),
            forall|k: int| 0 <= k < r.0@.len() ==> crosses(incoming, limit, (#[trigger] r.0@[k]).order.state.price)
                && r.0@[k].order.side == incoming.flip() && r.0@[k].quantity > 0
                && r.0@[k].order.state.filled_quantity <= r.0@[k].order.state.size
                && (r.0@[k].full <==> r.0@[k].order.state.filled_quantity == r.0@[k].order.state.size),
            forall|k: int| 0 <= k < r.0@.len() && (#[trigger] r.0@[k]).full ==> !final(self).has_order(r.0@[k].order.state.id),
            forall|x: OrderId| #[trigger] final(self).order_count(x) <= old(self).order_count(x),
            seq_sum(r.0@, |f: Fill| f.quantity as int) == r.1,
            forall|k: int| 0 <= k < r.0@.len() ==> 0 <= (#[trigger] r.0@[k]).fee <= commission(r.0@[k].order.state.price as int,
                r.0@[k].quantity as int, old(self).config.rate(r.0@[k].order.instrument.kind, OrderRole::Maker)),
            forall|t: Seq<char>| #[trigger] total_in(final(self).balances@, t) == total_in(old(self).balances@, t)
                - fees_in(r.0@, t),
    {
        let ghost pre = *self;
        let ghost side = incoming.flip();
        let ghost d0 = depth(pre.orders.books@[j as int].side_seq(side), incoming, limit);
        let book_side = incoming.opposite();
        let mut fills: Vec<Fill> = Vec::new();
        let mut left = amount;
        proof {
            assert(seq_sum(fills@, |f: Fill| f.quantity as int) == 0);
            assert forall|t: Seq<char>| #[trigger] total_in(self.balances@, t) == total_in(pre.balances@, t) - fees_in(fills@, t) by {
                assert(fees_in(fills@, t) == 0);
            }
        }
        loop
            invariant
                self.wf(),
                self.config == pre.config,
                self.orders.id_floor() == pre.orders.id_floor(),
                self.orders.books@.len() == pre.orders.books@.len(),
                j < self.orders.books@.len(),
                side == incoming.flip(),
                book_side == side,
                self.orders.books@[j as int].instrument == pre.orders.books@[j as int].instrument,
                forall|i: int| 0 <= i < pre.orders.books@.len() && i != j ==>
                    #[trigger] self.orders.books@[i] == pre.orders.books@[i],
                self.orders.books@[j as int].side_seq(incoming) == pre.orders.books@[j as int].side_seq(incoming),
                left <= amount,
                (amount - left) + depth(self.orders.books@[j as int].side_seq(side), incoming, limit) == d0,
                forall|k: int| 0 <= k < fills@.len() ==> crosses(incoming, limit, (#[trigger] fills@[k]).order.state.price)
                    && fills@[k].order.side == side && fills@[k].quantity > 0
                    && fills@[k].order.state.filled_quantity <= fills@[k].order.state.size
                    && (fills@[k].full <==> fills@[k].order.state.filled_quantity == fills@[k].order.state.size),
                forall|k: int| 0 <= k < fills@.len() && (#[trigger] fills@[k]).full ==> !self.has_order(fills@[k].order.state.id),
                forall|x: OrderId| #[trigger] self.order_count(x) <= pre.order_count(x),
                seq_sum(fills@, |f: Fill| f.quantity as int) == amount - left,
                forall|k: int| 0 <= k < fills@.len() ==> 0 <= (#[trigger] fills@[k]).fee <= commission(fills@[k].order.state.price as int,
                    fills@[k].quantity as int, pre.config.rate(fills@[k].order.instrument.kind, OrderRole::Maker)),
                forall|t: Seq<char>| #[trigger] total_in(self.balances@, t) == total_in(pre.balances@, t) - fees_in(fills@, t),
            ensures
                left == 0 || depth(self.orders.books@[j as int].side_seq(side), incoming, limit) == 0,
                (amount - left) + depth(self.orders.books@[j as int].side_seq(side), incoming, limit) == d0,
            decreases left,
        {
            if left == 0 {
                break;
            }
            let ghost cur = *self;
            let ghost s = self.orders.books@[j as int].side_seq(side);
            proof {
                self.orders.books@[j as int].lemma_side_wf(side);
                assert(crate::book::side_wf(s, side, self.orders.books@[j as int].instrument));
                assert(incoming.flip().flip() == incoming) by {
                    match incoming {
                        Side::Buy => {},
                        Side::Sell => {},
                    }
                }
            }
            let n = self.orders.books[j].depth_len(book_side);
            if n == 0 {
                proof {
                    lemma_no_depth(s, incoming, limit);
                }
                break;
            }
            let (price, rem) = {
                let o = self.orders.books[j].order_at(book_side, 0);
                (o.state.price, o.state.size - o.state.filled_quantity)
            };
            if !crosses_exec(incoming, limit, price) {
                proof {
                    assert(crate::book::sorted(s, side));
                    assert(s[0].state.price == price);
                    lemma_no_depth(s, incoming, limit);
                }
                break;
            }
            proof {
                assert(resting_ok(s[0], side, self.orders.books@[j as int].instrument));
            }
            let q = if rem < left { rem } else { left };
            let f = self.fill_best(j, book_side, q, ts);
            proof {
                assert(book_side.flip() == incoming);
                let f0 = |o: Order<Open>| if crosses(incoming, limit, o.state.price) { o.state.remaining() } else { 0int };
                let s1 = self.orders.books@[j as int].side_seq(side);
                if f.full {
                    lemma_sum_remove(s, 0, f0);
                } else {
                    lemma_sum_update(s, 0, f.order, f0);
                }
                assert forall|k: int| 0 <= k < fills@.len() && (#[trigger] fills@[k]).full implies !self.has_order(fills@[k].order.state.id) by {
                    let x = fills@[k].order.state.id;
                    assert(!cur.has_order(x));
                    lemma_books_count(cur.orders.books@, x);
                    lemma_books_count(self.orders.books@, x);
                    assert(self.order_count(x) <= cur.order_count(x));
                }
                assert forall|x: OrderId| #[trigger] self.order_count(x) <= pre.order_count(x) by {
                    assert(self.order_count(x) <= cur.order_count(x));
                }
            }
            proof {
                lemma_sum_push(fills@, f, |f: Fill| f.quantity as int);
                assert forall|t: Seq<char>| #[trigger] total_in(self.balances@, t) == total_in(pre.balances@, t)
                    - fees_in(fills@.push(f), t) by {
                    lemma_sum_push(fills@, f, |g: Fill| if g.order.instrument.quote@ == t { g.fee as int } else { 0int });
                    assert(total_in(cur.balances@, t) == total_in(pre.balances@, t) - fees_in(fills@, t));
                }
            }
            let ghost before_fills = fills@;
            fills.push(f);
            proof {
                assert forall|k: int| 0 <= k < fills@.len() implies 0 <= (#[trigger] fills@[k]).fee <= commission(fills@[k].order.state.price as int,
                    fills@[k].quantity as int, pre.config.rate(fills@[k].order.instrument.kind, OrderRole::Maker)) by {
                    if k < before_fills.len() {
                        assert(fills@[k] == before_fills[k]);
                    }
                }
            }
            left = left - q;
        }
        proof {
            let s_end = self.orders.books@[j as int].side_seq(side);
            self.orders.books@[j as int].lemma_side_wf(side);
            lemma_depth_nonneg(s_end, incoming, limit);
        }
        (fills, amount - left)
    }
}

pub(crate) proof fn lemma_depth_nonneg(s: Seq<Order<Open>>, incoming: Side, limit: Option<u64>)
    requires
        forall|i: int| 0 <= i < s.len() ==> (#[trigger] s[i]).state.filled_quantity <= s[i].state.size,
    ensures
        depth(s, incoming, limit) >= 0,
{
    let f = |o: Order<Open>| if crosses(incoming, limit, o.state.price) { o.state.remaining() } else { 0int };
    assert forall|i: int| 0 <= i < s.len() implies f(#[trigger] s[i]) >= 0 by {}
    crate::sums::lemma_sum_nonneg(s, f);
}

/// Whether orders of this kind execute at once against the book (and never rest).
pub open spec fn is_immediate(kind: OrderKind) -> bool {
    kind == OrderKind::Market || kind == OrderKind::ImmediateOrCancel || kind == OrderKind::FillOrKill
}

/// The limit that an incoming order of `kind` at `price` matches with: none for a market order.
pub open spec fn limit_of(kind: OrderKind, price: u64) -> Option<u64> {
    if kind == OrderKind::Market { None } else { Some(price) }
}

impl Account {
    /// The failure, if any, that `request` meets before its kind is looked at.
    pub open spec fn request_error(&self, request: Order<RequestOpen>) -> Option<ExchangeError> {
        let st = request.state;
        if request.instrument.kind != InstrumentKind::Perpetual {
            Some(ExchangeError::UnsupportedInstrument)
        } else if st.size == 0 || !in_range(st.price as int, st.size as int)
            || (st.kind != OrderKind::Market && st.price == 0) {
            Some(ExchangeError::InvalidRequest)
        } else if st.reduce_only && !(match request.side {
            Side::Buy => self.positions.short_held(request.instrument@),
            Side::Sell => self.positions.long_held(request.instrument@),
        }) {
            Some(ExchangeError::InvalidRequest)
        } else {
            None
        }
    }

    /// Whether some balance of `token` has at least `amount` available.
    pub open spec fn can_reserve(&self, token: Seq<char>, amount: int) -> bool {
        exists|k: int| 0 <= k < self.balances@.len() && (#[trigger] self.balances@[k]).token@ == token
            && self.balances@[k].balance.available >= amount
    }

    /// The marketable depth against an incoming order on `instrument`.
    pub open spec fn depth_for(&self, instrument: Instrument, incoming: Side, limit: Option<u64>) -> int {
        if exists|j: int| 0 <= j < self.orders.books@.len() && (#[trigger] self.orders.books@[j]).instrument@ == instrument@ {
            let j = choose|j: int| 0 <= j < self.orders.books@.len() && (#[trigger] self.orders.books@[j]).instrument@ == instrument@;
            depth(self.orders.books@[j].side_seq(incoming.flip()), incoming, limit)
        } else {
            0
        }
    }

    /// An account with these balances, no orders and no positions. Refused
    /// when the leverage is zero, a commission rate exceeds one, a token is
    /// listed twice, the machine id does not fit an order id, the latency
    /// bounds are inverted, or some balance has an available amount other
    /// than its total or below zero.
    pub fn new(machine_id: u64, config: AccountConfig, balances: Vec<TokenBalance>, latency: AccountLatency)
        -> (r: Result<Account, ExchangeError>)
        ensures
            r is Ok <==> (config.account_leverage_rate >= 1 && config.rates_ok() && machine_id < MACHINE_SPAN
                && latency.wf() && unique_tokens(balances@)
                && forall|i: int| 0 <= i < balances@.len() ==> (#[trigger] balances@[i]).balance.available
                    == balances@[i].balance.total && balances@[i].balance.total >= 0),
            r matches Ok(a) ==> a.wf() && a.balances@ == balances@ && a.config == config
                && a.orders.machine_id == machine_id && a.orders.latency == latency && a.exchange_timestamp == 0
                && a.orders.books@.len() == 0 && a.positions.is_empty(),
            r is Err ==> r == Err::<Account, ExchangeError>(ExchangeError::InvalidRequest),
    {
        if config.account_leverage_rate == 0 || machine_id >= MACHINE_SPAN || latency.minimum > latency.current_value
            || latency.current_value > latency.maximum {
            return Err(ExchangeError::InvalidRequest);
        }
        let mut i: usize = 0;
        while i < config.fees_book.len()
            invariant
                0 <= i <= config.fees_book@.len(),
                forall|a: int| 0 <= a < i ==> (#[trigger] config.fees_book@[a]).1.maker_fees <= PPM
                    && config.fees_book@[a].1.taker_fees <= PPM,
            decreases config.fees_book@.len() - i,
        {
            if config.fees_book[i].1.maker_fees > PPM || config.fees_book[i].1.taker_fees > PPM {
                return Err(ExchangeError::InvalidRequest);
            }
            i += 1;
        }
        let mut a: usize = 0;
        while a < balances.len()
            invariant
                0 <= a <= balances@.len(),
                forall|x: int| 0 <= x < a ==> (#[trigger] balances@[x]).balance.available == balances@[x].balance.total
                    && balances@[x].balance.total >= 0,
                forall|x: int, y: int| 0 <= x < y < balances@.len() && x < a ==>
                    (#[trigger] balances@[x]).token@ != (#[trigger] balances@[y]).token@,
            decreases balances@.len() - a,
        {
            if balances[a].balance.available != balances[a].balance.total || balances[a].balance.total < 0 {
                return Err(ExchangeError::InvalidRequest);
            }
            let mut b: usize = a + 1;
            while b < balances.len()
                invariant
                    a < balances@.len(),
                    a + 1 <= b <= balances@.len(),
                    forall|y: int| a < y < b ==> balances@[a as int].token@ != (#[trigger] balances@[y]).token@,
                decreases balances@.len() - b,
            {
                if balances[a].token.same(&balances[b].token) {
                    return Err(ExchangeError::InvalidRequest);
                }
                b += 1;
            }
            a += 1;
        }
        let acct = Account {
            exchange_timestamp: 0,
            config,
            balances,
            positions: AccountPositions::init(),
            orders: AccountOrders::new(machine_id, latency),
        };
        proof {
            assert forall|t: Seq<char>| #[trigger] acct.conserved_at(t) by {
                let f = |b: TokenBalance| if b.token@ == t { b.balance.total as int } else { 0 };
                let g = |b: TokenBalance| if b.token@ == t { b.balance.available as int } else { 0 };
                lemma_sum_ext(acct.balances@, f, g);
                assert(acct.orders.books@ =~= Seq::<OrderBook>::empty());
                assert(acct.positions.perpetual_pos_long@ =~= Seq::<PerpetualPosition>::empty());
                assert(acct.positions.perpetual_pos_short@ =~= Seq::<PerpetualPosition>::empty());
            }
            assert forall|x: OrderId| #[trigger] acct.order_count(x) <= 1
                && (acct.order_count(x) > 0 ==> x.0 <= acct.orders.id_floor()) by {
                assert(acct.orders.books@ =~= Seq::<OrderBook>::empty());
            }
        }
        Ok(acct)
    }
}

/// What `open_order` does with `request` at `timestamp_ms`, taking the account
/// from `a0` to `a1` and answering `r`.
pub open spec fn open_effect(a0: Account, request: Order<RequestOpen>, timestamp_ms: u64,
    r: Result<Order<Open>, ExchangeError>, a1: Account) -> bool {
    &&& a1.orders.id_floor() >= a0.orders.id_floor()
    &&& (a1.wf())
    &&& (a1.config == a0.config)
    &&& (a0.request_error(request) matches Some(e) ==> r == Err::<Order<Open>, ExchangeError>(e) && a1 == a0)
    &&& (a0.request_error(request) is None && !is_immediate(request.state.kind) ==> {
                let tok = side_token(request.instrument, request.side);
                let amt = required_amount(request.side, request.state.price as int, request.state.size as int, a0.lev());
                if !a0.can_reserve(tok, amt) {
                    r == Err::<Order<Open>, ExchangeError>(ExchangeError::InsufficientBalance) && a1 == a0
                } else if a0.orders.exhausted(timestamp_ms as int) {
                    r == Err::<Order<Open>, ExchangeError>(ExchangeError::InvalidRequest) && a1 == a0
                } else {
                    &&& r matches Ok(o)
                    &&& o.state == (Open { id: o.state.id, kind: request.state.kind, price: request.state.price,
                        size: request.state.size, filled_quantity: 0, order_role: OrderRole::Maker })
                    &&& o.instrument == request.instrument && o.side == request.side && o.cid == request.cid
                    &&& o.state.id.0 > a0.orders.id_floor()
                    &&& a1.orders.id_floor() == o.state.id.0
                    &&& a1.has_order(o.state.id)
                    &&& a1.order_with_id(o.state.id) == o
                    &&& a1.positions == a0.positions
                    &&& forall|t: Seq<char>| #[trigger] total_in(a1.balances@, t) == total_in(a0.balances@, t)
                    &&& forall|t: Seq<char>| #[trigger] available_in(a1.balances@, t)
                        == available_in(a0.balances@, t) - if t == tok { amt } else { 0int }
                    &&& forall|t: Seq<char>| #[trigger] a1.reserved_of(t)
                        == a0.reserved_of(t) + if t == tok { amt } else { 0int }
                }
            })
    &&& (a0.request_error(request) is None && is_immediate(request.state.kind) ==> {
                let d = a0.depth_for(request.instrument, request.side, limit_of(request.state.kind, request.state.price));
                if request.state.kind == OrderKind::FillOrKill && d < request.state.size {
                    r == Err::<Order<Open>, ExchangeError>(ExchangeError::InvalidRequest) && a1 == a0
                } else if a0.orders.exhausted(timestamp_ms as int) {
                    r == Err::<Order<Open>, ExchangeError>(ExchangeError::InvalidRequest) && a1 == a0
                } else {
                    &&& r matches Ok(o)
                    &&& o.state.filled_quantity == if d < request.state.size { d } else { request.state.size as int }
                    &&& o.state.size == request.state.size && o.state.price == request.state.price
                    &&& o.state.order_role == OrderRole::Taker
                    &&& o.instrument == request.instrument && o.side == request.side
                    &&& o.state.id.0 > a0.orders.id_floor()
                    &&& a1.orders.id_floor() == o.state.id.0
                    &&& !a1.has_order(o.state.id)
                }
            })
}

impl Account {
    /// The failure that `request` meets before its kind matters, if any.
    pub(crate) fn check_request(&self, request: &Order<RequestOpen>) -> (r: Option<ExchangeError>)
        requires
            self.wf(),
        ensures
            r == self.request_error(*request),
    {
        let st = request.state;
        if request.instrument.kind != InstrumentKind::Perpetual {
            return Some(ExchangeError::UnsupportedInstrument);
        }
        let bad_price = match st.kind {
            OrderKind::Market => false,
            _ => st.price == 0,
        };
        if st.size == 0 || st.price > MAX_PRICE || st.size > MAX_SIZE || bad_price {
            return Some(ExchangeError::InvalidRequest);
        }
        if st.reduce_only {
            let offset = match request.side {
                Side::Buy => self.positions.has_short_position(&request.instrument),
                Side::Sell => self.positions.has_long_position(&request.instrument),
            };
            let offset = match offset {
                Ok(b) => b,
                Err(_) => false,
            };
            if !offset {
                return Some(ExchangeError::InvalidRequest);
            }
        }
        None
    }

    /// Opens an order. Limit and good-til-cancelled orders rest in the book of
    /// their instrument, holding back `price * size / leverage` of the quote
    /// token (buy) or `size` of the base token (sell). Market, immediate-or-cancel
    /// and fill-or-kill orders act at once as an incoming trade against the
    /// resting orders of the other side (a market order at any price, the
    /// others up to their price) and never rest; a fill-or-kill order that the
    /// book cannot fill whole is refused with nothing changed. The returned
    /// order carries the new id, greater than every earlier one, and for an
    /// immediate order the quantity that executed.
    pub fn open_order(&mut self, request: Order<RequestOpen>, timestamp_ms: u64) -> (r: Result<Order<Open>, ExchangeError>)
        requires
            old(self).wf(),
        ensures
            open_effect(*old(self), request, timestamp_ms, r, *final(self)),
    {
        let ghost pre = *self;
        match self.check_request(&request) {
            Some(e) => {
                return Err(e);
            },
            None => {},
        }
        let kind = request.state.kind;
        let immediate = match kind {
            OrderKind::Market | OrderKind::ImmediateOrCancel | OrderKind::FillOrKill => true,
            _ => false,
        };
        if !immediate {
            let token = match request.side {
                Side::Buy => &request.instrument.quote,
                Side::Sell => &request.instrument.base,
            };
            let amount = required_of(request.side, request.state.price, request.state.size, self.config.account_leverage_rate);
            let k = match self.find_balance(token) {
                Some(k) => k,
                None => {
                    return Err(ExchangeError::InsufficientBalance);
                },
            };
            if self.balances[k].balance.available < amount {
                proof {
                    if pre.can_reserve(token@, amount as int) {
                        let k2 = choose|k2: int| 0 <= k2 < pre.balances@.len() && (#[trigger] pre.balances@[k2]).token@ == token@
                            && pre.balances@[k2].balance.available >= amount;
                        if k2 != k {
                            assert(pre.balances@[k2].token@ != pre.balances@[k as int].token@ || k2 == k);
                        }
                    }
                }
                return Err(ExchangeError::InsufficientBalance);
            }
            let id = match self.orders.new_order_id(timestamp_ms) {
                Some(id) => id,
                None => {
                    return Err(ExchangeError::InvalidRequest);
                },
            };
            proof {
                self.lemma_after_new_id(pre, id);
            }
            let j = self.book_index(&request.instrument);
            let order = request.into_open(id, OrderRole::Maker);
            let ghost mid = *self;
            proof {
                assert(mid.balances@[k as int].token@ == reserve_token(order));
                crate::order::lemma_required_monotone(order.side, order.state.price as int, 0, order.state.size as int, mid.lev());
            }
            let result = order.duplicate();
            self.rest_order(j, k, order);
            proof {
                assert(token@ == side_token(request.instrument, request.side));
                let nb = self.balances@[k as int];
                assert forall|t: Seq<char>| #[trigger] total_in(self.balances@, t) == total_in(pre.balances@, t) by {
                    lemma_balance_update(pre.balances@, k as int, nb, t);
                }
                assert forall|t: Seq<char>| #[trigger] available_in(self.balances@, t)
                    == available_in(pre.balances@, t) - if t == token@ { amount as int } else { 0int } by {
                    lemma_balance_update(pre.balances@, k as int, nb, t);
                }
                assert forall|t: Seq<char>| #[trigger] self.reserved_of(t)
                    == pre.reserved_of(t) + if t == token@ { amount as int } else { 0int } by {
                    assert(self.conserved_at(t));
                    assert(pre.conserved_at(t));
                    assert(mid.reserved_of(t) == pre.reserved_of(t));
                }
                lemma_books_count(self.orders.books@, id);
                let side = order.side;
                let b0 = mid.orders.books@[j as int];
                let b1 = self.orders.books@[j as int];
                let p = choose|p: int| 0 <= p <= b0.side_seq(side).len()
                    && b1.side_seq(side) == b0.side_seq(side).insert(p, order);
                assert(b1.side_seq(side)[p] == order);
                match side {
                    Side::Buy => assert(in_side(b1.bids@, order)),
                    Side::Sell => assert(in_side(b1.asks@, order)),
                }
                assert(in_book(self.orders.books@[j as int], order));
                assert(self.in_books(order));
                self.lemma_unique_holder(self.order_with_id(id), order);
            }
            Ok(result)
        } else {
            let limit = match kind {
                OrderKind::Market => None,
                _ => Some(request.state.price),
            };
            let found = self.find_book(&request.instrument);
            if let OrderKind::FillOrKill = kind {
                let enough = match found {
                    Some(j) => self.depth_at_least(j, request.side, limit, request.state.size),
                    None => false,
                };
                if !enough {
                    proof {
                        self.lemma_depth_for(found, request.instrument, request.side, limit);
                    }
                    return Err(ExchangeError::InvalidRequest);
                }
            }
            proof {
                self.lemma_depth_for(found, request.instrument, request.side, limit);
            }
            let id = match self.orders.new_order_id(timestamp_ms) {
                Some(id) => id,
                None => {
                    return Err(ExchangeError::InvalidRequest);
                },
            };
            proof {
                self.lemma_after_new_id(pre, id);
            }
            let ghost s1 = *self;
            let j = self.book_index(&request.instrument);
            let ghost s2 = *self;
            proof {
                assert(s2.order_count(id) == s1.order_count(id));
                assert(s1.orders.books == pre.orders.books);
                match found {
                    None => {
                        if s2.orders.books@ == pre.orders.books@ {
                            assert(pre.orders.books@[j as int].instrument@ != request.instrument@);
                        }
                        lemma_depth_empty(self.orders.books@[j as int].side_seq(request.side.flip()), request.side, limit);
                    },
                    Some(fj) => {
                        if s2.orders.books@ != pre.orders.books@ {
                            assert(s2.orders.books@[fj as int] == pre.orders.books@[fj as int]);
                            assert(s2.orders.books@[fj as int].instrument@ == s2.orders.books@[j as int].instrument@);
                            assert(fj < j);
                        }
                        if j != fj {
                            if j < fj {
                                assert(pre.orders.books@[j as int].instrument@ != pre.orders.books@[fj as int].instrument@);
                            } else {
                                assert(pre.orders.books@[fj as int].instrument@ != pre.orders.books@[j as int].instrument@);
                            }
                        }
                        assert(j == fj);
                    },
                }
            }
            let (_fills, matched) = self.match_incoming(j, request.side, limit, request.state.size, timestamp_ms as i64);
            let mut order = request.into_open(id, OrderRole::Taker);
            order.state.filled_quantity = matched;
            proof {
                assert(self.order_count(id) <= s2.order_count(id));
                lemma_books_count(self.orders.books@, id);
                assert(order.state.id == id);
            }
            Ok(order)
        }
    }

    pub(crate) proof fn lemma_after_new_id(&self, pre: Account, id: OrderId)
        requires
            pre.wf(),
            self.orders.ids_ok(),
            self.orders.books == pre.orders.books,
            self.orders.latency == pre.orders.latency,
            self.balances == pre.balances,
            self.positions == pre.positions,
            self.config == pre.config,
            id.0 > pre.orders.id_floor(),
            id.0 == self.orders.id_floor(),
        ensures
            self.wf(),
            self.order_count(id) == 0,
            forall|t: Seq<char>| #[trigger] self.reserved_of(t) == pre.reserved_of(t),
    {
        assert forall|x: OrderId| #[trigger] self.order_count(x) <= 1
            && (self.order_count(x) > 0 ==> x.0 <= self.orders.id_floor()) by {
            assert(pre.order_count(x) <= 1);
            assert(pre.order_count(x) > 0 ==> x.0 <= pre.orders.id_floor());
        }
        assert(pre.order_count(id) > 0 ==> id.0 <= pre.orders.id_floor());
        lemma_books_count(pre.orders.books@, id);
        assert forall|t: Seq<char>| #[trigger] self.conserved_at(t) by {
            assert(pre.conserved_at(t));
        }
    }

    /// `depth_for` read through the book that `find_book` returned.
    pub(crate) proof fn lemma_depth_for(&self, found: Option<usize>, instrument: Instrument, incoming: Side, limit: Option<u64>)
        requires
            self.wf(),
            found is None ==> forall|i: int| 0 <= i < self.orders.books@.len() ==> (#[trigger] self.orders.books@[i]).instrument@ != instrument@,
            found matches Some(j) ==> j < self.orders.books@.len() && self.orders.books@[j as int].instrument@ == instrument@,
        ensures
            found is None ==> self.depth_for(instrument, incoming, limit) == 0,
            found matches Some(j) ==> self.depth_for(instrument, incoming, limit)
                == depth(self.orders.books@[j as int].side_seq(incoming.flip()), incoming, limit),
    {
        if let Some(j) = found {
            let c = choose|c: int| 0 <= c < self.orders.books@.len() && (#[trigger] self.orders.books@[c]).instrument@ == instrument@;
            if c != j as int {
                if c < j {
                    assert(self.orders.books@[c].instrument@ != self.orders.books@[j as int].instrument@);
                } else {
                    assert(self.orders.books@[j as int].instrument@ != self.orders.books@[c].instrument@);
                }
            }
        }
    }

    /// Whether the marketable depth on the side of book `j` that an incoming
    /// `incoming` order walks is at least `need`.
    pub(crate) fn depth_at_least(&self, j: usize, incoming: Side, limit: Option<u64>, need: u64) -> (r: bool)
        requires
            self.wf(),
            j < self.orders.books@.len(),
        ensures
            r == (depth(self.orders.books@[j as int].side_seq(incoming.flip()), incoming, limit) >= need),
    {
        let ghost s = self.orders.books@[j as int].side_seq(incoming.flip());
        let book_side = incoming.opposite();
        let n = self.orders.books[j].depth_len(book_side);
        let ghost f = |o: Order<Open>| if crosses(incoming, limit, o.state.price) { o.state.remaining() } else { 0int };
        proof {
            self.orders.books@[j as int].lemma_side_wf(incoming.flip());
        }
        let mut acc: u128 = 0;
        let mut i: usize = 0;
        while i < n
            invariant
                n == s.len(),
                0 <= i <= n,
                j < self.orders.books@.len(),
                book_side == incoming.flip(),
                s == self.orders.books@[j as int].side_seq(incoming.flip()),
                forall|m: int| 0 <= m < s.len() ==> (#[trigger] s[m]).state.filled_quantity < s[m].state.size,
                acc == seq_sum(s.subrange(0, i as int), f),
                acc <= i * 0x1_0000_0000_0000_0000int,
                f == (|o: Order<Open>| if crosses(incoming, limit, o.state.price) { o.state.remaining() } else { 0int }),
            decreases n - i,
        {
            let o = self.orders.books[j].order_at(book_side, i);
            let add: u64 = if crosses_exec(incoming, limit, o.state.price) { o.state.size - o.state.filled_quantity } else { 0 };
            proof {
                assert(s.subrange(0, i + 1).drop_last() =~= s.subrange(0, i as int));
                assert(s.subrange(0, i + 1).last() == s[i as int]);
                assert(i < 0x1_0000_0000_0000_0000int);
                assert(acc + add <= (i + 1) * 0x1_0000_0000_0000_0000int) by (nonlinear_arith)
                    requires acc <= i * 0x1_0000_0000_0000_0000int, add < 0x1_0000_0000_0000_0000int;
                assert((i + 1) * 0x1_0000_0000_0000_0000int <= 0x1_0000_0000_0000_0000int * 0x1_0000_0000_0000_0000int) by (nonlinear_arith)
                    requires i + 1 <= 0x1_0000_0000_0000_0000int;
            }
            acc = acc + add as u128;
            i += 1;
        }
        proof {
            assert(s.subrange(0, n as int) =~= s);
        }
        acc >= need as u128
    }
}

pub(crate) proof fn lemma_depth_empty(s: Seq<Order<Open>>, incoming: Side, limit: Option<u64>)
    requires
        s.len() == 0,
    ensures
        depth(s, incoming, limit) == 0,
{
}

/// Whether `e` reports the fill `f`: as `OrdersFilled` when it took the whole
/// remaining quantity, as `OrdersPartiallyFilled` otherwise.
pub open spec fn fill_event_matches(e: AccountEvent, f: Fill) -> bool {
    match e.kind {
        AccountEventKind::OrdersFilled(v) => f.full && v@.len() == 1 && v@[0].state.id == f.order.state.id
            && v@[0].state.price == f.order.state.price && v@[0].state.size == f.quantity,
        AccountEventKind::OrdersPartiallyFilled(v) => !f.full && v@.len() == 1 && v@[0].state.id == f.order.state.id
            && v@[0].state.price == f.order.state.price && v@[0].state.size == f.quantity,
        _ => false,
    }
}

/// The commission that `fills` charged in `token` (each in its quote token).
pub open spec fn fees_in(fills: Seq<Fill>, token: Seq<char>) -> int {
    seq_sum(fills, |f: Fill| if f.order.instrument.quote@ == token { f.fee as int } else { 0int })
}

/// What `match_orders` does with a public trade on `instrument`, taking the
/// account from `a0` to `a1` and reporting `fills`: each fill is of a resting
/// order of the other side, at that order's own price, marketable against the
/// trade's price; an order leaves the book exactly when its whole size is
/// filled; together the fills take `min(amount, marketable depth)`; the clock
/// moves forward to the trade's time.
pub open spec fn match_effect(a0: Account, instrument: Instrument, trade: PublicTrade, fills: Seq<Fill>, a1: Account) -> bool {
    &&& a1.wf()
    &&& a1.config == a0.config
    &&& a1.orders.id_floor() == a0.orders.id_floor()
    &&& a1.exchange_timestamp == if trade.timestamp > a0.exchange_timestamp { trade.timestamp } else { a0.exchange_timestamp }
    &&& (forall|x: OrderId| #[trigger] a1.order_count(x) <= a0.order_count(x))
    &&& (forall|k: int| 0 <= k < fills.len() ==> crosses(trade.side, Some(trade.price), (#[trigger] fills[k]).order.state.price)
        && fills[k].order.side == trade.side.flip() && fills[k].quantity > 0
        && fills[k].order.state.filled_quantity <= fills[k].order.state.size
        && (fills[k].full <==> fills[k].order.state.filled_quantity == fills[k].order.state.size))
    &&& (forall|k: int| 0 <= k < fills.len() && (#[trigger] fills[k]).full ==> !a1.has_order(fills[k].order.state.id))
    &&& (forall|k: int| 0 <= k < fills.len() ==> 0 <= (#[trigger] fills[k]).fee <= commission(fills[k].order.state.price as int,
        fills[k].quantity as int, a0.config.rate(fills[k].order.instrument.kind, OrderRole::Maker)))
    &&& (forall|t: Seq<char>| #[trigger] total_in(a1.balances@, t) == total_in(a0.balances@, t) - fees_in(fills, t))
    &&& seq_sum(fills, |f: Fill| f.quantity as int) == if a0.depth_for(instrument, trade.side, Some(trade.price)) < trade.amount {
        a0.depth_for(instrument, trade.side, Some(trade.price))
    } else {
        trade.amount as int
    }
}

impl Account {
    /// The event that reports `f`.
    pub fn fill_event(f: &Fill, ts: i64) -> (e: AccountEvent)
        ensures
            fill_event_matches(e, *f),
    {
        let kind = if f.full {
            let o = f.order.with_state(FullyFill { id: f.order.state.id, price: f.order.state.price, size: f.quantity });
            AccountEventKind::OrdersFilled(vec![o])
        } else {
            let o = f.order.with_state(PartialFill { id: f.order.state.id, price: f.order.state.price, size: f.quantity });
            AccountEventKind::OrdersPartiallyFilled(vec![o])
        };
        AccountEvent { exchange_timestamp: ts, exchange: Exchange::SandBox, kind }
    }

    /// Matches a public trade on `instrument` against the resting orders of the
    /// other side, best first, while they are marketable against the trade's
    /// price and its amount lasts; what is left of the trade is discarded.
    /// Returns the fills, in order: together they take `min(amount, depth)`,
    /// the marketable depth there was.
    pub fn match_orders(&mut self, instrument: &Instrument, trade: &PublicTrade) -> (fills: Vec<Fill>)
        requires
            old(self).wf(),
        ensures
            match_effect(*old(self), *instrument, *trade, fills@, *final(self)),
    {
        let found = self.find_book(instrument);
        proof {
            self.lemma_depth_for(found, *instrument, trade.side, Some(trade.price));
        }
        let ghost pre = *self;
        let clock = self.exchange_timestamp;
        let fills = match found {
            None => {
                let fills: Vec<Fill> = Vec::new();
                proof {
                    assert(seq_sum(fills@, |f: Fill| f.quantity as int) == 0);
                    assert forall|t: Seq<char>| #[trigger] total_in(self.balances@, t) == total_in(pre.balances@, t) - fees_in(fills@, t) by {
                        assert(fees_in(fills@, t) == 0);
                    }
                }
                fills
            },
            Some(j) => {
                let (fills, _matched) = self.match_incoming(j, trade.side, Some(trade.price), trade.amount, trade.timestamp);
                fills
            },
        };
        let ghost mid = *self;
        self.exchange_timestamp = if trade.timestamp > clock { trade.timestamp } else { clock };
        proof {
            mid.lemma_same_wf(*self);
            assert forall|x: OrderId| #[trigger] self.order_count(x) <= pre.order_count(x) by {
                assert(self.order_count(x) == mid.order_count(x));
                assert(mid.order_count(x) <= pre.order_count(x));
            }
            assert forall|k: int| 0 <= k < fills@.len() && (#[trigger] fills@[k]).full implies !self.has_order(fills@[k].order.state.id) by {
                let x = fills@[k].order.state.id;
                assert(!mid.has_order(x));
                lemma_books_count(mid.orders.books@, x);
                lemma_books_count(self.orders.books@, x);
                assert(self.order_count(x) == mid.order_count(x));
            }
        }
        fills
    }

    /// One event per fill, in order.
    pub fn fill_events(fills: &Vec<Fill>, ts: i64) -> (events: Vec<AccountEvent>)
        ensures
            events@.len() == fills@.len(),
            forall|k: int| 0 <= k < fills@.len() ==> #[trigger] fill_event_matches(events@[k], fills@[k]),
    {
        let mut events: Vec<AccountEvent> = Vec::new();
        let mut k: usize = 0;
        while k < fills.len()
            invariant
                0 <= k <= fills@.len(),
                events@.len() == k,
                forall|m: int| 0 <= m < k ==> #[trigger] fill_event_matches(events@[m], fills@[m]),
            decreases fills@.len() - k,
        {
            let e = Account::fill_event(&fills[k], ts);
            events.push(e);
            k += 1;
        }
        events
    }
}

/// Whether some order of `v` carries `id`.
pub open spec fn lists_id(v: Seq<Order<Open>>, id: OrderId) -> bool {
    exists|k: int| 0 <= k < v.len() && (#[trigger] v[k]).state.id == id
}

pub(crate) fn push_side(out: &mut Vec<Order<Open>>, side: &Vec<Order<Open>>)
    ensures
        forall|id: OrderId| #[trigger] lists_id(final(out)@, id) <==> lists_id(old(out)@, id) || holds_id(side@, id),
{
    let ghost start = out@;
    let mut k: usize = 0;
    while k < side.len()
        invariant
            0 <= k <= side@.len(),
            out@.len() == start.len() + k,
            forall|m: int| 0 <= m < start.len() ==> #[trigger] out@[m] == start[m],
            forall|m: int| 0 <= m < k ==> #[trigger] out@[start.len() + m] == side@[m],
        decreases side@.len() - k,
    {
        out.push(side[k].duplicate());
        k += 1;
    }
    proof {
        assert forall|id: OrderId| #[trigger] lists_id(out@, id) <==> lists_id(start, id) || holds_id(side@, id) by {
            if lists_id(out@, id) {
                let m = choose|m: int| 0 <= m < out@.len() && (#[trigger] out@[m]).state.id == id;
                if m < start.len() {
                    assert(start[m] == out@[m]);
                } else {
                    let m2 = m - start.len();
                    assert(out@[start.len() + m2] == side@[m2]);
                    assert(holds_id(side@, id));
                }
            }
            if lists_id(start, id) {
                let m = choose|m: int| 0 <= m < start.len() && (#[trigger] start[m]).state.id == id;
                assert(out@[m] == start[m]);
            }
            if holds_id(side@, id) {
                let m = choose|m: int| 0 <= m < side@.len() && (#[trigger] side@[m]).state.id == id;
                assert(out@[start.len() + m] == side@[m]);
            }
        }
    }
}

impl Account {
    /// Copies of all resting orders: exactly the ids that rest appear.
    pub fn fetch_orders_open(&self) -> (r: Vec<Order<Open>>)
        ensures
            forall|id: OrderId| #[trigger] lists_id(r@, id) <==> self.has_order(id),
    {
        let mut out: Vec<Order<Open>> = Vec::new();
        let mut j: usize = 0;
        while j < self.orders.books.len()
            invariant
                0 <= j <= self.orders.books@.len(),
                forall|id: OrderId| #[trigger] lists_id(out@, id) <==> exists|i: int| 0 <= i < j
                    && (#[trigger] self.orders.books@[i]).contains_id(id),
            decreases self.orders.books@.len() - j,
        {
            let ghost before = out@;
            push_side(&mut out, &self.orders.books[j].bids);
            push_side(&mut out, &self.orders.books[j].asks);
            proof {
                assert forall|id: OrderId| #[trigger] lists_id(out@, id) <==> exists|i: int| 0 <= i < j + 1
                    && (#[trigger] self.orders.books@[i]).contains_id(id) by {
                    if self.orders.books@[j as int].contains_id(id) {
                        assert(0 <= j < j + 1);
                    }
                    if exists|i: int| 0 <= i < j + 1 && (#[trigger] self.orders.books@[i]).contains_id(id) {
                        let i = choose|i: int| 0 <= i < j + 1 && (#[trigger] self.orders.books@[i]).contains_id(id);
                        if i < j {
                            assert(exists|i2: int| 0 <= i2 < j && (#[trigger] self.orders.books@[i2]).contains_id(id));
                        }
                    }
                }
            }
            j += 1;
        }
        out
    }

    /// Copies of the balances.
    pub fn fetch_balances(&self) -> (r: Vec<TokenBalance>)
        ensures
            r@.len() == self.balances@.len(),
            forall|i: int| 0 <= i < r@.len() ==> #[trigger] r@[i] == self.balances@[i],
    {
        let mut out: Vec<TokenBalance> = Vec::new();
        let mut i: usize = 0;
        while i < self.balances.len()
            invariant
                0 <= i <= self.balances@.len(),
                out@.len() == i,
                forall|m: int| 0 <= m < i ==> #[trigger] out@[m] == self.balances@[m],
            decreases self.balances@.len() - i,
        {
            out.push(TokenBalance { token: self.balances[i].token.duplicate(), balance: self.balances[i].balance });
            i += 1;
        }
        out
    }

    /// Cancels every resting order, returning what each held back; no order
    /// rests afterwards.
    pub fn cancel_orders_all(&mut self) -> (r: Vec<Order<Cancelled>>)
        requires
            old(self).wf(),
        ensures
            final(self).wf(),
            final(self).config == old(self).config,
            forall|id: OrderId| !#[trigger] final(self).has_order(id),
            forall|t: Seq<char>| #[trigger] total_in(final(self).balances@, t) == total_in(old(self).balances@, t),
            final(self).orders.id_floor() == old(self).orders.id_floor(),
            forall|k: int| 0 <= k < r@.len() ==> old(self).has_order(#[trigger] r@[k].state.id),
    {
        let ghost pre = *self;
        let open = self.fetch_orders_open();
        let mut out: Vec<Order<Cancelled>> = Vec::new();
        let mut k: usize = 0;
        while k < open.len()
            invariant
                forall|m: int| 0 <= m < out@.len() ==> pre.has_order(#[trigger] out@[m].state.id),
                self.orders.id_floor() == pre.orders.id_floor(),
                self.wf(),
                self.config == pre.config,
                0 <= k <= open@.len(),
                forall|m: int| 0 <= m < k ==> !self.has_order((#[trigger] open@[m]).state.id),
                forall|x: OrderId| #[trigger] self.order_count(x) <= pre.order_count(x),
                forall|id: OrderId| #[trigger] lists_id(open@, id) <==> pre.has_order(id),
                forall|t: Seq<char>| #[trigger] total_in(self.balances@, t) == total_in(pre.balances@, t),
            decreases open@.len() - k,
        {
            let ghost cur = *self;
            let id = open[k].state.id;
            let res = self.cancel_order(id);
            proof {
                assert forall|m: int| 0 <= m < k + 1 implies !self.has_order((#[trigger] open@[m]).state.id) by {
                    let x = open@[m].state.id;
                    if m < k || res is Err {
                        lemma_books_count(cur.orders.books@, x);
                        lemma_books_count(self.orders.books@, x);
                        assert(self.order_count(x) <= cur.order_count(x));
                    }
                }
                assert forall|x: OrderId| #[trigger] self.order_count(x) <= pre.order_count(x) by {
                    assert(self.order_count(x) <= cur.order_count(x));
                }
            }
            if let Ok(c) = res {
                let ghost before = out@;
                out.push(c);
                proof {
                    assert(open@[k as int].state.id == id);
                    assert(lists_id(open@, id));
                    assert forall|m: int| 0 <= m < out@.len() implies pre.has_order(#[trigger] out@[m].state.id) by {
                        if m < before.len() {
                            assert(out@[m] == before[m]);
                        }
                    }
                }
            }
            k += 1;
        }
        proof {
            assert forall|id: OrderId| !#[trigger] self.has_order(id) by {
                lemma_books_count(self.orders.books@, id);
                lemma_books_count(pre.orders.books@, id);
                if self.has_order(id) {
                    assert(self.order_count(id) > 0);
                    assert(self.order_count(id) <= pre.order_count(id));
                    assert(pre.order_count(id) > 0);
                    assert(lists_id(open@, id));
                    let m = choose|m: int| 0 <= m < open@.len() && (#[trigger] open@[m]).state.id == id;
                    assert(!self.has_order(open@[m].state.id));
                }
            }
        }
        out
    }

    /// Opens each request in turn; the results line up with the requests, and
    /// each is what `open_order` gives on its request after the earlier ones.
    pub fn open_orders(&mut self, requests: Vec<Order<RequestOpen>>, timestamp_ms: u64) -> (r: Vec<Result<Order<Open>, ExchangeError>>)
        requires
            old(self).wf(),
        ensures
            final(self).wf(),
            final(self).config == old(self).config,
            r@.len() == requests@.len(),
            exists|states: Seq<Account>| #[trigger] open_chain(states, *old(self), *final(self), requests@, timestamp_ms, r@),
    {
        let ghost pre = *self;
        let ghost reqs = requests@;
        let mut out: Vec<Result<Order<Open>, ExchangeError>> = Vec::new();
        let ghost n = requests@.len();
        let ghost mut states: Seq<Account> = seq![*self];
        let mut rest = requests;
        while rest.len() > 0
            invariant
                self.wf(),
                self.config == pre.config,
                out@.len() + rest@.len() == n,
                n == reqs.len(),
                rest@ == reqs.subrange(out@.len() as int, n as int),
                states.len() == out@.len() + 1,
                states[0] == pre,
                states[out@.len() as int] == *self,
                forall|k: int| 0 <= k < out@.len() ==>
                    #[trigger] open_effect(states[k], reqs[k], timestamp_ms, out@[k], states[k + 1]),
            decreases rest@.len(),
        {
            let ghost k = out@.len() as int;
            let ghost before = *self;
            let req = rest.remove(0);
            proof {
                assert(req == reqs[k]);
            }
            let res = self.open_order(req, timestamp_ms);
            out.push(res);
            proof {
                let old_states = states;
                states = states.push(*self);
                assert forall|j: int| 0 <= j < out@.len() implies
                    #[trigger] open_effect(states[j], reqs[j], timestamp_ms, out@[j], states[j + 1]) by {
                    if j < k {
                        assert(states[j] == old_states[j]);
                        assert(states[j + 1] == old_states[j + 1]);
                        assert(out@[j] == out@.drop_last()[j]);
                    } else {
                        assert(states[j] == before);
                    }
                }
                assert(rest@ =~= reqs.subrange(out@.len() as int, n as int));
            }
        }
        proof {
            assert(open_chain(states, pre, *self, reqs, timestamp_ms, out@));
        }
        out
    }
}

impl Account {
    /// Cancels each requested id in turn; the results line up with the
    /// requests, and each is what `cancel_order` gives on its id after the
    /// earlier ones.
    pub fn cancel_orders(&mut self, requests: &Vec<Order<RequestCancel>>) -> (r: Vec<Result<Order<Cancelled>, ExchangeError>>)
        requires
            old(self).wf(),
        ensures
            final(self).wf(),
            final(self).config == old(self).config,
            r@.len() == requests@.len(),
            exists|states: Seq<Account>| #[trigger] cancel_chain(states, *old(self), *final(self), requests@, r@),
    {
        let ghost pre = *self;
        let mut out: Vec<Result<Order<Cancelled>, ExchangeError>> = Vec::new();
        let ghost mut states: Seq<Account> = seq![*self];
        let mut k: usize = 0;
        while k < requests.len()
            invariant
                self.wf(),
                self.config == pre.config,
                0 <= k <= requests@.len(),
                out@.len() == k,
                states.len() == k + 1,
                states[0] == pre,
                states[k as int] == *self,
                forall|j: int| 0 <= j < k ==>
                    #[trigger] cancel_effect(states[j], requests@[j].state.id, out@[j], states[j + 1]),
            decreases requests@.len() - k,
        {
            let ghost before = *self;
            let res = self.cancel_order(requests[k].state.id);
            out.push(res);
            proof {
                let old_states = states;
                states = states.push(*self);
                assert forall|j: int| 0 <= j < k + 1 implies
                    #[trigger] cancel_effect(states[j], requests@[j].state.id, out@[j], states[j + 1]) by {
                    if j < k {
                        assert(states[j] == old_states[j]);
                        assert(states[j + 1] == old_states[j + 1]);
                        assert(out@[j] == out@.drop_last()[j]);
                    } else {
                        assert(states[j] == before);
                    }
                }
            }
            k += 1;
        }
        proof {
            assert(cancel_chain(states, pre, *self, requests@, out@));
        }
        out
    }
}

/// `states` walks `cancel_order` over the ids of `requests`, from `a0` to `a1`, answering `rs`.
pub open spec fn cancel_chain(states: Seq<Account>, a0: Account, a1: Account, requests: Seq<Order<RequestCancel>>,
    rs: Seq<Result<Order<Cancelled>, ExchangeError>>) -> bool {
    &&& rs.len() == requests.len()
    &&& states.len() == requests.len() + 1
    &&& states[0] == a0
    &&& states[requests.len() as int] == a1
    &&& forall|k: int| 0 <= k < requests.len() ==>
        #[trigger] cancel_effect(states[k], requests[k].state.id, rs[k], states[k + 1])
}

/// `states` walks `open_order` over `requests`, from `a0` to `a1`, answering `rs`.
pub open spec fn open_chain(states: Seq<Account>, a0: Account, a1: Account, requests: Seq<Order<RequestOpen>>,
    timestamp_ms: u64, rs: Seq<Result<Order<Open>, ExchangeError>>) -> bool {
    &&& rs.len() == requests.len()
    &&& states.len() == requests.len() + 1
    &&& states[0] == a0
    &&& states[requests.len() as int] == a1
    &&& forall|k: int| 0 <= k < requests.len() ==>
        #[trigger] open_effect(states[k], requests[k], timestamp_ms, rs[k], states[k + 1])
}

impl Account {
    /// An account with the same ledgers as a well-formed one (its clock may differ) is well formed.
    pub proof fn lemma_same_wf(&self, other: Account)
        requires
            self.wf(),
            other.balances == self.balances,
            other.orders == self.orders,
            other.positions == self.positions,
            other.config == self.config,
        ensures
            other.wf(),
    {
        assert forall|x: OrderId| #[trigger] other.order_count(x) <= 1
            && (other.order_count(x) > 0 ==> x.0 <= other.orders.id_floor()) by {
            assert(self.order_count(x) <= 1);
        }
        assert forall|t: Seq<char>| #[trigger] other.conserved_at(t) by {
            assert(self.conserved_at(t));
        }
    }
}

} // verus!

verus! {

/// Along a walk of `open_order`, the last id handed out never goes down.
pub proof fn lemma_open_chain_floor(states: Seq<Account>, a0: Account, a1: Account, requests: Seq<Order<RequestOpen>>,
    timestamp_ms: u64, rs: Seq<Result<Order<Open>, ExchangeError>>, m: int, n: int)
    requires
        open_chain(states, a0, a1, requests, timestamp_ms, rs),
        0 <= m <= n <= requests.len(),
    ensures
        states[m].orders.id_floor() <= states[n].orders.id_floor(),
    decreases n - m,
{
    if m < n {
        let k = n - 1;
        assert(open_effect(states[k], requests[k], timestamp_ms, rs[k], states[k + 1]));
        lemma_open_chain_floor(states, a0, a1, requests, timestamp_ms, rs, m, n - 1);
    }
}

/// Cancels leave the last id handed out where it was.
pub proof fn lemma_cancel_chain_floor(states: Seq<Account>, a0: Account, a1: Account, requests: Seq<Order<RequestCancel>>,
    rs: Seq<Result<Order<Cancelled>, ExchangeError>>, n: int)
    requires
        cancel_chain(states, a0, a1, requests, rs),
        0 <= n <= requests.len(),
    ensures
        states[n].orders.id_floor() == a0.orders.id_floor(),
    decreases n,
{
    if n > 0 {
        let k = n - 1;
        assert(cancel_effect(states[k], requests[k].state.id, rs[k], states[k + 1]));
        lemma_cancel_chain_floor(states, a0, a1, requests, rs, k);
    }
}

/// Order ids strictly increase: of two requests of one batch that were
/// accepted, the later one has the greater id, and the batch leaves the last
/// id handed out no lower than before.
pub proof fn lemma_batch_ids_increase(states: Seq<Account>, a0: Account, a1: Account, requests: Seq<Order<RequestOpen>>,
    timestamp_ms: u64, rs: Seq<Result<Order<Open>, ExchangeError>>, j: int, k: int)
    requires
        open_chain(states, a0, a1, requests, timestamp_ms, rs),
        0 <= j < k < requests.len(),
        rs[j] is Ok,
        rs[k] is Ok,
    ensures
        rs[j]->Ok_0.state.id.0 < rs[k]->Ok_0.state.id.0,
        a0.orders.id_floor() <= a1.orders.id_floor(),
{
    assert(open_effect(states[j], requests[j], timestamp_ms, rs[j], states[j + 1]));
    assert(open_effect(states[k], requests[k], timestamp_ms, rs[k], states[k + 1]));
    lemma_open_chain_floor(states, a0, a1, requests, timestamp_ms, rs, j + 1, k);
    lemma_open_chain_floor(states, a0, a1, requests, timestamp_ms, rs, 0, requests.len() as int);
}

/// Opening one resting order through the exchange and then cancelling its id
/// gives back the total and available amounts of every token: the cancel is
/// accepted, and what the open held back returns.
pub proof fn lemma_exchange_open_then_cancel(a0: Account, a1: Account, a2: Account,
    request: Order<RequestOpen>, timestamp_ms: u64, opened: Order<Open>, open_states: Seq<Account>,
    cancel: Order<RequestCancel>, reply: Result<Order<Cancelled>, ExchangeError>, cancel_states: Seq<Account>)
    requires
        a0.wf(),
        !is_immediate(request.state.kind),
        open_chain(open_states, a0, a1, seq![request], timestamp_ms, seq![Ok::<Order<Open>, ExchangeError>(opened)]),
        cancel.state.id == opened.state.id,
        cancel_chain(cancel_states, a1, a2, seq![cancel], seq![reply]),
    ensures
        reply is Ok,
        forall|t: Seq<char>| #[trigger] total_in(a2.balances@, t) == total_in(a0.balances@, t),
        forall|t: Seq<char>| #[trigger] available_in(a2.balances@, t) == available_in(a0.balances@, t),
{
    let rs = seq![Ok::<Order<Open>, ExchangeError>(opened)];
    assert(open_effect(open_states[0], seq![request][0], timestamp_ms, rs[0], open_states[1]));
    assert(seq![request][0] == request);
    assert(cancel_effect(cancel_states[0], seq![cancel][0].state.id, seq![reply][0], cancel_states[1]));
    assert(seq![cancel][0] == cancel);
    lemma_open_then_cancel(a0, a1, a2, opened);
}

} // verus!
