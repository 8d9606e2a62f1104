use vstd::prelude::*;
use crate::balance::{Balance, TokenBalance};
use crate::book::{OrderBook, resting_ok};
use crate::config::AccountConfig;
use crate::error::ExchangeError;
use crate::instrument::{Instrument, InstrumentKind, Side, Token};
use crate::latency::{AccountLatency, delay_of};
use crate::ledger::{available_in, book_count, book_reserved, books_count, books_reserved, lemma_absent_token, lemma_balance_update, lemma_books_count, lemma_books_reserved_bounds, lemma_keyed_sum, lemma_margin_bounds, lemma_side_change, lemma_side_change_count, margin_held, order_reserve, reserve_token, side_count, total_in, unique_tokens};
use crate::order::{COUNTER_SPAN, Cancelled, MACHINE_SPAN, MAX_ID_TIMESTAMP, MAX_PRICE, Open, Order, OrderId, compose_id, required_amount, required_of};
use crate::positions::{AccountPositions, PerpetualPosition, PositionDirectionMode, PositionRecord, holds};
use crate::settlement::side_token;
use crate::sums::{lemma_sum_insert, lemma_sum_push, lemma_sum_remove, lemma_sum_update};

verus! {

/// The books of an account and the state of its order-id generator.
#[derive(Clone, Debug)]
pub struct AccountOrders {
    pub machine_id: u64,
    pub last_ts: u64,
    pub counter: u64,
    pub books: Vec<OrderBook>,
    pub latency: AccountLatency,
}

impl AccountOrders {
    /// The last identifier handed out (or the floor below the first one).
    pub open spec fn id_floor(&self) -> int {
        compose_id(self.last_ts as int, self.machine_id as int, self.counter as int)
    }

    pub open spec fn ids_ok(&self) -> bool {
        &&& self.machine_id < MACHINE_SPAN
        &&& self.counter < COUNTER_SPAN
        &&& self.last_ts <= MAX_ID_TIMESTAMP
    }

    /// Whether no further identifier can be handed out at `timestamp_ms`.
    pub open spec fn exhausted(&self, timestamp_ms: int) -> bool {
        timestamp_ms > MAX_ID_TIMESTAMP || (timestamp_ms <= self.last_ts && self.counter == COUNTER_SPAN - 1
            && self.last_ts == MAX_ID_TIMESTAMP)
    }

    /// When an order sent at `client_ts` reaches the exchange: the latency
    /// model moves to the delay that `sample` selects, which is added to the
    /// client's time (saturating at the largest time).
    pub fn arrival_time(&mut self, client_ts: i64, sample: u64) -> (r: i64)
        requires
            old(self).latency.wf(),
        ensures
            final(self).latency.wf(),
            final(self).books == old(self).books,
            final(self).machine_id == old(self).machine_id,
            final(self).last_ts == old(self).last_ts,
            final(self).counter == old(self).counter,
            final(self).latency.current_value == delay_of(old(self).latency.fluctuation_mode,
                old(self).latency.minimum as int, old(self).latency.maximum as int, sample as int),
            r == if client_ts + final(self).latency.current_value > i64::MAX { i64::MAX as int }
                else { client_ts + final(self).latency.current_value },
    {
        let delay = self.latency.advance(sample);
        let t = client_ts as i128 + delay as i128;
        if t > i64::MAX as i128 { i64::MAX } else { t as i64 }
    }

    /// An empty ledger for `machine_id`.
    pub fn new(machine_id: u64, latency: AccountLatency) -> (r: AccountOrders)
        requires
            machine_id < MACHINE_SPAN,
        ensures
            r.ids_ok(),
            r.books@.len() == 0,
            r.machine_id == machine_id,
            r.latency == latency,
    {
        AccountOrders { machine_id, last_ts: 0, counter: 0, books: Vec::new(), latency }
    }

    /// The next identifier: later timestamps restart the counter, equal or
    /// earlier ones advance it. Every identifier is above all earlier ones.
    pub fn new_order_id(&mut self, timestamp_ms: u64) -> (r: Option<OrderId>)
        requires
            old(self).ids_ok(),
        ensures
            final(self).ids_ok(),
            final(self).books == old(self).books,
            final(self).machine_id == old(self).machine_id,
            final(self).latency == old(self).latency,
            r is None <==> old(self).exhausted(timestamp_ms as int),
            r is None ==> *final(self) == *old(self),
            r matches Some(id) ==> id.0 > old(self).id_floor() && id.0 == final(self).id_floor(),
    {
        if timestamp_ms > MAX_ID_TIMESTAMP {
            return None;
        }
        if timestamp_ms > self.last_ts {
            self.last_ts = timestamp_ms;
            self.counter = 0;
        } else if self.counter + 1 < COUNTER_SPAN {
            self.counter = self.counter + 1;
        } else if self.last_ts < MAX_ID_TIMESTAMP {
            self.last_ts = self.last_ts + 1;
            self.counter = 0;
        } else {
            return None;
        }
        Some(OrderId::new(self.last_ts, self.machine_id, self.counter))
    }
}

/// The simulated account: balances, books, positions and configuration.
#[derive(Clone, Debug)]
pub struct Account {
    pub exchange_timestamp: i64,
    pub config: AccountConfig,
    pub balances: Vec<TokenBalance>,
    pub positions: AccountPositions,
    pub orders: AccountOrders,
}

/// A perpetual position on `side` as the engine keeps it.
pub open spec fn perp_ok(p: PerpetualPosition, side: Side) -> bool {
    &&& p.meta.side == side
    &&& p.margin >= 0
    &&& p.meta.instrument.kind == InstrumentKind::Perpetual
    &&& p.meta.current_avg_price <= MAX_PRICE
    &&& p.meta.current_size > 0
}

/// Positions on `side`, at most one per instrument.
pub open spec fn perp_seq_ok(s: Seq<PerpetualPosition>, side: Side) -> bool {
    &&& forall|i: int| 0 <= i < s.len() ==> perp_ok(#[trigger] s[i], side)
    &&& forall|i: int, j: int| 0 <= i < j < s.len() ==> (#[trigger] s[i]).meta.instrument@ != (#[trigger] s[j]).meta.instrument@
}

/// Whether the positions of `ps` are as the engine keeps them.
pub open spec fn positions_ok(ps: AccountPositions) -> bool {
    &&& perp_seq_ok(ps.perpetual_pos_long@, Side::Buy)
    &&& perp_seq_ok(ps.perpetual_pos_short@, Side::Sell)
}

/// No instrument is held both long and short.
pub open spec fn net_exclusive(ps: AccountPositions) -> bool {
    forall|i: int, j: int| 0 <= i < ps.perpetual_pos_long@.len() && 0 <= j < ps.perpetual_pos_short@.len() ==>
        (#[trigger] ps.perpetual_pos_long@[i]).meta.instrument@ != (#[trigger] ps.perpetual_pos_short@[j]).meta.instrument@
}

impl Account {
    pub open spec fn lev(&self) -> int {
        self.config.account_leverage_rate as int
    }

    pub open spec fn reserved_of(&self, token: Seq<char>) -> int {
        books_reserved(self.orders.books@, token, self.lev())
    }

    /// For `token`: total == available + held by resting orders + held as margin.
    pub open spec fn conserved_at(&self, token: Seq<char>) -> bool {
        total_in(self.balances@, token) == available_in(self.balances@, token) + self.reserved_of(token)
            + margin_held(self.positions, token)
    }

    /// How many resting orders carry `id`.
    pub open spec fn order_count(&self, id: OrderId) -> int {
        books_count(self.orders.books@, id)
    }

    /// Whether some book holds an order with `id`.
    pub open spec fn has_order(&self, id: OrderId) -> bool {
        exists|i: int| 0 <= i < self.orders.books@.len() && (#[trigger] self.orders.books@[i]).contains_id(id)
    }

    /// Identifiers of resting orders are unique and none is above the last one handed out.
    pub open spec fn ids_ok(&self) -> bool {
        forall|id: OrderId| #[trigger] self.order_count(id) <= 1 && (self.order_count(id) > 0 ==> id.0 <= self.orders.id_floor())
    }

    /// `total - available - reserved - margin` for `token`.
    pub open spec fn gap(&self, token: Seq<char>) -> int {
        total_in(self.balances@, token) - available_in(self.balances@, token) - self.reserved_of(token)
            - margin_held(self.positions, token)
    }

    pub open spec fn wf(&self) -> bool {
        &&& self.core_wf()
        &&& forall|token: Seq<char>| #[trigger] self.conserved_at(token)
        &&& self.net_ok()
    }

    /// In net mode, no instrument is held in both directions.
    pub open spec fn net_ok(&self) -> bool {
        self.config.position_mode == PositionDirectionMode::NetMode ==> net_exclusive(self.positions)
    }

    /// Everything of `wf` but the per-token conservation.
    pub open spec fn core_wf(&self) -> bool {
        &&& self.config.account_leverage_rate >= 1
        &&& self.config.rates_ok()
        &&& unique_tokens(self.balances@)
        &&& forall|i: int| 0 <= i < self.balances@.len() ==> 0 <= (#[trigger] self.balances@[i]).balance.available
        &&& forall|i: int| 0 <= i < self.orders.books@.len() ==> (#[trigger] self.orders.books@[i]).wf()
            && self.orders.books@[i].instrument.kind == InstrumentKind::Perpetual
        &&& books_unique(self.orders.books@)
        &&& self.orders.ids_ok()
        &&& self.orders.latency.wf()
        &&& self.ids_ok()
        &&& positions_ok(self.positions)
    }

    /// The balance entry of `token`.
    pub fn find_balance(&self, token: &Token) -> (r: Option<usize>)
        ensures
            r is None ==> forall|i: int| 0 <= i < self.balances@.len() ==> (#[trigger] self.balances@[i]).token@ != token@,
            r matches Some(i) ==> i < self.balances@.len() && self.balances@[i as int].token@ == token@,
    {
        let mut i: usize = 0;
        while i < self.balances.len()
            invariant
                0 <= i <= self.balances@.len(),
                forall|j: int| 0 <= j < i ==> (#[trigger] self.balances@[j]).token@ != token@,
            decreases self.balances@.len() - i,
        {
            if self.balances[i].token.same(token) {
                return Some(i);
            }
            i += 1;
        }
        None
    }

    /// The book of `instrument`.
    pub fn find_book(&self, instrument: &Instrument) -> (r: Option<usize>)
        ensures
            r is None ==> forall|i: int| 0 <= i < self.orders.books@.len() ==> (#[trigger] self.orders.books@[i]).instrument@ != instrument@,
            r matches Some(i) ==> i < self.orders.books@.len() && self.orders.books@[i as int].instrument@ == instrument@,
    {
        let mut i: usize = 0;
        while i < self.orders.books.len()
            invariant
                0 <= i <= self.orders.books@.len(),
                forall|j: int| 0 <= j < i ==> (#[trigger] self.orders.books@[j]).instrument@ != instrument@,
            decreases self.orders.books@.len() - i,
        {
            if self.orders.books[i].instrument.same(instrument) {
                return Some(i);
            }
            i += 1;
        }
        None
    }

    /// The total and available amounts of `token` (zero without an entry).
    pub proof fn lemma_entry_amounts(&self, k: int)
        requires
            unique_tokens(self.balances@),
            0 <= k < self.balances@.len(),
        ensures
            total_in(self.balances@, self.balances@[k].token@) == self.balances@[k].balance.total,
            available_in(self.balances@, self.balances@[k].token@) == self.balances@[k].balance.available,
    {
        let tok = self.balances@[k].token@;
        lemma_keyed_sum(self.balances@, k,
            |b: TokenBalance| if b.token@ == tok { b.balance.total as int } else { 0 },
            |b: TokenBalance| b.balance.total as int);
        lemma_keyed_sum(self.balances@, k,
            |b: TokenBalance| if b.token@ == tok { b.balance.available as int } else { 0 },
            |b: TokenBalance| b.balance.available as int);
    }

    /// Every balance of a well-formed account has `0 <= available <= total`.
    pub proof fn lemma_balances_wf(&self)
        requires
            self.wf(),
        ensures
            forall|i: int| 0 <= i < self.balances@.len() ==> (#[trigger] self.balances@[i]).balance.wf(),
    {
        assert forall|i: int| 0 <= i < self.balances@.len() implies (#[trigger] self.balances@[i]).balance.wf() by {
            let tok = self.balances@[i].token@;
            self.lemma_entry_amounts(i);
            assert(self.conserved_at(tok));
            lemma_books_reserved_bounds(self.orders.books@, tok, self.lev());
            lemma_margin_bounds(self.positions.perpetual_pos_long@, tok);
            lemma_margin_bounds(self.positions.perpetual_pos_short@, tok);
        }
    }
}

/// No two books are for the same instrument.
pub open spec fn books_unique(books: Seq<OrderBook>) -> bool {
    forall|a: int, b: int| 0 <= a < b < books.len() ==> (#[trigger] books[a]).instrument@ != (#[trigger] books[b]).instrument@
}

pub proof fn lemma_books_unique_update(books: Seq<OrderBook>, j: int, nb: OrderBook)
    requires
        books_unique(books),
        0 <= j < books.len(),
        nb.instrument == books[j].instrument,
    ensures
        books_unique(books.update(j, nb)),
{
    let u = books.update(j, nb);
    assert forall|a: int, b: int| 0 <= a < b < u.len() implies (#[trigger] u[a]).instrument@ != (#[trigger] u[b]).instrument@ by {
        assert(books[a].instrument@ != books[b].instrument@);
    }
}

/// Replacing book `j` moves what the books hold back by the change of that book.
pub proof fn lemma_book_change(books: Seq<OrderBook>, j: int, nb: OrderBook, token: Seq<char>, lev: int)
    requires
        0 <= j < books.len(),
    ensures
        books_reserved(books.update(j, nb), token, lev)
            == books_reserved(books, token, lev) - book_reserved(books[j], token, lev) + book_reserved(nb, token, lev),
{
    lemma_sum_update(books, j, nb, |b: OrderBook| book_reserved(b, token, lev));
}

impl Account {
    /// Sets the amounts of balance `k`, keeping its token and timestamp.
    pub(crate) fn set_amounts(&mut self, k: usize, total: i64, available: i64)
        requires
            k < old(self).balances@.len(),
        ensures
            final(self).balances@ == old(self).balances@.update(k as int, TokenBalance {
                token: old(self).balances@[k as int].token,
                balance: Balance { time: old(self).balances@[k as int].balance.time, total, available },
            }),
            final(self).orders == old(self).orders,
            final(self).positions == old(self).positions,
            final(self).config == old(self).config,
            final(self).exchange_timestamp == old(self).exchange_timestamp,
    {
        let nb = TokenBalance {
            token: self.balances[k].token.duplicate(),
            balance: Balance { time: self.balances[k].balance.time, total, available },
        };
        self.balances.set(k, nb);
    }

    /// The index of the book of `instrument`, added empty when there is none.
    pub(crate) fn book_index(&mut self, instrument: &Instrument) -> (j: usize)
        requires
            old(self).wf(),
            instrument.kind == InstrumentKind::Perpetual,
        ensures
            final(self).wf(),
            j < final(self).orders.books@.len(),
            final(self).orders.books@[j as int].instrument@ == instrument@,
            final(self).balances == old(self).balances,
            final(self).positions == old(self).positions,
            final(self).config == old(self).config,
            final(self).orders.id_floor() == old(self).orders.id_floor(),
            forall|token: Seq<char>| #[trigger] final(self).reserved_of(token) == old(self).reserved_of(token),
            forall|id: OrderId| #[trigger] final(self).order_count(id) == old(self).order_count(id),
            final(self).orders.books@ == old(self).orders.books@
                || final(self).orders.books@ == old(self).orders.books@.push(OrderBook {
                    instrument: *instrument, bids: final(self).orders.books@[j as int].bids,
                    asks: final(self).orders.books@[j as int].asks }),
            final(self).orders.books@[j as int].bids@.len() + final(self).orders.books@[j as int].asks@.len() == 0
                || final(self).orders.books@ == old(self).orders.books@,
    {
        match self.find_book(instrument) {
            Some(j) => j,
            None => {
                let ghost pre = *self;
                let nb = OrderBook::new(instrument.duplicate());
                self.orders.books.push(nb);
                let j = self.orders.books.len() - 1;
                proof {
                    assert forall|token: Seq<char>| #[trigger] self.reserved_of(token) == pre.reserved_of(token) by {
                        lemma_sum_push(pre.orders.books@, nb, |b: OrderBook| book_reserved(b, token, self.lev()));
                    }
                    assert forall|token: Seq<char>| #[trigger] self.conserved_at(token) by {
                        assert(pre.conserved_at(token));
                        assert(self.reserved_of(token) == pre.reserved_of(token));
                    }
                    assert forall|id: OrderId| #[trigger] self.order_count(id) == pre.order_count(id) by {
                        lemma_sum_push(pre.orders.books@, nb, |b: OrderBook| book_count(b, id));
                        crate::ledger::lemma_book_count(nb, id);
                    }
                    assert forall|i: int| 0 <= i < self.orders.books@.len() implies (#[trigger] self.orders.books@[i]).wf()
                        && self.orders.books@[i].instrument.kind == InstrumentKind::Perpetual by {
                        if i < pre.orders.books@.len() {
                            assert(pre.orders.books@[i] == self.orders.books@[i]);
                        }
                    }
                    assert forall|a: int, b: int| 0 <= a < b < self.orders.books@.len() implies
                        (#[trigger] self.orders.books@[a]).instrument@ != (#[trigger] self.orders.books@[b]).instrument@ by {
                        assert(self.orders.books@[a] == pre.orders.books@[a]);
                        if b < pre.orders.books@.len() {
                            assert(self.orders.books@[b] == pre.orders.books@[b]);
                        }
                    }
                }
                j
            },
        }
    }
}

impl Account {
    /// Puts `order` on book `j` and holds back what it requires from balance `k`.
    pub(crate) fn rest_order(&mut self, j: usize, k: usize, order: Order<Open>)
        requires
            old(self).wf(),
            j < old(self).orders.books@.len(),
            resting_ok(order, order.side, old(self).orders.books@[j as int].instrument),
            k < old(self).balances@.len(),
            old(self).balances@[k as int].token@ == reserve_token(order),
            required_amount(order.side, order.state.price as int, order.state.remaining(), old(self).lev())
                <= old(self).balances@[k as int].balance.available,
            order.state.id.0 <= old(self).orders.id_floor(),
            old(self).order_count(order.state.id) == 0,
        ensures
            final(self).wf(),
            final(self).balances@ == old(self).balances@.update(k as int, TokenBalance {
                token: old(self).balances@[k as int].token,
                balance: Balance {
                    time: old(self).balances@[k as int].balance.time,
                    total: old(self).balances@[k as int].balance.total,
                    available: (old(self).balances@[k as int].balance.available - required_amount(
                        order.side, order.state.price as int, order.state.remaining(), old(self).lev())) as i64,
                },
            }),
            final(self).positions == old(self).positions,
            final(self).config == old(self).config,
            final(self).orders.id_floor() == old(self).orders.id_floor(),
            final(self).orders.books@.len() == old(self).orders.books@.len(),
            final(self).order_count(order.state.id) == 1,
            forall|id: OrderId| id != order.state.id ==> #[trigger] final(self).order_count(id) == old(self).order_count(id),
            exists|p: int| 0 <= p <= old(self).orders.books@[j as int].side_seq(order.side).len()
                && final(self).orders.books@[j as int].side_seq(order.side)
                    == old(self).orders.books@[j as int].side_seq(order.side).insert(p, order),
    {
        let ghost pre = *self;
        let ghost lev = self.lev();
        let amount = required_of(order.side, order.state.price, order.state.size - order.state.filled_quantity,
            self.config.account_leverage_rate);
        let total = self.balances[k].balance.total;
        let available = self.balances[k].balance.available;
        self.set_amounts(k, total, available - amount);
        let mut book = self.orders.books.remove(j);
        let ghost b0 = book;
        book.insert(order);
        let ghost b1 = book;
        self.orders.books.insert(j, book);
        proof {
            let side = order.side;
            assert(self.orders.books@ =~= pre.orders.books@.update(j as int, b1));
            let p = choose|p: int| 0 <= p <= b0.side_seq(side).len()
                && b1.side_seq(side) == b0.side_seq(side).insert(p, order);
            let nb = self.balances@[k as int];
            assert forall|t: Seq<char>| #[trigger] self.conserved_at(t) by {
                assert(pre.conserved_at(t));
                lemma_balance_update(pre.balances@, k as int, nb, t);
                lemma_book_change(pre.orders.books@, j as int, b1, t, lev);
                lemma_side_change(b0, b1, side, b0.side_seq(side).insert(p, order), t, lev);
                lemma_sum_insert(b0.side_seq(side), p, order, |o: Order<Open>| order_reserve(o, t, lev));
            }
            assert forall|id: OrderId| #[trigger] self.order_count(id)
                == pre.order_count(id) + if id == order.state.id { 1int } else { 0int } by {
                lemma_sum_update(pre.orders.books@, j as int, b1, |b: OrderBook| book_count(b, id));
                lemma_side_change_count(b0, b1, side, b0.side_seq(side).insert(p, order), id);
                lemma_sum_insert(b0.side_seq(side), p, order, |o: Order<Open>| if o.state.id == id { 1int } else { 0int });
            }
            assert forall|id: OrderId| #[trigger] self.order_count(id) <= 1
                && (self.order_count(id) > 0 ==> id.0 <= self.orders.id_floor()) by {
                assert(pre.order_count(id) <= 1);
                assert(pre.order_count(id) > 0 ==> id.0 <= pre.orders.id_floor());
            }
            assert forall|i: int| 0 <= i < self.balances@.len() implies 0 <= (#[trigger] self.balances@[i]).balance.available by {
                if i != k {
                    assert(self.balances@[i] == pre.balances@[i]);
                }
            }
            assert(unique_tokens(self.balances@)) by {
                assert forall|a: int, c: int| 0 <= a < c < self.balances@.len() implies
                    (#[trigger] self.balances@[a]).token@ != (#[trigger] self.balances@[c]).token@ by {
                    assert(pre.balances@[a].token@ != pre.balances@[c].token@);
                }
            }
            assert forall|i: int| 0 <= i < self.orders.books@.len() implies (#[trigger] self.orders.books@[i]).wf()
                && self.orders.books@[i].instrument.kind == InstrumentKind::Perpetual by {
                if i != j {
                    assert(self.orders.books@[i] == pre.orders.books@[i]);
                }
            }
            assert(self.orders.books@[j as int] == b1);
            lemma_books_unique_update(pre.orders.books@, j as int, b1);
        }
    }
}

/// What `cancel_order` does with `id`, taking the account from `a0` to `a1`
/// and answering `r`: an order resting under `id` is cancelled, leaves every
/// book, and what it held back returns to the available balance; without one
/// the answer is `OrderNotFound` and nothing changes.
pub open spec fn cancel_effect(a0: Account, id: OrderId, r: Result<Order<Cancelled>, ExchangeError>, a1: Account) -> bool {
    &&& a1.wf()
    &&& (r is Err <==> !a0.has_order(id))
    &&& (r is Err ==> r == Err::<Order<Cancelled>, ExchangeError>(ExchangeError::OrderNotFound(id)) && a1 == a0)
    &&& (r is Ok ==> !a1.has_order(id))
    &&& (r matches Ok(c) ==> c.state.id == id && c.side == a0.order_with_id(id).side
        && c.instrument == a0.order_with_id(id).instrument && c.cid == a0.order_with_id(id).cid
        && c.exchange == a0.order_with_id(id).exchange && c.timestamp == a0.order_with_id(id).timestamp)
    &&& (r is Ok ==> forall|t: Seq<char>| #[trigger] available_in(a1.balances@, t)
        == available_in(a0.balances@, t) + order_reserve(a0.order_with_id(id), t, a0.lev()))
    &&& a1.config == a0.config
    &&& (forall|x: OrderId| #[trigger] a1.order_count(x) <= a0.order_count(x))
    &&& a1.positions == a0.positions
    &&& a1.orders.id_floor() == a0.orders.id_floor()
    &&& (forall|t: Seq<char>| #[trigger] total_in(a1.balances@, t) == total_in(a0.balances@, t))
}

impl Account {
    /// Moves `amount` of `token`, held back by nothing any more, into the
    /// available amount of its balance.
    pub(crate) fn release(&mut self, token: &Token, amount: i64)
        requires
            old(self).core_wf(),
            amount >= 0,
            forall|t: Seq<char>| #[trigger] old(self).gap(t) == if t == token@ { amount as int } else { 0int },
        ensures
            final(self).core_wf(),
            forall|t: Seq<char>| #[trigger] final(self).conserved_at(t),
            final(self).orders == old(self).orders,
            final(self).positions == old(self).positions,
            final(self).config == old(self).config,
            forall|t: Seq<char>| #[trigger] total_in(final(self).balances@, t) == total_in(old(self).balances@, t),
            forall|t: Seq<char>| #[trigger] available_in(final(self).balances@, t)
                == available_in(old(self).balances@, t) + if t == token@ { amount as int } else { 0int },
            final(self).balances@.len() == old(self).balances@.len(),
            forall|i: int| 0 <= i < final(self).balances@.len() ==> (#[trigger] final(self).balances@[i]).token
                == old(self).balances@[i].token,
    {
        let ghost pre = *self;
        let ghost tok = token@;
        proof {
            lemma_books_reserved_bounds(self.orders.books@, tok, self.lev());
            lemma_margin_bounds(self.positions.perpetual_pos_long@, tok);
            lemma_margin_bounds(self.positions.perpetual_pos_short@, tok);
        }
        match self.find_balance(token) {
            None => {
                proof {
                    lemma_absent_token(self.balances@, tok);
                    assert(self.gap(tok) == amount);
                    assert forall|t: Seq<char>| #[trigger] self.conserved_at(t) by {
                        assert(self.gap(t) == 0);
                    }
                }
            },
            Some(k) => {
                proof {
                    self.lemma_entry_amounts(k as int);
                    assert(self.gap(tok) == amount);
                }
                let total = self.balances[k].balance.total;
                let available = self.balances[k].balance.available;
                self.set_amounts(k, total, available + amount);
                proof {
                    let nb = self.balances@[k as int];
                    assert forall|t: Seq<char>| #[trigger] self.conserved_at(t) by {
                        assert(pre.gap(t) == if t == tok { amount as int } else { 0int });
                        lemma_balance_update(pre.balances@, k as int, nb, t);
                    }
                    assert forall|t: Seq<char>| #[trigger] total_in(self.balances@, t) == total_in(pre.balances@, t) by {
                        lemma_balance_update(pre.balances@, k as int, nb, t);
                    }
                    assert forall|t: Seq<char>| #[trigger] available_in(self.balances@, t)
                        == available_in(pre.balances@, t) + if t == tok { amount as int } else { 0int } by {
                        lemma_balance_update(pre.balances@, k as int, nb, t);
                    }
                    assert forall|i: int| 0 <= i < self.balances@.len() implies 0 <= (#[trigger] self.balances@[i]).balance.available by {
                        if i != k {
                            assert(self.balances@[i] == pre.balances@[i]);
                        }
                    }
                    assert(unique_tokens(self.balances@)) by {
                        assert forall|a: int, c: int| 0 <= a < c < self.balances@.len() implies
                            (#[trigger] self.balances@[a]).token@ != (#[trigger] self.balances@[c]).token@ by {
                            assert(pre.balances@[a].token@ != pre.balances@[c].token@);
                        }
                    }
                    assert forall|x: OrderId| #[trigger] self.order_count(x) <= 1
                        && (self.order_count(x) > 0 ==> x.0 <= self.orders.id_floor()) by {
                        assert(pre.order_count(x) <= 1);
                        assert(pre.order_count(x) > 0 ==> x.0 <= pre.orders.id_floor());
                    }
                }
            },
        }
    }

    /// Cancels the resting order `id` and returns what it held back to the
    /// available balance.
    pub fn cancel_order(&mut self, id: OrderId) -> (r: Result<Order<Cancelled>, ExchangeError>)
        requires
            old(self).wf(),
        ensures
            cancel_effect(*old(self), id, r, *final(self)),
    {
        let ghost pre = *self;
        let ghost lev = self.lev();
        let mut j: usize = 0;
        while j < self.orders.books.len() && !self.orders.books[j].find_id(id)
            invariant
                0 <= j <= self.orders.books@.len(),
                forall|i: int| 0 <= i < j ==> !(#[trigger] self.orders.books@[i]).contains_id(id),
            decreases self.orders.books@.len() - j,
        {
            j += 1;
        }
        if j == self.orders.books.len() {
            return Err(ExchangeError::OrderNotFound(id));
        }
        let mut book = self.orders.books.remove(j);
        let ghost b0 = book;
        let removed = book.remove_by_id(id);
        let ghost b1 = book;
        self.orders.books.insert(j, book);
        match removed {
            None => {
                proof {
                    assert(false);
                }
                Err(ExchangeError::OrderNotFound(id))
            },
            Some(o) => {
                let ghost side = o.side;
                proof {
                    assert(self.orders.books@ =~= pre.orders.books@.update(j as int, b1));
                    let p = choose|p: int| 0 <= p < b0.side_seq(side).len() && b0.side_seq(side)[p] == o
                        && b1.side_seq(side) == b0.side_seq(side).remove(p);
                    assert(resting_ok(b0.side_seq(side)[p], side, b0.instrument));
                    assert forall|t: Seq<char>| #[trigger] self.gap(t)
                        == pre.gap(t) + order_reserve(o, t, lev) by {
                        lemma_book_change(pre.orders.books@, j as int, b1, t, lev);
                        lemma_side_change(b0, b1, side, b0.side_seq(side).remove(p), t, lev);
                        lemma_sum_remove(b0.side_seq(side), p, |x: Order<Open>| order_reserve(x, t, lev));
                    }
                    assert forall|x: OrderId| #[trigger] self.order_count(x)
                        == pre.order_count(x) - if x == id { 1int } else { 0int } by {
                        lemma_sum_update(pre.orders.books@, j as int, b1, |b: OrderBook| book_count(b, x));
                        lemma_side_change_count(b0, b1, side, b0.side_seq(side).remove(p), x);
                        lemma_sum_remove(b0.side_seq(side), p, |y: Order<Open>| if y.state.id == x { 1int } else { 0int });
                    }
                    lemma_books_count(pre.orders.books@, id);
                    assert(pre.order_count(id) <= 1);
                    assert(self.order_count(id) == 0);
                    lemma_books_count(self.orders.books@, id);
                    assert forall|x: OrderId| #[trigger] self.order_count(x) <= 1
                        && (self.order_count(x) > 0 ==> x.0 <= self.orders.id_floor()) by {
                        assert(pre.order_count(x) <= 1);
                        assert(pre.order_count(x) > 0 ==> x.0 <= pre.orders.id_floor());
                    }
                    assert forall|i: int| 0 <= i < self.orders.books@.len() implies (#[trigger] self.orders.books@[i]).wf()
                        && self.orders.books@[i].instrument.kind == InstrumentKind::Perpetual by {
                        if i != j {
                            assert(self.orders.books@[i] == pre.orders.books@[i]);
                        }
                    }
                    lemma_required_nonneg(o, lev);
                    lemma_books_unique_update(pre.orders.books@, j as int, b1);
                }
                let amount = required_of(o.side, o.state.price, o.state.size - o.state.filled_quantity,
                    self.config.account_leverage_rate);
                let token = match o.side {
                    Side::Buy => &o.instrument.quote,
                    Side::Sell => &o.instrument.base,
                };
                proof {
                    assert forall|t: Seq<char>| #[trigger] self.gap(t) == if t == token@ { amount as int } else { 0int } by {
                        assert(pre.conserved_at(t));
                    }
                    let p = choose|p: int| 0 <= p < b0.side_seq(side).len() && b0.side_seq(side)[p] == o
                        && b1.side_seq(side) == b0.side_seq(side).remove(p);
                    assert(pre.orders.books@[j as int] == b0);
                    match side {
                        Side::Buy => assert(in_side(b0.bids@, o)),
                        Side::Sell => assert(in_side(b0.asks@, o)),
                    }
                    assert(in_book(pre.orders.books@[j as int], o));
                    assert(pre.in_books(o));
                    pre.lemma_unique_holder(pre.order_with_id(id), o);
                    assert(token@ == reserve_token(o));
                }
                let ghost mid = *self;
                self.release(token, amount);
                proof {
                    assert forall|x: OrderId| #[trigger] self.order_count(x) <= pre.order_count(x) by {
                        assert(self.order_count(x) == mid.order_count(x));
                    }
                    lemma_books_count(self.orders.books@, id);
                }
                Ok(o.to_cancelled())
            },
        }
    }
}

/// In a well-formed account, for every token, the total equals the available
/// amount plus what resting orders hold back plus the margin of positions.
/// Every operation of the account keeps it well formed.
pub proof fn lemma_reservation_conservation(a: Account, token: Seq<char>)
    requires
        a.wf(),
    ensures
        total_in(a.balances@, token) == available_in(a.balances@, token) + a.reserved_of(token)
            + margin_held(a.positions, token),
        a.reserved_of(token) >= 0,
        margin_held(a.positions, token) >= 0,
{
    assert(a.conserved_at(token));
    lemma_books_reserved_bounds(a.orders.books@, token, a.lev());
    lemma_margin_bounds(a.positions.perpetual_pos_long@, token);
    lemma_margin_bounds(a.positions.perpetual_pos_short@, token);
}

/// In net mode a well-formed account never holds a perpetual instrument both
/// long and short.
pub proof fn lemma_net_mode_one_direction(a: Account, instrument: (Seq<char>, Seq<char>, InstrumentKind))
    requires
        a.wf(),
        a.config.position_mode == PositionDirectionMode::NetMode,
        instrument.2 == InstrumentKind::Perpetual,
    ensures
        !(a.positions.long_held(instrument) && a.positions.short_held(instrument)),
{
    if a.positions.long_held(instrument) && a.positions.short_held(instrument) {
        let l = a.positions.perpetual_pos_long@;
        let s = a.positions.perpetual_pos_short@;
        let i = choose|i: int| 0 <= i < l.len() && (#[trigger] l[i]).spec_meta().instrument@ == instrument;
        let j = choose|j: int| 0 <= j < s.len() && (#[trigger] s[j]).spec_meta().instrument@ == instrument;
        assert(l[i].meta.instrument@ != s[j].meta.instrument@);
    }
}

/// Whether `o` is one of the orders of `s`.
pub open spec fn in_side(s: Seq<Order<Open>>, o: Order<Open>) -> bool {
    exists|k: int| 0 <= k < s.len() && #[trigger] s[k] == o
}

/// Whether `o` rests in book `b`.
pub open spec fn in_book(b: OrderBook, o: Order<Open>) -> bool {
    in_side(b.bids@, o) || in_side(b.asks@, o)
}

impl Account {
    /// Whether `o` rests in some book.
    pub open spec fn in_books(&self, o: Order<Open>) -> bool {
        exists|j: int| 0 <= j < self.orders.books@.len() && #[trigger] in_book(self.orders.books@[j], o)
    }

    /// The resting order that carries `id` (meaningful when one does).
    pub open spec fn order_with_id(&self, id: OrderId) -> Order<Open> {
        choose|o: Order<Open>| self.in_books(o) && o.state.id == id
    }

    /// Ids being unique, two resting orders with the same id are the same order.
    pub proof fn lemma_unique_holder(&self, o1: Order<Open>, o2: Order<Open>)
        requires
            self.wf(),
            self.in_books(o1),
            self.in_books(o2),
            o1.state.id == o2.state.id,
        ensures
            o1 == o2,
    {
        let id = o1.state.id;
        let books = self.orders.books@;
        let j1 = choose|j: int| 0 <= j < books.len() && #[trigger] in_book(books[j], o1);
        let j2 = choose|j: int| 0 <= j < books.len() && #[trigger] in_book(books[j], o2);
        let b1_bid = in_side(books[j1].bids@, o1);
        let b2_bid = in_side(books[j2].bids@, o2);
        let s1 = if b1_bid { Side::Buy } else { Side::Sell };
        let s2 = if b2_bid { Side::Buy } else { Side::Sell };
        let k1 = choose|k: int| 0 <= k < books[j1].side_seq(s1).len() && #[trigger] books[j1].side_seq(s1)[k] == o1;
        let k2 = choose|k: int| 0 <= k < books[j2].side_seq(s2).len() && #[trigger] books[j2].side_seq(s2)[k] == o2;
        lemma_books_count(books, id);
        assert(self.order_count(id) <= 1);
        let fo = |y: Order<Open>| if y.state.id == id { 1int } else { 0int };
        let fb = |b: OrderBook| book_count(b, id);
        // each holder's book counts the id at least once
        assert forall|j: int, side: Side, k: int| 0 <= j < books.len() && 0 <= k < books[j].side_seq(side).len()
            && (#[trigger] books[j].side_seq(side)[k]).state.id == id implies side_count(books[j].side_seq(side), id) >= 1 by {
            crate::sums::lemma_sum_nonneg(books[j].side_seq(side), fo);
            assert(fo(books[j].side_seq(side)[k]) == 1);
        }
        assert forall|k: int| 0 <= k < books.len() implies fb(#[trigger] books[k]) >= 0 by {
            crate::ledger::lemma_book_count(books[k], id);
        }
        crate::ledger::lemma_book_count(books[j1], id);
        crate::ledger::lemma_book_count(books[j2], id);
        if j1 != j2 {
            crate::sums::lemma_sum_two(books, fb, j1, j2);
            assert(false);
        } else if s1 != s2 {
            assert(book_count(books[j1], id) >= 2);
            assert(false);
        } else if k1 != k2 {
            let sq = books[j1].side_seq(s1);
            assert forall|k: int| 0 <= k < sq.len() implies fo(#[trigger] sq[k]) >= 0 by {}
            crate::sums::lemma_sum_two(sq, fo, k1, k2);
            assert(fo(sq[k1]) == 1 && fo(sq[k2]) == 1);
            assert(book_count(books[j1], id) >= 2);
            assert(false);
        }
    }
}

/// Opening a resting order and then cancelling it gives back the total and
/// available amounts of every token that the account had before: what
/// `open_order` takes from the available balance is what `cancel_order`
/// returns for the order that it finds under the same id.
pub proof fn lemma_open_then_cancel(a0: Account, a1: Account, a2: Account, o: Order<Open>)
    requires
        a0.wf(),
        a1.config == a0.config,
        // what `open_order` ensures of the resting order `o` that it accepted
        o.state.filled_quantity == 0,
        forall|t: Seq<char>| #[trigger] total_in(a1.balances@, t) == total_in(a0.balances@, t),
        forall|t: Seq<char>| #[trigger] available_in(a1.balances@, t) == available_in(a0.balances@, t)
            - if t == side_token(o.instrument, o.side) {
                required_amount(o.side, o.state.price as int, o.state.size as int, a0.lev())
            } else {
                0int
            },
        a1.order_with_id(o.state.id) == o,
        // what `cancel_order` ensures when it cancels `o.state.id`
        forall|t: Seq<char>| #[trigger] total_in(a2.balances@, t) == total_in(a1.balances@, t),
        forall|t: Seq<char>| #[trigger] available_in(a2.balances@, t) == available_in(a1.balances@, t)
            + order_reserve(a1.order_with_id(o.state.id), t, a1.lev()),
    ensures
        forall|t: Seq<char>| #[trigger] total_in(a2.balances@, t) == total_in(a0.balances@, t),
        forall|t: Seq<char>| #[trigger] available_in(a2.balances@, t) == available_in(a0.balances@, t),
{
    assert forall|t: Seq<char>| #[trigger] available_in(a2.balances@, t) == available_in(a0.balances@, t) by {
        assert(available_in(a1.balances@, t) == available_in(a0.balances@, t)
            - if t == side_token(o.instrument, o.side) {
                required_amount(o.side, o.state.price as int, o.state.size as int, a0.lev())
            } else {
                0int
            });
        assert(available_in(a2.balances@, t) == available_in(a1.balances@, t) + order_reserve(o, t, a1.lev()));
        match o.side {
            Side::Buy => {},
            Side::Sell => {},
        }
    }
    assert forall|t: Seq<char>| #[trigger] total_in(a2.balances@, t) == total_in(a0.balances@, t) by {
        assert(total_in(a2.balances@, t) == total_in(a1.balances@, t));
        assert(total_in(a1.balances@, t) == total_in(a0.balances@, t));
    }
}

/// The token in which a position's margin is held.
pub open spec fn margin_token_of(p: PerpetualPosition) -> Seq<char> {
    crate::ledger::margin_token(p)
}

pub proof fn lemma_required_nonneg(o: Order<Open>, lev: int)
    requires
        lev >= 1,
        o.state.filled_quantity <= o.state.size,
    ensures
        required_amount(o.side, o.state.price as int, o.state.remaining(), lev) >= 0,
{
    crate::order::lemma_required_monotone(o.side, o.state.price as int, 0, o.state.remaining(), lev);
}

} // verus!
