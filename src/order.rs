use vstd::prelude::*;
use crate::instrument::{Exchange, Instrument, Side, Token};

verus! {

/// How an order executes.
#[derive(Copy, Clone, Debug, PartialEq, Eq, Hash, Structural)]
pub enum OrderKind {
    Market,
    Limit,
    ImmediateOrCancel,
    FillOrKill,
    GoodTilCancelled,
}

impl OrderKind {
    /// The kind's display name.
    pub fn as_str(&self) -> &'static str {
        match self {
            OrderKind::Market => "market",
            OrderKind::Limit => "limit",
            OrderKind::ImmediateOrCancel => "immediate_or_cancel (IOC)",
            OrderKind::FillOrKill => "fill_or_kill (FOK)",
            OrderKind::GoodTilCancelled => "good_til_cancelled (GTC)",
        }
    }
}

/// Whether an order rested in the book (maker) or crossed it (taker).
#[derive(Copy, Clone, Debug, PartialEq, Eq, Hash, Structural)]
pub enum OrderRole {
    Maker,
    Taker,
}

/// A free-form tag that the client may attach to an order.
#[derive(Clone, Debug, PartialEq, Eq, Hash)]
pub struct ClientOrderId(pub Option<String>);

impl ClientOrderId {
    /// A copy that is equal to `self`.
    pub fn duplicate(&self) -> (r: ClientOrderId)
        ensures
            r == *self,
    {
        match &self.0 {
            Some(s) => ClientOrderId(Some(s.clone())),
            None => ClientOrderId(None),
        }
    }
}

/// Bits below the machine id in an [`OrderId`].
pub const COUNTER_SPAN: u64 = 4096;

/// Bits below the timestamp in an [`OrderId`].
pub const MACHINE_SPAN: u64 = 1024;

/// Largest timestamp (in milliseconds) that an [`OrderId`] can carry.
pub const MAX_ID_TIMESTAMP: u64 = 4398046511103;

/// An exchange-assigned order identifier: `(timestamp_ms << 22) | (machine_id << 12) | counter`.
#[derive(Copy, Clone, Debug, PartialEq, Eq, Hash, Structural)]
pub struct OrderId(pub u64);

pub open spec fn compose_id(timestamp_ms: int, machine_id: int, counter: int) -> int {
    (timestamp_ms * MACHINE_SPAN + machine_id) * COUNTER_SPAN + counter
}

impl OrderId {
    /// Packs a timestamp, a machine id and a counter into one identifier.
    pub fn new(timestamp_ms: u64, machine_id: u64, counter: u64) -> (r: OrderId)
        requires
            timestamp_ms <= MAX_ID_TIMESTAMP,
            machine_id < MACHINE_SPAN,
            counter < COUNTER_SPAN,
        ensures
            r.0 == compose_id(timestamp_ms as int, machine_id as int, counter as int),
    {
        OrderId((timestamp_ms * MACHINE_SPAN + machine_id) * COUNTER_SPAN + counter)
    }
}

/// Identifiers of one machine grow with the timestamp, then with the counter.
pub proof fn lemma_compose_id_increases(t1: int, c1: int, t2: int, c2: int, m: int)
    requires
        0 <= m < MACHINE_SPAN,
        0 <= c1 < COUNTER_SPAN,
        0 <= c2 < COUNTER_SPAN,
        t1 < t2 || (t1 == t2 && c1 < c2),
    ensures
        compose_id(t1, m, c1) < compose_id(t2, m, c2),
{
}

/// An order of the client's, in the state `State`.
#[derive(Clone, Debug, PartialEq, Eq)]
pub struct Order<State> {
    pub exchange: Exchange,
    pub instrument: Instrument,
    pub timestamp: i64,
    pub cid: ClientOrderId,
    pub side: Side,
    pub state: State,
}

/// A client's request to open an order.
#[derive(Copy, Clone, Debug, PartialEq, Eq, Structural)]
pub struct RequestOpen {
    pub kind: OrderKind,
    pub price: u64,
    pub size: u64,
    pub reduce_only: bool,
}

/// Accepted by the exchange, not yet given an id.
#[derive(Copy, Clone, Debug, PartialEq, Eq, Hash, Structural)]
pub struct RealPending;

/// A client's request to cancel the order with this id.
#[derive(Copy, Clone, Debug, PartialEq, Eq, Hash, Structural)]
pub struct RequestCancel {
    pub id: OrderId,
}

/// An order resting in the book.
#[derive(Copy, Clone, Debug, PartialEq, Eq, Structural)]
pub struct Open {
    pub id: OrderId,
    pub kind: OrderKind,
    pub price: u64,
    pub size: u64,
    pub filled_quantity: u64,
    pub order_role: OrderRole,
}

/// An order whose whole size has been filled.
#[derive(Copy, Clone, Debug, PartialEq, Eq, Structural)]
pub struct FullyFill {
    pub id: OrderId,
    pub price: u64,
    pub size: u64,
}

/// An order of which a part has been filled.
#[derive(Copy, Clone, Debug, PartialEq, Eq, Structural)]
pub struct PartialFill {
    pub id: OrderId,
    pub price: u64,
    pub size: u64,
}

/// An order that was cancelled.
#[derive(Copy, Clone, Debug, PartialEq, Eq, Hash, Structural)]
pub struct Cancelled {
    pub id: OrderId,
}

impl RequestCancel {
    pub fn new(id: OrderId) -> (r: RequestCancel)
        ensures
            r.id == id,
    {
        RequestCancel { id }
    }
}

impl Cancelled {
    pub fn new(id: OrderId) -> (r: Cancelled)
        ensures
            r.id == id,
    {
        Cancelled { id }
    }
}

impl Open {
    pub open spec fn remaining(&self) -> int {
        self.size - self.filled_quantity
    }

    /// `size - filled_quantity`.
    pub fn remaining_quantity(&self) -> (r: u64)
        requires
            self.filled_quantity <= self.size,
        ensures
            r == self.remaining(),
    {
        self.size - self.filled_quantity
    }
}

/// The amount that an order of this side, price and size holds back from the
/// account: `price * size / leverage` of the quote token for a buy, `size` of
/// the base token for a sell.
pub open spec fn required_amount(side: Side, price: int, size: int, leverage: int) -> int {
    match side {
        Side::Buy => price * size / leverage,
        Side::Sell => size,
    }
}

/// Largest price that an order may carry.
pub const MAX_PRICE: u64 = 1_000_000_000_000;

/// Largest size that an order may carry.
pub const MAX_SIZE: u64 = 1_000_000;

/// Price and size small enough that every amount derived from them fits an `i64`.
pub open spec fn in_range(price: int, size: int) -> bool {
    0 <= price <= MAX_PRICE && 0 <= size <= MAX_SIZE
}

/// `price * size / leverage`, or `size`, as [`required_amount`] says.
pub fn required_of(side: Side, price: u64, size: u64, leverage: u64) -> (r: i64)
    requires
        in_range(price as int, size as int),
        leverage >= 1,
    ensures
        r == required_amount(side, price as int, size as int, leverage as int),
        0 <= r <= MAX_PRICE * MAX_SIZE,
{
    match side {
        Side::Buy => {
            proof {
                vstd::arithmetic::mul::lemma_mul_upper_bound(
                    price as int, MAX_PRICE as int, size as int, MAX_SIZE as int);
                vstd::arithmetic::div_mod::lemma_div_is_ordered_by_denominator(
                    (price * size) as int, 1, leverage as int);
                vstd::arithmetic::div_mod::lemma_div_basics((price * size) as int);
                vstd::arithmetic::div_mod::lemma_div_pos_is_pos((price * size) as int, leverage as int);
            }
            ((price * size) / leverage) as i64
        },
        Side::Sell => size as i64,
    }
}

/// The amount held back grows with the size.
pub proof fn lemma_required_monotone(side: Side, price: int, s1: int, s2: int, leverage: int)
    requires
        0 <= price,
        0 <= s1 <= s2,
        leverage >= 1,
    ensures
        0 <= required_amount(side, price, s1, leverage) <= required_amount(side, price, s2, leverage),
{
    if side == Side::Buy {
        vstd::arithmetic::mul::lemma_mul_inequality(s1, s2, price);
        vstd::arithmetic::mul::lemma_mul_is_commutative(s1, price);
        vstd::arithmetic::mul::lemma_mul_is_commutative(s2, price);
        vstd::arithmetic::div_mod::lemma_div_is_ordered(price * s1, price * s2, leverage);
        vstd::arithmetic::mul::lemma_mul_nonnegative(price, s1);
        vstd::arithmetic::div_mod::lemma_div_pos_is_pos(price * s1, leverage);
    }
}

impl Order<RequestOpen> {
    /// The token and the amount that opening this order holds back from the account.
    pub fn calculate_required_available_balance(&self, leverage: u64) -> (r: (&Token, i64))
        requires
            in_range(self.state.price as int, self.state.size as int),
            leverage >= 1,
        ensures
            r.1 == required_amount(self.side, self.state.price as int, self.state.size as int, leverage as int),
            *r.0 == (match self.side {
                Side::Buy => self.instrument.quote,
                Side::Sell => self.instrument.base,
            }),
    {
        let amount = required_of(self.side, self.state.price, self.state.size, leverage);
        match self.side {
            Side::Buy => (&self.instrument.quote, amount),
            Side::Sell => (&self.instrument.base, amount),
        }
    }

    /// The order once the exchange has accepted it, before it has an id.
    pub fn to_pending(&self) -> (r: Order<RealPending>)
        ensures
            r.exchange == self.exchange,
            r.instrument == self.instrument,
            r.timestamp == self.timestamp,
            r.cid == self.cid,
            r.side == self.side,
    {
        Order {
            exchange: self.exchange,
            instrument: self.instrument.duplicate(),
            timestamp: self.timestamp,
            cid: self.cid.duplicate(),
            side: self.side,
            state: RealPending,
        }
    }

    /// The order resting under `id`, nothing filled yet.
    pub fn into_open(self, id: OrderId, role: OrderRole) -> (r: Order<Open>)
        ensures
            r.exchange == self.exchange,
            r.instrument == self.instrument,
            r.timestamp == self.timestamp,
            r.cid == self.cid,
            r.side == self.side,
            r.state == (Open {
                id,
                kind: self.state.kind,
                price: self.state.price,
                size: self.state.size,
                filled_quantity: 0,
                order_role: role,
            }),
    {
        Order {
            exchange: self.exchange,
            instrument: self.instrument,
            timestamp: self.timestamp,
            cid: self.cid,
            side: self.side,
            state: Open {
                id,
                kind: self.state.kind,
                price: self.state.price,
                size: self.state.size,
                filled_quantity: 0,
                order_role: role,
            },
        }
    }
}

impl Order<Open> {
    /// A copy that is equal to `self`.
    pub fn duplicate(&self) -> (r: Order<Open>)
        ensures
            r == *self,
    {
        Order {
            exchange: self.exchange,
            instrument: self.instrument.duplicate(),
            timestamp: self.timestamp,
            cid: self.cid.duplicate(),
            side: self.side,
            state: self.state,
        }
    }

    /// The same order with its state replaced.
    pub fn with_state<S>(&self, state: S) -> (r: Order<S>)
        ensures
            r.exchange == self.exchange,
            r.instrument == self.instrument,
            r.timestamp == self.timestamp,
            r.cid == self.cid,
            r.side == self.side,
            r.state == state,
    {
        Order {
            exchange: self.exchange,
            instrument: self.instrument.duplicate(),
            timestamp: self.timestamp,
            cid: self.cid.duplicate(),
            side: self.side,
            state,
        }
    }

    /// The order as it stands once cancelled.
    pub fn to_cancelled(&self) -> (r: Order<Cancelled>)
        ensures
            r.exchange == self.exchange,
            r.timestamp == self.timestamp,
            r.instrument == self.instrument,
            r.side == self.side,
            r.cid == self.cid,
            r.state.id == self.state.id,
    {
        self.with_state(Cancelled { id: self.state.id })
    }
}

} // verus!
