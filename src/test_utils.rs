use vstd::prelude::*;
use rand::Rng;
use crate::account::{Account, AccountOrders};
use crate::book::OrderBook;
use crate::trade::{ClientTrade, PublicTrade};
use crate::balance::{now_millis, Balance, TokenBalance};
use crate::config::{AccountConfig, CommissionLevel, CommissionRates, MarginMode, SandboxMode};
use crate::instrument::{Exchange, Instrument, InstrumentKind, Side, Token};
use crate::latency::{AccountLatency, FluctuationMode};
use crate::order::{compose_id, ClientOrderId, Open, Order, OrderId, OrderKind, OrderRole, RequestOpen, COUNTER_SPAN, MAX_ID_TIMESTAMP};
use crate::positions::{
    FuturePosition, FuturePositionConfig, PerpetualPosition, PerpetualPositionConfig, PositionDirectionMode,
    PositionMarginMode, PositionMeta,
};
use crate::text::{decimal, push_decimal};

verus! {

/// The machine id that the test helpers use.
pub const TEST_MACHINE_ID: u64 = 7;

/// Relies on `rand::Rng::gen_range` over `0..10` on the thread's generator: a number below ten.
#[verifier::external_body]
fn random_counter() -> (r: u64)
    ensures
        r < 10,
{
    rand::thread_rng().gen_range(0..10)
}

/// `BTC`/`USDT` of the given kind.
pub fn create_test_instrument(kind: InstrumentKind) -> (r: Instrument)
    ensures
        r.base@ == "BTC"@,
        r.quote@ == "USDT"@,
        r.kind == kind,
{
    Instrument::new("BTC", "USDT", kind)
}

/// Net mode, isolated margin, leverage one, no commission table, backtest.
pub fn create_test_account_config() -> (r: AccountConfig)
    ensures
        r.margin_mode == MarginMode::SingleCurrencyMargin,
        r.position_mode == PositionDirectionMode::NetMode,
        r.position_margin_mode == PositionMarginMode::Isolated,
        r.commission_level == CommissionLevel::Lv1,
        r.funding_rate == 0,
        r.account_leverage_rate == 1,
        r.fees_book@.len() == 0,
        r.execution_mode == SandboxMode::Backtest,
{
    AccountConfig {
        margin_mode: MarginMode::SingleCurrencyMargin,
        position_mode: PositionDirectionMode::NetMode,
        position_margin_mode: PositionMarginMode::Isolated,
        commission_level: CommissionLevel::Lv1,
        funding_rate: 0,
        account_leverage_rate: 1,
        fees_book: Vec::new(),
        execution_mode: SandboxMode::Backtest,
    }
}

/// An empty order ledger with a sine latency between 10 and 100.
pub fn create_test_account_orders() -> (r: AccountOrders)
    ensures
        r.ids_ok(),
        r.books@.len() == 0,
        r.machine_id == TEST_MACHINE_ID,
        r.latency == (AccountLatency { fluctuation_mode: FluctuationMode::Sine, maximum: 100, minimum: 10, current_value: 10 }),
{
    AccountOrders::new(TEST_MACHINE_ID, AccountLatency::new(FluctuationMode::Sine, 100, 10))
}

fn test_pair() -> (r: Instrument)
    ensures
        r.base@ == "TEST_BASE"@,
        r.quote@ == "TEST_QUOTE"@,
        r.kind == InstrumentKind::Perpetual,
{
    Instrument::new("TEST_BASE", "TEST_QUOTE", InstrumentKind::Perpetual)
}

/// A resting limit order on `TEST_BASE`/`TEST_QUOTE`, nothing filled.
pub fn create_test_order_open(side: Side, price: u64, size: u64) -> (r: Order<Open>)
    ensures
        r.side == side,
        r.instrument.base@ == "TEST_BASE"@,
        r.instrument.quote@ == "TEST_QUOTE"@,
        r.instrument.kind == InstrumentKind::Perpetual,
        r.timestamp == 1625247600000,
        r.state == (Open { id: OrderId(123), kind: OrderKind::Limit, price, size, filled_quantity: 0, order_role: OrderRole::Taker }),
{
    Order {
        exchange: Exchange::SandBox,
        instrument: test_pair(),
        timestamp: 1625247600000,
        cid: ClientOrderId(Some(String::from_str("validCID123"))),
        side,
        state: Open { id: OrderId(123), kind: OrderKind::Limit, price, size, filled_quantity: 0, order_role: OrderRole::Taker },
    }
}

/// A market buy of one unit at 50000 on the spot pair `base`/`quote`, tagged
/// `CID{n}` where `n` is the last six digits of an id made from the current
/// time and a random counter.
pub fn create_test_request_open(base: &str, quote: &str) -> (r: Order<RequestOpen>)
    ensures
        r.instrument.base@ == base@,
        r.instrument.quote@ == quote@,
        r.instrument.kind == InstrumentKind::Spot,
        r.side == Side::Buy,
        r.timestamp == 1625247600000,
        r.state == (RequestOpen { kind: OrderKind::Market, price: 50000, size: 1, reduce_only: false }),
        r.cid.0 matches Some(c) && exists|ts: int, counter: int| 0 <= ts <= MAX_ID_TIMESTAMP && 0 <= counter < 10
            && c@ == "CID"@ + decimal(((#[trigger] compose_id(ts, TEST_MACHINE_ID as int, counter)) % 1_000_000) as nat),
{
    let now = now_millis();
    let ts: u64 = if now < 0 { 0 } else if now as u64 > MAX_ID_TIMESTAMP { MAX_ID_TIMESTAMP } else { now as u64 };
    let counter = random_counter();
    let id = OrderId::new(ts, TEST_MACHINE_ID, counter);
    let mut cid = String::from_str("CID");
    push_decimal(&mut cid, id.0 % 1_000_000);
    proof {
        assert(cid@ == "CID"@ + decimal(((compose_id(ts as int, TEST_MACHINE_ID as int, counter as int)) % 1_000_000) as nat));
    }
    Order {
        exchange: Exchange::SandBox,
        instrument: Instrument::new(base, quote, InstrumentKind::Spot),
        timestamp: 1625247600000,
        cid: ClientOrderId(Some(cid)),
        side: Side::Buy,
        state: RequestOpen { kind: OrderKind::Market, price: 50000, size: 1, reduce_only: false },
    }
}

/// An account holding 10 `TEST_BASE` and 10000 `TEST_QUOTE`, leverage one, net
/// mode, perpetual commissions of 0.1% (maker) and 0.2% (taker).
pub fn create_test_account() -> (r: Account)
    ensures
        r.wf(),
        r.balances@.len() == 2,
        r.balances@[0].token@ == "TEST_BASE"@ && r.balances@[0].balance.total == 10 && r.balances@[0].balance.available == 10,
        r.balances@[1].token@ == "TEST_QUOTE"@ && r.balances@[1].balance.total == 10000
            && r.balances@[1].balance.available == 10000,
        r.config.account_leverage_rate == 1,
        r.config.position_mode == PositionDirectionMode::NetMode,
        r.config.position_margin_mode == PositionMarginMode::Isolated,
        r.config.fees_book@ == seq![(InstrumentKind::Perpetual, CommissionRates { maker_fees: 1000, taker_fees: 2000 })],
        r.positions.is_empty(),
        r.orders.books@.len() == 0,
        r.orders.machine_id == TEST_MACHINE_ID,
{
    let mut balances: Vec<TokenBalance> = Vec::new();
    balances.push(TokenBalance::new(Token::new("TEST_BASE"), Balance::at(0, 10, 10)));
    balances.push(TokenBalance::new(Token::new("TEST_QUOTE"), Balance::at(0, 10000, 10000)));
    let mut fees_book: Vec<(InstrumentKind, CommissionRates)> = Vec::new();
    fees_book.push((InstrumentKind::Perpetual, CommissionRates { maker_fees: 1000, taker_fees: 2000 }));
    let config = AccountConfig {
        margin_mode: MarginMode::SingleCurrencyMargin,
        position_mode: PositionDirectionMode::NetMode,
        position_margin_mode: PositionMarginMode::Isolated,
        commission_level: CommissionLevel::Lv1,
        funding_rate: 0,
        account_leverage_rate: 1,
        fees_book,
        execution_mode: SandboxMode::Backtest,
    };
    let latency = AccountLatency { fluctuation_mode: FluctuationMode::Sine, maximum: 300, minimum: 0, current_value: 0 };
    proof {
        reveal_strlit("TEST_BASE");
        reveal_strlit("TEST_QUOTE");
        assert(balances@[0].token@[5] != balances@[1].token@[5]);
        assert(config.fees_book@[0].1.maker_fees <= 1_000_000);
    }
    let r = Account::new(TEST_MACHINE_ID, config, balances, latency);
    r.unwrap()
}

/// The position fields that the test positions share: no time, no fees, no
/// prices, no profit, an empty exit balance of the base token, on the sandbox.
pub open spec fn test_meta_of(instrument: Instrument, side: Side, size: u64, position_id: u64) -> PositionMeta {
    PositionMeta {
        position_id,
        enter_ts: 0,
        update_ts: 0,
        exit_balance: TokenBalance { token: instrument.base, balance: Balance { time: 0, total: 0, available: 0 } },
        exchange: Exchange::SandBox,
        instrument,
        side,
        current_size: size,
        current_fees_total: 0,
        current_avg_price_gross: 0,
        current_symbol_price: 0,
        current_avg_price: 0,
        unrealised_pnl: 0,
        realised_pnl: 0,
    }
}

fn test_meta(instrument: Instrument, side: Side, size: u64, position_id: u64) -> (r: PositionMeta)
    ensures
        r == test_meta_of(instrument, side, size, position_id),
{
    let token = instrument.base.duplicate();
    PositionMeta {
        position_id,
        enter_ts: 0,
        update_ts: 0,
        exit_balance: TokenBalance { token, balance: Balance::at(0, 0, 0) },
        exchange: Exchange::SandBox,
        instrument,
        side,
        current_size: size,
        current_fees_total: 0,
        current_avg_price_gross: 0,
        current_symbol_price: 0,
        current_avg_price: 0,
        unrealised_pnl: 0,
        realised_pnl: 0,
    }
}

/// A long perpetual position of one unit on `instrument`, in long-short mode.
pub fn create_test_perpetual_position(instrument: Instrument) -> (r: PerpetualPosition)
    ensures
        r.meta == test_meta_of(instrument, Side::Buy, 1, 12341241241),
        r.pos_config == (PerpetualPositionConfig {
            pos_margin_mode: PositionMarginMode::Isolated,
            leverage: 1,
            position_mode: PositionDirectionMode::LongShortMode,
        }),
        r.liquidation_price == 0,
        r.margin == 0,
{
    PerpetualPosition {
        meta: test_meta(instrument, Side::Buy, 1, 12341241241),
        pos_config: PerpetualPositionConfig {
            pos_margin_mode: PositionMarginMode::Isolated,
            leverage: 1,
            position_mode: PositionDirectionMode::LongShortMode,
        },
        liquidation_price: 0,
        margin: 0,
    }
}

/// An empty future position on `instrument` on the given side, in long-short mode.
pub fn create_test_future_position_with_side(instrument: Instrument, side: Side) -> (r: FuturePosition)
    ensures
        r.meta == test_meta_of(instrument, side, 0, 1234124512412),
        r.pos_config == (FuturePositionConfig {
            pos_margin_mode: PositionMarginMode::Isolated,
            leverage: 1,
            position_mode: PositionDirectionMode::LongShortMode,
        }),
        r.liquidation_price == 0,
        r.margin == 0,
        r.funding_fee == 0,
{
    FuturePosition {
        meta: test_meta(instrument, side, 0, 1234124512412),
        pos_config: FuturePositionConfig {
            pos_margin_mode: PositionMarginMode::Isolated,
            leverage: 1,
            position_mode: PositionDirectionMode::LongShortMode,
        },
        liquidation_price: 0,
        margin: 0,
        funding_fee: 0,
    }
}

/// The `base`/`quote` perpetual that the small helpers below trade.
fn base_quote() -> (r: Instrument)
    ensures
        r.base@ == "base"@,
        r.quote@ == "quote"@,
        r.kind == InstrumentKind::Perpetual,
{
    Instrument::new("base", "quote", InstrumentKind::Perpetual)
}

/// A book of `base`/`quote` holding the given bids and asks as they are.
pub fn client_orders(bids: Vec<Order<Open>>, asks: Vec<Order<Open>>) -> (r: OrderBook)
    ensures
        r.bids == bids,
        r.asks == asks,
        r.instrument.base@ == "base"@,
        r.instrument.quote@ == "quote"@,
{
    OrderBook { instrument: base_quote(), bids, asks }
}

/// A resting order of `base`/`quote` with id 0.
pub fn order_open(cid: ClientOrderId, side: Side, price: u64, quantity: u64, filled: u64) -> (r: Order<Open>)
    ensures
        r.cid == cid,
        r.side == side,
        r.state == (Open { id: OrderId(0), kind: OrderKind::Limit, price, size: quantity, filled_quantity: filled,
            order_role: OrderRole::Maker }),
{
    Order {
        exchange: Exchange::SandBox,
        instrument: base_quote(),
        timestamp: 0,
        cid,
        side,
        state: Open { id: OrderId(0), kind: OrderKind::Limit, price, size: quantity, filled_quantity: filled,
            order_role: OrderRole::Maker },
    }
}

/// A public trade at time zero.
pub fn public_trade(side: Side, price: u64, amount: u64) -> (r: PublicTrade)
    ensures
        r == (PublicTrade { side, price, amount, timestamp: 0 }),
{
    PublicTrade { side, price, amount, timestamp: 0 }
}

/// A settlement record of `base`/`quote` at time zero.
pub fn trade(side: Side, price: u64, quantity: u64, fees: i64) -> (r: ClientTrade)
    ensures
        r.side == side && r.price == price && r.quantity == quantity && r.fees == fees && r.timestamp == 0,
        r.instrument.base@ == "base"@,
        r.instrument.quote@ == "quote"@,
{
    ClientTrade { instrument: base_quote(), side, price, quantity, fees, timestamp: 0 }
}

} // verus!
