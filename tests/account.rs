use cerebro_broker::account::Account;
use cerebro_broker::balance::{Balance, TokenBalance};
use cerebro_broker::config::{AccountConfig, CommissionLevel, CommissionRates, MarginMode, SandboxMode};
use cerebro_broker::error::ExchangeError;
use cerebro_broker::event::AccountEventKind;
use cerebro_broker::exchange::{ExchangeBuilder, ExchangeRequest, ExchangeResponse, SimulatedExchange};
use cerebro_broker::instrument::{Exchange, Instrument, InstrumentKind, Side, Token};
use cerebro_broker::latency::{AccountLatency, FluctuationMode};
use cerebro_broker::order::{ClientOrderId, Order, OrderKind, OrderRole, RequestOpen};
use cerebro_broker::positions::PositionDirectionMode;
use cerebro_broker::test_utils::create_test_account;
use cerebro_broker::trade::PublicTrade;

// Units: sizes in lots of 0.001 BTC, amounts in 0.001 USDT, prices in 0.001 USDT per lot.
// 0.1 BTC = 100 lots; 50000 USDT/BTC = 50_000 per lot; 10000 USDT = 10_000_000.

fn btc_usdt() -> Instrument {
    Instrument::new("BTC", "USDT", InstrumentKind::Perpetual)
}

fn account(usdt: i64, btc: i64, mode: PositionDirectionMode) -> Account {
    let balances = vec![
        TokenBalance::new(Token::new("USDT"), Balance::at(0, usdt, usdt)),
        TokenBalance::new(Token::new("BTC"), Balance::at(0, btc, btc)),
    ];
    let config = AccountConfig {
        margin_mode: MarginMode::SingleCurrencyMargin,
        position_mode: mode,
        position_margin_mode: cerebro_broker::positions::PositionMarginMode::Isolated,
        commission_level: CommissionLevel::Lv1,
        funding_rate: 0,
        account_leverage_rate: 1,
        fees_book: vec![(InstrumentKind::Perpetual, CommissionRates { maker_fees: 1000, taker_fees: 2000 })],
        execution_mode: SandboxMode::Backtest,
    };
    Account::new(3, config, balances, AccountLatency::new(FluctuationMode::NoFluctuation, 0, 0)).unwrap()
}

fn request(kind: OrderKind, side: Side, price: u64, size: u64) -> Order<RequestOpen> {
    Order {
        exchange: Exchange::SandBox,
        instrument: btc_usdt(),
        timestamp: 0,
        cid: ClientOrderId(None),
        side,
        state: RequestOpen { kind, price, size, reduce_only: false },
    }
}

fn trade(side: Side, price: u64, amount: u64) -> PublicTrade {
    PublicTrade { side, price, amount, timestamp: 1 }
}

fn amounts(a: &Account, i: usize) -> (i64, i64) {
    (a.balances[i].balance.total, a.balances[i].balance.available)
}

#[test]
fn simple_limit_fill() {
    let mut a = account(10_000_000, 0, PositionDirectionMode::NetMode);
    let o = a.open_order(request(OrderKind::Limit, Side::Buy, 50_000, 100), 10).unwrap();
    assert_eq!(o.state.order_role, OrderRole::Maker);
    assert_eq!(amounts(&a, 0), (10_000_000, 5_000_000));
    let fills = a.match_orders(&btc_usdt(), &trade(Side::Sell, 49_999, 100));
    assert_eq!(fills.len(), 1);
    assert!(fills[0].full);
    assert_eq!(fills[0].order.state.price, 50_000);
    // maker commission 50_000 * 100 * 0.1% = 5000
    assert_eq!(fills[0].fee, 5000);
    assert_eq!(amounts(&a, 0), (9_995_000, 4_995_000));
    assert!(a.fetch_orders_open().is_empty());
    let long = &a.positions.perpetual_pos_long[0];
    assert_eq!(long.meta.current_size, 100);
    assert_eq!(long.meta.current_avg_price, 50_000);
    assert_eq!(long.margin, 5_000_000);
}

#[test]
fn partial_fill_then_cancel() {
    let mut a = account(10_000_000, 0, PositionDirectionMode::NetMode);
    let o = a.open_order(request(OrderKind::Limit, Side::Buy, 50_000, 100), 10).unwrap();
    let fills = a.match_orders(&btc_usdt(), &trade(Side::Sell, 49_999, 40));
    assert_eq!(fills.len(), 1);
    assert!(!fills[0].full);
    assert_eq!(fills[0].order.state.filled_quantity, 40);
    let events = Account::fill_events(&fills, 1);
    assert!(matches!(events[0].kind, AccountEventKind::OrdersPartiallyFilled(_)));
    // 2_000_000 became margin, 2000 commission charged
    assert_eq!(amounts(&a, 0), (9_998_000, 4_998_000));
    let c = a.cancel_order(o.state.id).unwrap();
    assert_eq!(c.state.id, o.state.id);
    // the remaining 60 lots held back 3_000_000
    assert_eq!(amounts(&a, 0), (9_998_000, 7_998_000));
}

#[test]
fn fill_or_kill_rejected_without_depth() {
    let mut a = account(10_000_000, 1_000, PositionDirectionMode::NetMode);
    a.open_order(request(OrderKind::Limit, Side::Sell, 50_001, 50), 10).unwrap();
    let before_balances = a.fetch_balances();
    let before_orders = a.fetch_orders_open();
    let r = a.open_order(request(OrderKind::FillOrKill, Side::Buy, 50_002, 100), 11);
    assert_eq!(r, Err(ExchangeError::InvalidRequest));
    assert_eq!(a.fetch_balances(), before_balances);
    assert_eq!(a.fetch_orders_open(), before_orders);
}

#[test]
fn net_mode_flip() {
    let mut a = account(100_000_000, 2_000, PositionDirectionMode::NetMode);
    a.open_order(request(OrderKind::Limit, Side::Buy, 50_000, 1000), 10).unwrap();
    a.match_orders(&btc_usdt(), &trade(Side::Sell, 50_000, 1000));
    assert!(a.positions.has_long_position(&btc_usdt()).unwrap());
    a.open_order(request(OrderKind::Limit, Side::Sell, 51_000, 1500), 11).unwrap();
    let fills = a.match_orders(&btc_usdt(), &trade(Side::Buy, 51_000, 1500));
    assert_eq!(fills.len(), 1);
    assert!(fills[0].full);
    assert!(!a.positions.has_long_position(&btc_usdt()).unwrap());
    assert!(a.positions.has_short_position(&btc_usdt()).unwrap());
    assert!(a.positions.perpetual_pos_long.is_empty());
    let short = &a.positions.perpetual_pos_short[0];
    assert_eq!(short.meta.current_size, 500);
}

#[test]
fn book_tie_break_prefers_smaller_remaining() {
    let mut a = account(10_000_000, 0, PositionDirectionMode::NetMode);
    let big = a.open_order(request(OrderKind::Limit, Side::Buy, 100, 20), 10).unwrap();
    let small = a.open_order(request(OrderKind::Limit, Side::Buy, 100, 10), 11).unwrap();
    let fills = a.match_orders(&btc_usdt(), &trade(Side::Sell, 100, 10));
    assert_eq!(fills.len(), 1);
    assert_eq!(fills[0].order.state.id, small.state.id);
    assert!(fills[0].full);
    let open = a.fetch_orders_open();
    assert_eq!(open.len(), 1);
    assert_eq!(open[0].state.id, big.state.id);
}

#[test]
fn order_ids_strictly_increase() {
    let mut a = account(10_000_000, 0, PositionDirectionMode::NetMode);
    let first = a.open_order(request(OrderKind::Limit, Side::Buy, 100, 1), 10).unwrap();
    let second = a.open_order(request(OrderKind::Limit, Side::Buy, 100, 1), 10).unwrap();
    let third = a.open_order(request(OrderKind::Limit, Side::Buy, 100, 1), 5).unwrap();
    assert!(first.state.id.0 < second.state.id.0);
    assert!(second.state.id.0 < third.state.id.0);
}

#[test]
fn cancelled_order_leaves_the_book() {
    let mut a = account(10_000_000, 0, PositionDirectionMode::NetMode);
    let o = a.open_order(request(OrderKind::Limit, Side::Buy, 100, 5), 10).unwrap();
    a.cancel_order(o.state.id).unwrap();
    assert!(a.fetch_orders_open().iter().all(|x| x.state.id != o.state.id));
    assert_eq!(a.cancel_order(o.state.id), Err(ExchangeError::OrderNotFound(o.state.id)));
}

#[test]
fn no_fill_without_price_crossing() {
    let mut a = account(10_000_000, 0, PositionDirectionMode::NetMode);
    a.open_order(request(OrderKind::Limit, Side::Buy, 100, 5), 10).unwrap();
    let fills = a.match_orders(&btc_usdt(), &trade(Side::Sell, 101, 5));
    assert!(fills.is_empty());
    assert_eq!(a.fetch_orders_open().len(), 1);
}

#[test]
fn open_then_cancel_restores_balances() {
    let mut a = account(10_000_000, 500, PositionDirectionMode::NetMode);
    let before = a.fetch_balances();
    let buy = a.open_order(request(OrderKind::Limit, Side::Buy, 1234, 77), 10).unwrap();
    let sell = a.open_order(request(OrderKind::GoodTilCancelled, Side::Sell, 2000, 300), 11).unwrap();
    assert_ne!(a.fetch_balances(), before);
    a.cancel_order(buy.state.id).unwrap();
    a.cancel_order(sell.state.id).unwrap();
    let after = a.fetch_balances();
    for (x, y) in before.iter().zip(after.iter()) {
        assert_eq!((x.balance.total, x.balance.available), (y.balance.total, y.balance.available));
    }
}

#[test]
fn exact_fill_reports_orders_filled() {
    let mut a = account(10_000_000, 0, PositionDirectionMode::NetMode);
    let o = a.open_order(request(OrderKind::Limit, Side::Buy, 100, 7), 10).unwrap();
    let fills = a.match_orders(&btc_usdt(), &trade(Side::Sell, 100, 7));
    let events = Account::fill_events(&fills, 1);
    assert_eq!(events.len(), 1);
    match &events[0].kind {
        AccountEventKind::OrdersFilled(v) => {
            assert_eq!(v[0].state.id, o.state.id);
            assert_eq!(v[0].state.size, 7);
        },
        other => panic!("unexpected {}", other.name()),
    }
    assert!(a.fetch_orders_open().is_empty());
}

#[test]
fn market_order_beyond_depth_fills_what_it_can() {
    let mut a = account(10_000_000, 1_000, PositionDirectionMode::LongShortMode);
    a.open_order(request(OrderKind::Limit, Side::Sell, 100, 30), 10).unwrap();
    a.open_order(request(OrderKind::Limit, Side::Sell, 120, 20), 11).unwrap();
    let m = a.open_order(request(OrderKind::Market, Side::Buy, 0, 80), 12).unwrap();
    assert_eq!(m.state.filled_quantity, 50);
    assert_eq!(m.state.order_role, OrderRole::Taker);
    assert!(a.fetch_orders_open().is_empty());
}

#[test]
fn immediate_or_cancel_leaves_no_residual() {
    let mut a = account(10_000_000, 1_000, PositionDirectionMode::LongShortMode);
    a.open_order(request(OrderKind::Limit, Side::Sell, 100, 30), 10).unwrap();
    a.open_order(request(OrderKind::Limit, Side::Sell, 120, 20), 11).unwrap();
    let ioc = a.open_order(request(OrderKind::ImmediateOrCancel, Side::Buy, 110, 80), 12).unwrap();
    assert_eq!(ioc.state.filled_quantity, 30);
    let open = a.fetch_orders_open();
    assert_eq!(open.len(), 1);
    assert_eq!(open[0].state.price, 120);
    assert!(open.iter().all(|x| x.state.id != ioc.state.id));
}

#[test]
fn open_order_errors() {
    let mut a = account(1_000, 0, PositionDirectionMode::NetMode);
    assert_eq!(a.open_order(request(OrderKind::Limit, Side::Buy, 100, 0), 1), Err(ExchangeError::InvalidRequest));
    assert_eq!(a.open_order(request(OrderKind::Limit, Side::Buy, 0, 5), 1), Err(ExchangeError::InvalidRequest));
    assert_eq!(a.open_order(request(OrderKind::Limit, Side::Buy, 100, 11), 1), Err(ExchangeError::InsufficientBalance));
    assert_eq!(a.open_order(request(OrderKind::Limit, Side::Sell, 100, 1), 1), Err(ExchangeError::InsufficientBalance));
    let mut spot = request(OrderKind::Limit, Side::Buy, 100, 1);
    spot.instrument.kind = InstrumentKind::Spot;
    assert_eq!(a.open_order(spot, 1), Err(ExchangeError::UnsupportedInstrument));
    let mut reduce = request(OrderKind::Limit, Side::Sell, 100, 1);
    reduce.state.reduce_only = true;
    assert_eq!(a.open_order(reduce, 1), Err(ExchangeError::InvalidRequest));
    assert!(a.open_order(request(OrderKind::Limit, Side::Buy, 100, 10), 1).is_ok());
}

#[test]
fn cancel_all_empties_the_books() {
    let mut a = create_test_account();
    let pair = Instrument::new("TEST_BASE", "TEST_QUOTE", InstrumentKind::Perpetual);
    let mut r = request(OrderKind::Limit, Side::Buy, 10, 100);
    r.instrument = pair.clone();
    a.open_order(r.clone(), 1).unwrap();
    r.side = Side::Sell;
    r.state.size = 5;
    a.open_order(r, 2).unwrap();
    let cancelled = a.cancel_orders_all();
    assert_eq!(cancelled.len(), 2);
    assert!(a.fetch_orders_open().is_empty());
    assert_eq!(a.balances[0].balance.available, 10);
    assert_eq!(a.balances[1].balance.available, 10_000);
}

#[test]
fn account_new_refuses_duplicate_tokens() {
    let balances = vec![
        TokenBalance::new(Token::new("USDT"), Balance::at(0, 5, 5)),
        TokenBalance::new(Token::new("USDT"), Balance::at(0, 5, 5)),
    ];
    let config = create_test_account().config;
    let r = Account::new(1, config, balances, AccountLatency::new(FluctuationMode::Uniform, 10, 0));
    assert!(matches!(r, Err(ExchangeError::InvalidRequest)));
}

#[test]
fn exchange_dispatches_requests() {
    let mut ex = SimulatedExchange::new(account(10_000_000, 0, PositionDirectionMode::NetMode));
    match ex.handle(ExchangeRequest::OpenOrders(vec![request(OrderKind::Limit, Side::Buy, 50_000, 100)])) {
        ExchangeResponse::OpenOrders(v) => assert!(v[0].is_ok()),
        other => panic!("unexpected {:?}", other),
    }
    match ex.handle(ExchangeRequest::MarketTrade(btc_usdt(), PublicTrade { side: Side::Sell, price: 50_000, amount: 100, timestamp: 42 })) {
        ExchangeResponse::MarketTrade(events) => {
            assert_eq!(events.len(), 1);
            assert_eq!(events[0].exchange_timestamp, 42);
        },
        other => panic!("unexpected {:?}", other),
    }
    assert_eq!(ex.account.exchange_timestamp, 42);
    match ex.handle(ExchangeRequest::FetchBalances) {
        ExchangeResponse::Balances(b) => assert_eq!(b[0].balance.total, 9_995_000),
        other => panic!("unexpected {:?}", other),
    }
    match ex.handle(ExchangeRequest::CancelOrdersAll) {
        ExchangeResponse::CancelOrdersAll(v) => assert!(v.is_empty()),
        other => panic!("unexpected {:?}", other),
    }
}

#[test]
fn builder_names_the_missing_part() {
    let b: ExchangeBuilder<u8> = ExchangeBuilder::new();
    assert_eq!(b.build().err(), Some(ExchangeError::BuilderIncomplete("event_simulated_rx".to_string())));
    let b: ExchangeBuilder<u8> = ExchangeBuilder::new().event_simulated_rx(1);
    assert_eq!(b.build().err(), Some(ExchangeError::BuilderIncomplete("account".to_string())));
    let b = ExchangeBuilder::new().event_simulated_rx(1u8).account(create_test_account());
    let (ex, rx) = b.build().unwrap();
    assert_eq!(rx, 1);
    assert_eq!(ex.account.balances.len(), 2);
}
