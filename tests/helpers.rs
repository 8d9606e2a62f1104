use cerebro_broker::book::OrderBook;
use cerebro_broker::config::{AccountConfig, CommissionRates};
use cerebro_broker::instrument::{Exchange, InstrumentKind, Side};
use cerebro_broker::order::{ClientOrderId, OrderKind, OrderRole, RequestCancel, Cancelled, OrderId};
use cerebro_broker::positions::PositionDirectionMode;
use cerebro_broker::test_utils::{
    client_orders, create_test_account, create_test_account_config, create_test_account_orders, create_test_instrument,
    create_test_order_open, create_test_request_open, order_open, public_trade, trade,
};
use cerebro_broker::ws_trade::ExecutionId;

#[test]
fn test_helpers_build_what_they_say() {
    let i = create_test_instrument(InstrumentKind::Future);
    assert_eq!(i.base.0, "BTC");
    assert_eq!(i.quote.0, "USDT");
    let c = create_test_account_config();
    assert_eq!(c.account_leverage_rate, 1);
    assert_eq!(c.position_mode, PositionDirectionMode::NetMode);
    let o = create_test_order_open(Side::Sell, 7, 9);
    assert_eq!(o.state.id, OrderId(123));
    assert_eq!(o.state.remaining_quantity(), 9);
    assert_eq!(o.cid, ClientOrderId(Some("validCID123".to_string())));
    let orders = create_test_account_orders();
    assert!(orders.books.is_empty());
    let a = create_test_account();
    assert_eq!(a.balances.len(), 2);
}

#[test]
fn test_request_open_carries_a_generated_tag() {
    let r = create_test_request_open("ETH", "USDT");
    assert_eq!(r.state.kind, OrderKind::Market);
    assert_eq!(r.state.price, 50000);
    assert_eq!(r.instrument.kind, InstrumentKind::Spot);
    let tag = r.cid.0.unwrap();
    assert!(tag.starts_with("CID"));
    assert!(tag.len() > 3);
}

#[test]
fn small_helpers() {
    let bid = order_open(ClientOrderId(None), Side::Buy, 10, 5, 2);
    assert_eq!(bid.state.remaining_quantity(), 3);
    assert_eq!(bid.state.order_role, OrderRole::Maker);
    let book: OrderBook = client_orders(vec![bid.clone()], vec![]);
    assert_eq!(book.bids.len(), 1);
    assert!(book.best(Side::Sell).is_none());
    assert_eq!(book.best(Side::Buy).unwrap().state.price, 10);
    let t = public_trade(Side::Sell, 10, 4);
    assert_eq!((t.price, t.amount), (10, 4));
    let ct = trade(Side::Buy, 10, 4, 1);
    assert_eq!(ct.fees, 1);
    assert_eq!(RequestCancel::new(OrderId(5)).id, OrderId(5));
    assert_eq!(Cancelled::new(OrderId(5)).id, OrderId(5));
}

#[test]
fn execution_client_venues() {
    assert_eq!(ExecutionId::Simulated.exchange(), Exchange::SandBox);
    assert_eq!(ExecutionId::Ftx.exchange(), Exchange::Ftx);
    assert_eq!(Exchange::Binance.as_str(), "binance");
    assert_eq!(OrderKind::FillOrKill.as_str(), "fill_or_kill (FOK)");
}

#[test]
fn commission_rates_by_kind() {
    let mut c: AccountConfig = create_test_account_config();
    assert_eq!(c.fee_rate(InstrumentKind::Perpetual, OrderRole::Maker), 0);
    c.fees_book.push((InstrumentKind::Future, CommissionRates { maker_fees: 3, taker_fees: 4 }));
    c.fees_book.push((InstrumentKind::Perpetual, CommissionRates { maker_fees: 100, taker_fees: 200 }));
    assert_eq!(c.fee_rate(InstrumentKind::Perpetual, OrderRole::Maker), 100);
    assert_eq!(c.fee_rate(InstrumentKind::Perpetual, OrderRole::Taker), 200);
    assert_eq!(c.fee_rate(InstrumentKind::Future, OrderRole::Taker), 4);
}

#[test]
fn orders_arrive_after_their_latency() {
    let mut orders = create_test_account_orders();
    // sine mode between 10 and 100: the sample 95 selects 10 + 95 mod 91 = 14
    assert_eq!(orders.arrival_time(1_000, 95), 1_014);
    assert_eq!(orders.latency.current_value, 14);
    assert_eq!(orders.arrival_time(i64::MAX - 1, 0), i64::MAX);
}
