use cerebro_broker::config::{AccountConfig, CommissionLevel, MarginMode, SandboxMode};
use cerebro_broker::error::ExchangeError;
use cerebro_broker::instrument::{Instrument, InstrumentKind, Side, Token};
use cerebro_broker::positions::{AccountPositions, Position, PositionDirectionMode, PositionMarginMode};
use cerebro_broker::test_utils::{create_test_future_position_with_side, create_test_perpetual_position};
use cerebro_broker::trade::ClientTrade;

fn create_instrument(kind: InstrumentKind) -> Instrument {
    Instrument { base: Token::from("BTC"), quote: Token::from("USDT"), kind }
}

#[test]
fn test_has_position() {
    let mut account_positions = AccountPositions::init();
    let perpetual_instrument = create_instrument(InstrumentKind::Perpetual);
    let future_instrument = create_instrument(InstrumentKind::Future);

    assert!(!account_positions.has_long_position(&perpetual_instrument).unwrap());
    assert!(!account_positions.has_short_position(&perpetual_instrument).unwrap());
    assert!(!account_positions.has_long_position(&future_instrument).unwrap());
    assert!(!account_positions.has_short_position(&future_instrument).unwrap());

    let mut perpetual_position = create_test_perpetual_position(perpetual_instrument.clone());
    perpetual_position.meta.side = Side::Buy;
    account_positions.update_position(Position::Perpetual(perpetual_position.clone()));

    assert!(account_positions.has_long_position(&perpetual_instrument).unwrap());
    assert!(!account_positions.has_short_position(&perpetual_instrument).unwrap());
    assert!(!account_positions.has_long_position(&future_instrument).unwrap());
    assert!(!account_positions.has_short_position(&future_instrument).unwrap());

    perpetual_position.meta.side = Side::Sell;
    account_positions.update_position(Position::Perpetual(perpetual_position.clone()));

    assert!(account_positions.has_long_position(&perpetual_instrument).unwrap());
    assert!(account_positions.has_short_position(&perpetual_instrument).unwrap());
}

#[test]
fn test_update_existing_position() {
    let mut account_positions = AccountPositions::init();
    let perpetual_instrument = create_instrument(InstrumentKind::Perpetual);

    let mut perpetual_position = create_test_perpetual_position(perpetual_instrument.clone());
    perpetual_position.meta.side = Side::Buy;
    account_positions.update_position(Position::Perpetual(perpetual_position.clone()));
    assert!(account_positions.has_long_position(&perpetual_instrument).unwrap());
    assert_eq!(account_positions.perpetual_pos_long.len(), 1);

    let mut updated_position = perpetual_position.clone();
    updated_position.margin = 2000;
    account_positions.update_position(Position::Perpetual(updated_position.clone()));

    if !account_positions.perpetual_pos_long.is_empty() {
        assert_eq!(account_positions.perpetual_pos_long.len(), 1);
        let pos = &account_positions.perpetual_pos_long[0];
        assert_eq!(pos.margin, 2000);
    } else {
        panic!("PerpetualPosition should exist but was not found.");
    }
}

#[test]
fn test_add_new_position() {
    let mut account_positions = AccountPositions::init();
    let perpetual_instrument_1 = Instrument { base: Token::from("BTC"), quote: Token::from("USDT"), kind: InstrumentKind::Perpetual };
    let perpetual_instrument_2 = Instrument { base: Token::from("ETH"), quote: Token::from("USDT"), kind: InstrumentKind::Perpetual };

    let mut perpetual_position_1 = create_test_perpetual_position(perpetual_instrument_1.clone());
    perpetual_position_1.meta.side = Side::Buy;
    account_positions.update_position(Position::Perpetual(perpetual_position_1.clone()));

    let mut perpetual_position_2 = create_test_perpetual_position(perpetual_instrument_2.clone());
    perpetual_position_2.meta.side = Side::Buy;
    account_positions.update_position(Position::Perpetual(perpetual_position_2.clone()));

    assert!(account_positions.has_long_position(&perpetual_instrument_1).unwrap());
    assert!(account_positions.has_long_position(&perpetual_instrument_2).unwrap());
    assert_eq!(account_positions.perpetual_pos_long.len(), 2);
}

#[test]
fn future_positions_go_to_their_side() {
    let mut account_positions = AccountPositions::init();
    let future_instrument = create_instrument(InstrumentKind::Future);
    let short = create_test_future_position_with_side(future_instrument.clone(), Side::Sell);
    account_positions.update_position(Position::Future(short));
    assert!(account_positions.has_short_position(&future_instrument).unwrap());
    assert!(!account_positions.has_long_position(&future_instrument).unwrap());
    // a spot instrument never holds a position
    assert_eq!(account_positions.has_long_position(&create_instrument(InstrumentKind::Spot)), Err(ExchangeError::UnsupportedInstrument));
    assert_eq!(account_positions.has_short_position(&create_instrument(InstrumentKind::CommodityFuture)), Err(ExchangeError::UnsupportedInstrument));
}

fn config(leverage: u64) -> AccountConfig {
    AccountConfig {
        margin_mode: MarginMode::SingleCurrencyMargin,
        position_mode: PositionDirectionMode::NetMode,
        position_margin_mode: PositionMarginMode::Cross,
        commission_level: CommissionLevel::Lv1,
        funding_rate: 0,
        account_leverage_rate: leverage,
        fees_book: Vec::new(),
        execution_mode: SandboxMode::Backtest,
    }
}

#[test]
fn new_perpetual_position_margin_and_liquidation_price() {
    let positions = AccountPositions::init();
    let instrument = create_instrument(InstrumentKind::Perpetual);
    let buy = ClientTrade { instrument: instrument.clone(), side: Side::Buy, price: 100, quantity: 10, fees: 3, timestamp: 77 };
    let long = positions.build_new_perpetual_position(&config(2), &buy, 1000).unwrap();
    assert_eq!(long.margin, 500);
    assert_eq!(long.liquidation_price, 50);
    assert_eq!(long.meta.current_size, 10);
    assert_eq!(long.meta.current_avg_price, 100);
    assert_eq!(long.meta.current_fees_total, 3);
    assert_eq!(long.meta.enter_ts, 1000);
    assert_eq!(long.pos_config.leverage, 2);

    let sell = ClientTrade { side: Side::Sell, ..buy.clone() };
    let short = positions.build_new_perpetual_position(&config(2), &sell, 1000).unwrap();
    assert_eq!(short.liquidation_price, 150);

    let empty = ClientTrade { quantity: 0, ..buy };
    assert_eq!(positions.build_new_perpetual_position(&config(2), &empty, 1000), Err(ExchangeError::InvalidRequest));
}

#[test]
fn marking_a_position_to_the_market() {
    let instrument = create_instrument(InstrumentKind::Perpetual);
    let mut long = create_test_perpetual_position(instrument.clone());
    long.meta.current_avg_price = 100;
    long.meta.current_size = 3;
    long.mark_to(110);
    assert_eq!(long.meta.unrealised_pnl, 30);
    assert_eq!(long.meta.current_symbol_price, 110);
    let mut short = long.clone();
    short.meta.side = Side::Sell;
    short.mark_to(90);
    assert_eq!(short.meta.unrealised_pnl, 30);
    short.mark_to(120);
    assert_eq!(short.meta.unrealised_pnl, -60);
    let mut huge = long;
    huge.meta.current_size = u64::MAX;
    huge.mark_to(1_000_000);
    assert_eq!(huge.meta.unrealised_pnl, i64::MAX);
}

#[test]
fn net_mode_update_closes_the_opposite_direction() {
    let mut account_positions = AccountPositions::init();
    let instrument = create_instrument(InstrumentKind::Perpetual);
    let mut short = create_test_perpetual_position(instrument.clone());
    short.meta.side = Side::Sell;
    short.pos_config.position_mode = PositionDirectionMode::NetMode;
    account_positions.update_position(Position::Perpetual(short.clone()));
    assert!(account_positions.has_short_position(&instrument).unwrap());
    let mut long = short.clone();
    long.meta.side = Side::Buy;
    account_positions.update_position(Position::Perpetual(long));
    assert!(account_positions.has_long_position(&instrument).unwrap());
    assert!(!account_positions.has_short_position(&instrument).unwrap());
}

#[test]
fn position_ids_depend_on_instrument_and_time() {
    let btc = create_instrument(InstrumentKind::Perpetual);
    let eth = Instrument { base: Token::from("ETH"), quote: Token::from("USDT"), kind: InstrumentKind::Perpetual };
    let a = cerebro_broker::positions::position_id_of(&btc, 5);
    assert_ne!(a, cerebro_broker::positions::position_id_of(&eth, 5));
    assert_ne!(a, cerebro_broker::positions::position_id_of(&btc, 6));
    assert_eq!(a, cerebro_broker::positions::position_id_of(&btc, 5));
}
