use cerebro_broker::history::{
    construct_database_name, construct_table_name, construct_union_table_name, date_text, drop_table_query,
    join_database_name, next_day, show_tables_query, tables_matching, text_contains, trades_query, ReplayCursor,
    ReplayStep, TradeDate,
};
use cerebro_broker::instrument::{Exchange, InstrumentKind};
use cerebro_broker::latency::{AccountLatency, FluctuationMode};
use cerebro_broker::order::OrderId;
use cerebro_broker::text::decimal_text;
use cerebro_broker::ws_trade::{parse_base_and_quote, ClickhouseTrade, ExecutionId, MarketEvent, WsTrade};

fn d(year: u32, month: u32, day: u32) -> TradeDate {
    TradeDate { year, month, day }
}

#[test]
fn database_and_table_names() {
    assert_eq!(construct_database_name("Binance", "Futures", "Trades"), "binance_futures_trades");
    assert_eq!(join_database_name("a", "b", "c"), "a_b_c");
    assert_eq!(
        construct_table_name("binance", "futures", "trades", d(2024, 3, 7), "BTC", "USDT"),
        "binance_futures_trades_2024_03_07_btc_usdt"
    );
    assert_eq!(
        construct_union_table_name("binance", "futures", "trades", d(2024, 12, 31)),
        "binance_futures_trades_union_2024_12_31"
    );
    assert_eq!(date_text(d(987, 1, 2)), "0987_01_02");
}

#[test]
fn store_queries() {
    assert_eq!(
        trades_query("db", "tbl", true, None),
        "SELECT symbol, side, price, timestamp, amount FROM db.tbl ORDER BY timestamp ASC"
    );
    assert_eq!(
        trades_query("db", "tbl", false, Some((500, 1500))),
        "SELECT symbol, side, price, timestamp, amount FROM db.tbl ORDER BY timestamp DESC LIMIT 500 OFFSET 1500"
    );
    assert_eq!(show_tables_query("db"), "SHOW TABLES FROM db");
    assert_eq!(drop_table_query("db", "tbl"), "DROP TABLE db.tbl");
    assert_eq!(decimal_text(0), "0");
    assert_eq!(decimal_text(1234567890), "1234567890");
}

#[test]
fn tables_matching_a_substring() {
    let tables = vec!["x_union_2024_01_01".to_string(), "x_2024_01_01_btc_usdt".to_string(), "y_union_2024_01_02".to_string()];
    assert_eq!(tables_matching(&tables, "union"), vec!["x_union_2024_01_01".to_string(), "y_union_2024_01_02".to_string()]);
    assert!(text_contains("abc", ""));
    assert!(!text_contains("ab", "abc"));
}

#[test]
fn next_day_crosses_month_and_year() {
    assert_eq!(next_day(d(2024, 1, 31)), Some(d(2024, 2, 1)));
    assert_eq!(next_day(d(2024, 2, 28)), Some(d(2024, 2, 29)));
    assert_eq!(next_day(d(2023, 12, 31)), Some(d(2024, 1, 1)));
    assert_eq!(next_day(d(2023, 2, 30)), None);
}

#[test]
fn union_replay_visits_dates_in_ascending_order() {
    let mut cursor = ReplayCursor::new(d(2024, 1, 31), d(2024, 2, 1), 2);
    let mut seen = Vec::new();
    // two trades per date: one full page, then a short one
    let pages: Vec<u64> = vec![2, 0, 1];
    for rows in pages {
        match cursor.current() {
            ReplayStep::Query { date, limit, offset } => {
                assert_eq!(limit, 2);
                seen.push((date, offset));
            },
            ReplayStep::Done => panic!("finished early"),
        }
        cursor.on_page(rows);
    }
    assert_eq!(cursor.current(), ReplayStep::Done);
    assert_eq!(seen, vec![(d(2024, 1, 31), 0), (d(2024, 1, 31), 2), (d(2024, 2, 1), 0)]);
}

#[test]
fn replay_skips_a_failing_date_and_handles_empty_ranges() {
    let mut cursor = ReplayCursor::new(d(2024, 1, 1), d(2024, 1, 3), 10);
    cursor.on_error();
    assert_eq!(cursor.current(), ReplayStep::Query { date: d(2024, 1, 2), limit: 10, offset: 0 });
    assert_eq!(ReplayCursor::new(d(2024, 1, 2), d(2024, 1, 1), 10).current(), ReplayStep::Done);
    assert_eq!(ReplayCursor::new(d(2024, 1, 1), d(2024, 1, 1), 0).current(), ReplayStep::Done);
}

#[test]
fn symbols_split_into_base_and_quote() {
    assert_eq!(parse_base_and_quote("BTCUSDT"), ("BTC".to_string(), "USDT".to_string()));
    assert_eq!(parse_base_and_quote("ETHUSD"), ("ETH".to_string(), "USD".to_string()));
    assert_eq!(parse_base_and_quote("SOLFDUSD"), ("SOLFD".to_string(), "USD".to_string()));
    assert_eq!(parse_base_and_quote("XYZ"), ("XYZ".to_string(), String::new()));
}

#[test]
fn websocket_trades_from_store_rows() {
    let row = ClickhouseTrade { basequote: "BTCUSDT".to_string(), side: "buy".to_string(), price: 50000, timestamp: 1625097600000, amount: 3 };
    let ws = WsTrade::from_ref(&row);
    assert_eq!(ws.px, "50000");
    assert_eq!(ws.ts, "1625097600000");
    let negative = ClickhouseTrade { timestamp: -5, ..row.clone() };
    assert_eq!(WsTrade::from_clickhouse(negative).ts, "-5");
    let e = MarketEvent::<WsTrade>::from_ws_trade(ws.clone(), "BTC".to_string(), "USDT".to_string(), InstrumentKind::Spot, Exchange::Okex);
    assert_eq!(e.exchange_time, 1625097600000);
    assert_eq!(e.received_time, 1625097600000);
    let bad = WsTrade { ts: "soon".to_string(), ..ws };
    let e = MarketEvent::<WsTrade>::from_ws_trade(bad, "BTC".to_string(), "USDT".to_string(), InstrumentKind::Spot, Exchange::Okex);
    assert_eq!(e.exchange_time, 0);
    let e = MarketEvent::<ClickhouseTrade>::from_swap_trade_clickhouse(row, "BTC".to_string(), "USDT".to_string(), Exchange::Binance);
    assert_eq!(e.exchange_time, 1625097600000);
    assert_eq!(e.instrument.kind, InstrumentKind::Perpetual);
}

#[test]
fn execution_ids_and_order_ids() {
    assert_eq!(ExecutionId::Simulated.as_str(), "simulated");
    assert_eq!(ExecutionId::Ftx.as_str(), "ftx");
    assert_eq!(OrderId::new(1, 2, 3).0, (1 * 1024 + 2) * 4096 + 3);
}

#[test]
fn latency_stays_within_bounds() {
    let mut l = AccountLatency::new(FluctuationMode::Uniform, 100, 10);
    assert_eq!(l.advance(95), 14);
    assert_eq!(l.current_value, 14);
    assert_eq!(l.advance(90), 100);
    let mut flat = AccountLatency::new(FluctuationMode::NoFluctuation, 100, 10);
    assert_eq!(flat.advance(55), 10);
}

#[test]
fn websocket_timestamps_parse_like_integers() {
    let ws = WsTrade { inst_id: "BTCUSDT".to_string(), side: "buy".to_string(), px: "1".to_string(), ts: "+42".to_string() };
    let e = MarketEvent::<WsTrade>::from_ws_trade(ws.clone(), "BTC".to_string(), "USDT".to_string(), InstrumentKind::Spot, Exchange::Okex);
    assert_eq!(e.exchange_time, 42);
    let neg = WsTrade { ts: "-7".to_string(), ..ws.clone() };
    assert_eq!(MarketEvent::<WsTrade>::from_ws_trade(neg, "BTC".to_string(), "USDT".to_string(), InstrumentKind::Spot, Exchange::Okex).exchange_time, -7);
    let too_big = WsTrade { ts: "9223372036854775808".to_string(), ..ws };
    assert_eq!(MarketEvent::<WsTrade>::from_ws_trade(too_big, "BTC".to_string(), "USDT".to_string(), InstrumentKind::Spot, Exchange::Okex).exchange_time, 0);
}

#[test]
fn replay_crosses_a_leap_day() {
    let mut cursor = ReplayCursor::new(d(2024, 2, 28), d(2024, 3, 1), 5);
    cursor.on_page(0);
    assert_eq!(cursor.current(), ReplayStep::Query { date: d(2024, 2, 29), limit: 5, offset: 0 });
    cursor.on_page(0);
    assert_eq!(cursor.current(), ReplayStep::Query { date: d(2024, 3, 1), limit: 5, offset: 0 });
}
