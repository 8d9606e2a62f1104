use vstd::prelude::*;
use crate::instrument::{Exchange, Instrument, InstrumentKind, Token};
use crate::text::{decimal, ends_with, signed_decimal, signed_text, text_ends_with, decimal_text};

verus! {

/// Whether `c` is one of the decimal digits.
pub open spec fn is_digit(c: char) -> bool {
    '0' <= c && c <= '9'
}

/// At least one character, all of them decimal digits.
pub open spec fn all_digits(s: Seq<char>) -> bool {
    s.len() > 0 && forall|i: int| 0 <= i < s.len() ==> is_digit(#[trigger] s[i])
}

/// The value of a run of decimal digits.
pub open spec fn digits_value(s: Seq<char>) -> int
    decreases s.len(),
{
    if s.len() == 0 {
        0
    } else {
        digits_value(s.drop_last()) * 10 + (s.last() as int - '0' as int)
    }
}

/// What `str::parse::<i64>` reads from a text: an optional `+` or `-`, then
/// one or more decimal digits, whose value must fit an `i64`; anything else
/// is refused.
pub open spec fn i64_of_text(s: Seq<char>) -> Option<i64> {
    let (negative, digits) = if s.len() > 0 && (s[0] == '-' || s[0] == '+') {
        (s[0] == '-', s.drop_first())
    } else {
        (false, s)
    };
    let v = if negative { -digits_value(digits) } else { digits_value(digits) };
    if all_digits(digits) && i64::MIN <= v <= i64::MAX {
        Some(v as i64)
    } else {
        None
    }
}

/// Relies on `str::parse::<i64>`: an optional sign, then decimal digits, within range.
#[verifier::external_body]
fn parse_i64(s: &str) -> (r: Option<i64>)
    ensures
        r == i64_of_text(s@),
{
    s.parse::<i64>().ok()
}

/// One row of a trade table of the store, amounts in the instrument's units.
#[derive(Clone, Debug, PartialEq, Eq)]
pub struct ClickhouseTrade {
    pub basequote: String,
    pub side: String,
    pub price: u64,
    pub timestamp: i64,
    pub amount: u64,
}

/// A trade as an exchange's websocket feed reports it, every field as text.
#[derive(Clone, Debug, PartialEq, Eq)]
pub struct WsTrade {
    pub inst_id: String,
    pub side: String,
    pub px: String,
    pub ts: String,
}

/// A market datum with the time it happened and the time it was received.
#[derive(Clone, Debug, PartialEq, Eq)]
pub struct MarketEvent<T> {
    pub exchange_time: i64,
    pub received_time: i64,
    pub exchange: Exchange,
    pub instrument: Instrument,
    pub kind: T,
}

impl WsTrade {
    /// The websocket form of a store row: price and timestamp written in decimal.
    pub fn from_ref(data: &ClickhouseTrade) -> (r: WsTrade)
        ensures
            r.inst_id@ == data.basequote@,
            r.side@ == data.side@,
            r.px@ == decimal(data.price as nat),
            r.ts@ == signed_decimal(data.timestamp as int),
    {
        WsTrade {
            inst_id: data.basequote.clone(),
            side: data.side.clone(),
            px: decimal_text(data.price),
            ts: signed_text(data.timestamp),
        }
    }

    /// The websocket form of a store row, taking the row.
    pub fn from_clickhouse(trade: ClickhouseTrade) -> (r: WsTrade)
        ensures
            r.inst_id@ == trade.basequote@,
            r.side@ == trade.side@,
            r.px@ == decimal(trade.price as nat),
            r.ts@ == signed_decimal(trade.timestamp as int),
    {
        WsTrade::from_ref(&trade)
    }
}

impl MarketEvent<WsTrade> {
    /// The event of a websocket trade whose timestamp text was read as
    /// `parsed`; an unreadable timestamp counts as zero.
    pub fn from_ws_trade_parsed(ws_trade: WsTrade, parsed: Option<i64>, base: String, quote: String,
        instrument: InstrumentKind, exchange: Exchange) -> (r: MarketEvent<WsTrade>)
        ensures
            r.exchange_time == (match parsed { Some(t) => t, None => 0 }),
            r.received_time == r.exchange_time,
            r.exchange == exchange,
            r.instrument.base@ == base@ && r.instrument.quote@ == quote@ && r.instrument.kind == instrument,
            r.kind == ws_trade,
    {
        let t = match parsed {
            Some(t) => t,
            None => 0,
        };
        MarketEvent {
            exchange_time: t,
            received_time: t,
            exchange,
            instrument: Instrument { base: Token(base), quote: Token(quote), kind: instrument },
            kind: ws_trade,
        }
    }

    /// The event of a websocket trade; its time is the trade's timestamp text
    /// read as an integer (zero when it cannot be read).
    pub fn from_ws_trade(ws_trade: WsTrade, base: String, quote: String, instrument: InstrumentKind, exchange: Exchange)
        -> (r: MarketEvent<WsTrade>)
        ensures
            r.exchange_time == (match i64_of_text(ws_trade.ts@) { Some(t) => t, None => 0 }),
            r.received_time == r.exchange_time,
            r.exchange == exchange,
            r.instrument.base@ == base@ && r.instrument.quote@ == quote@ && r.instrument.kind == instrument,
            r.kind == ws_trade,
    {
        let parsed = parse_i64(ws_trade.ts.as_str());
        MarketEvent::<WsTrade>::from_ws_trade_parsed(ws_trade, parsed, base, quote, instrument, exchange)
    }
}

impl MarketEvent<ClickhouseTrade> {
    /// The event of a perpetual-swap trade row of the store.
    pub fn from_swap_trade_clickhouse(trade: ClickhouseTrade, base: String, quote: String, exchange: Exchange)
        -> (r: MarketEvent<ClickhouseTrade>)
        ensures
            r.exchange_time == trade.timestamp,
            r.received_time == trade.timestamp,
            r.exchange == exchange,
            r.instrument.base@ == base@ && r.instrument.quote@ == quote@
                && r.instrument.kind == InstrumentKind::Perpetual,
            r.kind == trade,
    {
        let t = trade.timestamp;
        MarketEvent {
            exchange_time: t,
            received_time: t,
            exchange,
            instrument: Instrument { base: Token(base), quote: Token(quote), kind: InstrumentKind::Perpetual },
            kind: trade,
        }
    }
}

/// How a symbol splits into base and quote: the first of `USDT`, `USDC`,
/// `USD`, `UST`, `DAI`, `FDUSD` that ends it is the quote, the rest the base;
/// a symbol with none of them is all base, with an empty quote.
pub open spec fn split_pair(s: Seq<char>) -> (Seq<char>, Seq<char>) {
    let quotes = seq!["USDT"@, "USDC"@, "USD"@, "UST"@, "DAI"@, "FDUSD"@];
    split_with(s, quotes)
}

pub open spec fn split_with(s: Seq<char>, quotes: Seq<Seq<char>>) -> (Seq<char>, Seq<char>)
    decreases quotes.len(),
{
    if quotes.len() == 0 {
        (s, Seq::empty())
    } else if ends_with(s, quotes[0]) {
        (s.subrange(0, s.len() - quotes[0].len()), quotes[0])
    } else {
        split_with(s, quotes.drop_first())
    }
}

fn split_one(basequote: &str, quote: &str) -> (r: Option<(String, String)>)
    ensures
        ends_with(basequote@, quote@) ==> (r matches Some(p)
            && p.0@ == basequote@.subrange(0, basequote@.len() - quote@.len()) && p.1@ == quote@),
        !ends_with(basequote@, quote@) ==> r is None,
{
    if text_ends_with(basequote, quote) {
        let n = basequote.unicode_len();
        let m = quote.unicode_len();
        let base = basequote.substring_char(0, n - m);
        Some((String::from_str(base), String::from_str(quote)))
    } else {
        None
    }
}

/// Splits a symbol such as `BTCUSDT` into base and quote.
pub fn parse_base_and_quote(basequote: &str) -> (r: (String, String))
    ensures
        (r.0@, r.1@) == split_pair(basequote@),
{
    let ghost s = basequote@;
    let ghost quotes = seq!["USDT"@, "USDC"@, "USD"@, "UST"@, "DAI"@, "FDUSD"@];
    proof {
        reveal_with_fuel(split_with, 7);
        assert(quotes[0] == "USDT"@);
        assert(quotes[1] == "USDC"@);
        assert(quotes.drop_first() =~= seq!["USDC"@, "USD"@, "UST"@, "DAI"@, "FDUSD"@]);
        assert(quotes.drop_first().drop_first() =~= seq!["USD"@, "UST"@, "DAI"@, "FDUSD"@]);
        assert(quotes.drop_first().drop_first().drop_first() =~= seq!["UST"@, "DAI"@, "FDUSD"@]);
        assert(quotes.drop_first().drop_first().drop_first().drop_first() =~= seq!["DAI"@, "FDUSD"@]);
        assert(quotes.drop_first().drop_first().drop_first().drop_first().drop_first() =~= seq!["FDUSD"@]);
        assert(quotes.drop_first().drop_first().drop_first().drop_first().drop_first().drop_first() =~= Seq::<Seq<char>>::empty());
    }
    if let Some(p) = split_one(basequote, "USDT") {
        return p;
    }
    if let Some(p) = split_one(basequote, "USDC") {
        return p;
    }
    if let Some(p) = split_one(basequote, "USD") {
        return p;
    }
    if let Some(p) = split_one(basequote, "UST") {
        return p;
    }
    if let Some(p) = split_one(basequote, "DAI") {
        return p;
    }
    if let Some(p) = split_one(basequote, "FDUSD") {
        return p;
    }
    (String::from_str(basequote), String::new())
}

/// The execution clients that the library knows.
#[derive(Copy, Clone, Debug, PartialEq, Eq, Hash, Structural)]
pub enum ExecutionId {
    Simulated,
    Ftx,
}

impl ExecutionId {
    /// The client's lower-case name.
    pub fn as_str(&self) -> (r: &'static str)
        ensures
            r@ == (match self {
                ExecutionId::Simulated => "simulated"@,
                ExecutionId::Ftx => "ftx"@,
            }),
    {
        match self {
            ExecutionId::Simulated => "simulated",
            ExecutionId::Ftx => "ftx",
        }
    }

    /// The venue that this client trades on: the simulated exchange or FTX.
    pub fn exchange(&self) -> (r: Exchange)
        ensures
            r == (match self {
                ExecutionId::Simulated => Exchange::SandBox,
                ExecutionId::Ftx => Exchange::Ftx,
            }),
    {
        match self {
            ExecutionId::Simulated => Exchange::SandBox,
            ExecutionId::Ftx => Exchange::Ftx,
        }
    }
}

} // verus!
