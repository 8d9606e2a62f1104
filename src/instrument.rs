use vstd::prelude::*;

verus! {

/// An opaque asset symbol such as `BTC` or `USDT`.
#[derive(Clone, Debug, PartialEq, Eq, Hash)]
pub struct Token(pub String);

impl Token {
    pub open spec fn view(&self) -> Seq<char> {
        self.0@
    }

    /// Builds a token from its symbol.
    pub fn new(symbol: &str) -> (r: Token)
        ensures
            r@ == symbol@,
    {
        Token(symbol.to_string())
    }

    /// A copy that is equal to `self`.
    pub fn duplicate(&self) -> (r: Token)
        ensures
            r == *self,
    {
        Token(self.0.clone())
    }

    /// Whether the two tokens carry the same symbol.
    pub fn same(&self, other: &Token) -> (r: bool)
        ensures
            r == (self@ == other@),
    {
        self.0 == other.0
    }
}

impl From<&str> for Token {
    fn from(symbol: &str) -> (r: Token) {
        Token(symbol.to_string())
    }
}

impl vstd::std_specs::convert::FromSpecImpl<&str> for Token {
    open spec fn obeys_from_spec() -> bool {
        false
    }

    open spec fn from_spec(symbol: &str) -> Token {
        arbitrary()
    }
}

/// The kinds of tradeable instrument.
#[derive(Copy, Clone, Debug, PartialEq, Eq, Hash, Structural)]
pub enum InstrumentKind {
    Spot,
    Perpetual,
    Future,
    CryptoOption,
    CryptoLeveragedToken,
    CommodityFuture,
    CommodityOption,
}

/// A tradeable pair of tokens of a given kind.
#[derive(Clone, Debug, PartialEq, Eq, Hash)]
pub struct Instrument {
    pub base: Token,
    pub quote: Token,
    pub kind: InstrumentKind,
}

/// Buy or sell.
#[derive(Copy, Clone, Debug, PartialEq, Eq, Hash, Structural)]
pub enum Side {
    Buy,
    Sell,
}

impl Side {
    pub open spec fn flip(self) -> Side {
        match self {
            Side::Buy => Side::Sell,
            Side::Sell => Side::Buy,
        }
    }

    /// The opposite side.
    pub fn opposite(self) -> (r: Side)
        ensures
            r == self.flip(),
    {
        match self {
            Side::Buy => Side::Sell,
            Side::Sell => Side::Buy,
        }
    }
}

/// The venues that events and orders are attributed to.
#[derive(Copy, Clone, Debug, PartialEq, Eq, Hash, Structural)]
pub enum Exchange {
    SandBox,
    Binance,
    Okex,
    Ftx,
}

impl Exchange {
    /// The venue's lower-case name.
    pub fn as_str(&self) -> &'static str {
        match self {
            Exchange::SandBox => "sandbox",
            Exchange::Binance => "binance",
            Exchange::Okex => "okex",
            Exchange::Ftx => "ftx",
        }
    }
}

impl Instrument {
    pub open spec fn view(&self) -> (Seq<char>, Seq<char>, InstrumentKind) {
        (self.base@, self.quote@, self.kind)
    }

    pub fn new(base: &str, quote: &str, kind: InstrumentKind) -> (r: Instrument)
        ensures
            r.base@ == base@,
            r.quote@ == quote@,
            r.kind == kind,
    {
        Instrument { base: Token::new(base), quote: Token::new(quote), kind }
    }

    /// A copy that is equal to `self`.
    pub fn duplicate(&self) -> (r: Instrument)
        ensures
            r == *self,
    {
        Instrument { base: self.base.duplicate(), quote: self.quote.duplicate(), kind: self.kind }
    }

    /// Structural equality: same base, same quote, same kind.
    pub fn same(&self, other: &Instrument) -> (r: bool)
        ensures
            r == (self@ == other@),
    {
        if !self.base.same(&other.base) || !self.quote.same(&other.quote) {
            return false;
        }
        self.kind == other.kind
    }
}

} // verus!
