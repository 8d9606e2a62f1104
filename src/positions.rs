use vstd::prelude::*;
use crate::balance::{Balance, TokenBalance};
use crate::config::AccountConfig;
use crate::order::in_range;
use crate::trade::ClientTrade;
use crate::error::ExchangeError;
use crate::instrument::{Exchange, Instrument, InstrumentKind, Side};

verus! {

/// One direction per instrument (net) or both directions side by side.
#[derive(Copy, Clone, Debug, PartialEq, Eq, Structural)]
pub enum PositionDirectionMode {
    LongShortMode,
    NetMode,
}

/// Margin shared across positions or held per position.
#[derive(Copy, Clone, Debug, PartialEq, Eq, Structural)]
pub enum PositionMarginMode {
    Cross,
    Isolated,
}

/// The fields that every kind of position shares.
#[derive(Clone, Debug, PartialEq, Eq)]
pub struct PositionMeta {
    pub position_id: u64,
    pub enter_ts: i64,
    pub update_ts: i64,
    pub exit_balance: TokenBalance,
    pub exchange: Exchange,
    pub instrument: Instrument,
    pub side: Side,
    pub current_size: u64,
    pub current_fees_total: i64,
    pub current_avg_price_gross: u64,
    pub current_symbol_price: u64,
    pub current_avg_price: u64,
    pub unrealised_pnl: i64,
    pub realised_pnl: i64,
}

#[derive(Copy, Clone, Debug, PartialEq, Eq, Structural)]
pub struct PerpetualPositionConfig {
    pub pos_margin_mode: PositionMarginMode,
    pub leverage: u64,
    pub position_mode: PositionDirectionMode,
}

#[derive(Clone, Debug, PartialEq, Eq)]
pub struct PerpetualPosition {
    pub meta: PositionMeta,
    pub pos_config: PerpetualPositionConfig,
    pub liquidation_price: u64,
    pub margin: i64,
}

impl PositionMeta {
    /// A copy that is equal to `self`.
    pub fn duplicate(&self) -> (r: PositionMeta)
        ensures
            r == *self,
    {
        PositionMeta {
            position_id: self.position_id,
            enter_ts: self.enter_ts,
            update_ts: self.update_ts,
            exit_balance: TokenBalance { token: self.exit_balance.token.duplicate(), balance: self.exit_balance.balance },
            exchange: self.exchange,
            instrument: self.instrument.duplicate(),
            side: self.side,
            current_size: self.current_size,
            current_fees_total: self.current_fees_total,
            current_avg_price_gross: self.current_avg_price_gross,
            current_symbol_price: self.current_symbol_price,
            current_avg_price: self.current_avg_price,
            unrealised_pnl: self.unrealised_pnl,
            realised_pnl: self.realised_pnl,
        }
    }
}

impl PerpetualPosition {
    /// A copy that is equal to `self`.
    pub fn clone_position(&self) -> (r: PerpetualPosition)
        ensures
            r == *self,
    {
        PerpetualPosition {
            meta: self.meta.duplicate(),
            pos_config: self.pos_config,
            liquidation_price: self.liquidation_price,
            margin: self.margin,
        }
    }
}

#[derive(Copy, Clone, Debug, PartialEq, Eq, Structural)]
pub struct FuturePositionConfig {
    pub pos_margin_mode: PositionMarginMode,
    pub leverage: u64,
    pub position_mode: PositionDirectionMode,
}

#[derive(Clone, Debug, PartialEq, Eq)]
pub struct FuturePosition {
    pub meta: PositionMeta,
    pub pos_config: FuturePositionConfig,
    pub liquidation_price: u64,
    pub margin: i64,
    pub funding_fee: i64,
}

#[derive(Clone, Debug, PartialEq, Eq)]
pub struct LeveragedTokenPosition {
    pub meta: PositionMeta,
    pub leverage: u64,
    pub margin: i64,
}

#[derive(Clone, Debug, PartialEq, Eq)]
pub struct OptionPosition {
    pub meta: PositionMeta,
}

/// A position of any kind.
#[derive(Clone, Debug, PartialEq, Eq)]
pub enum Position {
    Perpetual(PerpetualPosition),
    LeveragedToken(LeveragedTokenPosition),
    Future(FuturePosition),
    Option(OptionPosition),
}

/// A kind of position, as far as the ledger looks into it.
pub trait PositionRecord {
    spec fn spec_meta(&self) -> PositionMeta;

    fn meta(&self) -> (r: &PositionMeta)
        ensures
            *r == self.spec_meta(),
    ;
}

impl PositionRecord for PerpetualPosition {
    open spec fn spec_meta(&self) -> PositionMeta {
        self.meta
    }

    fn meta(&self) -> (r: &PositionMeta) {
        &self.meta
    }
}

impl PositionRecord for FuturePosition {
    open spec fn spec_meta(&self) -> PositionMeta {
        self.meta
    }

    fn meta(&self) -> (r: &PositionMeta) {
        &self.meta
    }
}

impl PositionRecord for LeveragedTokenPosition {
    open spec fn spec_meta(&self) -> PositionMeta {
        self.meta
    }

    fn meta(&self) -> (r: &PositionMeta) {
        &self.meta
    }
}

impl PositionRecord for OptionPosition {
    open spec fn spec_meta(&self) -> PositionMeta {
        self.meta
    }

    fn meta(&self) -> (r: &PositionMeta) {
        &self.meta
    }
}

/// Whether some position of `s` is on `instrument`.
pub open spec fn holds<P: PositionRecord>(s: Seq<P>, instrument: (Seq<char>, Seq<char>, InstrumentKind)) -> bool {
    exists|i: int| 0 <= i < s.len() && (#[trigger] s[i]).spec_meta().instrument@ == instrument
}

/// The index of the first position of `v` on `instrument`.
pub fn find_position<P: PositionRecord>(v: &Vec<P>, instrument: &Instrument) -> (r: Option<usize>)
    ensures
        r is None <==> !holds(v@, instrument@),
        r matches Some(i) ==> i < v@.len() && v@[i as int].spec_meta().instrument@ == instrument@
            && forall|j: int| 0 <= j < i ==> (#[trigger] v@[j]).spec_meta().instrument@ != instrument@,
{
    let mut i: usize = 0;
    while i < v.len()
        invariant
            0 <= i <= v@.len(),
            forall|j: int| 0 <= j < i ==> (#[trigger] v@[j]).spec_meta().instrument@ != instrument@,
        decreases v@.len() - i,
    {
        if v[i].meta().instrument.same(instrument) {
            return Some(i);
        }
        i += 1;
    }
    None
}

/// Replaces the position on the same instrument, or adds it when there is none.
pub fn upsert_position<P: PositionRecord>(v: &mut Vec<P>, p: P)
    ensures
        holds(old(v)@, p.spec_meta().instrument@) ==> exists|i: int|
            0 <= i < old(v)@.len() && (#[trigger] old(v)@[i]).spec_meta().instrument@ == p.spec_meta().instrument@
            && final(v)@ == old(v)@.update(i, p),
        !holds(old(v)@, p.spec_meta().instrument@) ==> final(v)@ == old(v)@.push(p),
        forall|x: (Seq<char>, Seq<char>, InstrumentKind)|
            #[trigger] holds(old(v)@, x) ==> holds(final(v)@, x),
        forall|x: (Seq<char>, Seq<char>, InstrumentKind)|
            #[trigger] holds(final(v)@, x) ==> holds(old(v)@, x) || x == p.spec_meta().instrument@,
        final(v)@.contains(p),
{
    let ghost a = v@;
    let found = find_position(v, &p.meta().instrument);
    match found {
        Some(i) => {
            v.set(i, p);
            proof {
                assert(v@[i as int] == p);
                assert forall|x: (Seq<char>, Seq<char>, InstrumentKind)| #[trigger] holds(v@, x)
                    implies holds(a, x) || x == p.spec_meta().instrument@ by {
                    let j = choose|j: int| 0 <= j < v@.len() && (#[trigger] v@[j]).spec_meta().instrument@ == x;
                    if j != i {
                        assert(v@[j] == a[j]);
                    }
                }
                assert forall|x: (Seq<char>, Seq<char>, InstrumentKind)| #[trigger] holds(a, x) implies holds(v@, x) by {
                    let j = choose|j: int| 0 <= j < a.len() && (#[trigger] a[j]).spec_meta().instrument@ == x;
                    if j == i {
                        assert(v@[j].spec_meta().instrument@ == x);
                    } else {
                        assert(v@[j] == a[j]);
                    }
                }
            }
        },
        None => {
            v.push(p);
            proof {
                assert(v@[a.len() as int] == p);
                assert forall|x: (Seq<char>, Seq<char>, InstrumentKind)| #[trigger] holds(v@, x)
                    implies holds(a, x) || x == p.spec_meta().instrument@ by {
                    let j = choose|j: int| 0 <= j < v@.len() && (#[trigger] v@[j]).spec_meta().instrument@ == x;
                    if j < a.len() {
                        assert(v@[j] == a[j]);
                    }
                }
                assert forall|x: (Seq<char>, Seq<char>, InstrumentKind)| #[trigger] holds(a, x) implies holds(v@, x) by {
                    let j = choose|j: int| 0 <= j < a.len() && (#[trigger] a[j]).spec_meta().instrument@ == x;
                    assert(v@[j] == a[j]);
                }
            }
        },
    }
}

/// Removes every position of `v` on `instrument`; the others stay.
pub fn remove_instrument<P: PositionRecord>(v: &mut Vec<P>, instrument: &Instrument)
    ensures
        !holds(final(v)@, instrument@),
        forall|x: (Seq<char>, Seq<char>, InstrumentKind)|
            #[trigger] holds(final(v)@, x) ==> holds(old(v)@, x) && x != instrument@,
        forall|x: (Seq<char>, Seq<char>, InstrumentKind)|
            #[trigger] holds(old(v)@, x) && x != instrument@ ==> holds(final(v)@, x),
{
    let ghost a = v@;
    loop
        invariant
            forall|x: (Seq<char>, Seq<char>, InstrumentKind)|
                #[trigger] holds(v@, x) ==> holds(a, x),
            forall|x: (Seq<char>, Seq<char>, InstrumentKind)|
                #[trigger] holds(a, x) && x != instrument@ ==> holds(v@, x),
        ensures
            !holds(v@, instrument@),
            forall|x: (Seq<char>, Seq<char>, InstrumentKind)|
                #[trigger] holds(v@, x) ==> holds(a, x),
            forall|x: (Seq<char>, Seq<char>, InstrumentKind)|
                #[trigger] holds(a, x) && x != instrument@ ==> holds(v@, x),
        decreases v@.len(),
    {
        match find_position(v, instrument) {
            None => break,
            Some(i) => {
                let ghost b = v@;
                v.remove(i);
                proof {
                    assert forall|x: (Seq<char>, Seq<char>, InstrumentKind)| #[trigger] holds(v@, x) implies holds(a, x) by {
                        let j = choose|j: int| 0 <= j < v@.len() && (#[trigger] v@[j]).spec_meta().instrument@ == x;
                        let j0 = if j < i { j } else { j + 1 };
                        assert(v@[j] == b[j0]);
                        assert(holds(b, x));
                    }
                    assert forall|x: (Seq<char>, Seq<char>, InstrumentKind)| #[trigger] holds(a, x) && x != instrument@
                        implies holds(v@, x) by {
                        assert(holds(b, x));
                        let j = choose|j: int| 0 <= j < b.len() && (#[trigger] b[j]).spec_meta().instrument@ == x;
                        assert(j != i);
                        let j1 = if j < i { j } else { j - 1 };
                        assert(v@[j1] == b[j]);
                    }
                }
            },
        }
    }
}

/// `new` is `old` with `p` stored: the entry on `p`'s instrument replaced, or `p` appended.
pub open spec fn upserted<P: PositionRecord>(old: Seq<P>, new: Seq<P>, p: P) -> bool {
    &&& holds(old, p.spec_meta().instrument@) ==> exists|i: int|
        0 <= i < old.len() && (#[trigger] old[i]).spec_meta().instrument@ == p.spec_meta().instrument@
        && new == old.update(i, p)
    &&& !holds(old, p.spec_meta().instrument@) ==> new == old.push(p)
}

/// `new` is `old` without any entry on `instrument`, the other instruments kept.
pub open spec fn cleared<P: PositionRecord>(old: Seq<P>, new: Seq<P>, instrument: (Seq<char>, Seq<char>, InstrumentKind)) -> bool {
    &&& !holds(new, instrument)
    &&& forall|x: (Seq<char>, Seq<char>, InstrumentKind)| #[trigger] holds(new, x) ==> holds(old, x) && x != instrument
    &&& forall|x: (Seq<char>, Seq<char>, InstrumentKind)| #[trigger] holds(old, x) && x != instrument ==> holds(new, x)
}

/// Whether storing `p` happens in net mode, where one direction excludes the other.
pub open spec fn stored_in_net_mode(p: Position) -> bool {
    match p {
        Position::Perpetual(q) => q.pos_config.position_mode == PositionDirectionMode::NetMode,
        Position::Future(q) => q.pos_config.position_mode == PositionDirectionMode::NetMode,
        _ => false,
    }
}

/// The kinds for which positions are kept: perpetuals, futures, crypto options
/// and leveraged tokens.
pub open spec fn keeps_positions(kind: InstrumentKind) -> bool {
    kind == InstrumentKind::Perpetual || kind == InstrumentKind::Future || kind == InstrumentKind::CryptoOption
        || kind == InstrumentKind::CryptoLeveragedToken
}

/// The positions of an account, one collection per kind and direction.
#[derive(Clone, Debug, PartialEq, Eq)]
pub struct AccountPositions {
    pub margin_pos_long: Vec<LeveragedTokenPosition>,
    pub margin_pos_short: Vec<LeveragedTokenPosition>,
    pub perpetual_pos_long: Vec<PerpetualPosition>,
    pub perpetual_pos_short: Vec<PerpetualPosition>,
    pub futures_pos_long: Vec<FuturePosition>,
    pub futures_pos_short: Vec<FuturePosition>,
    pub option_pos_long_call: Vec<OptionPosition>,
    pub option_pos_long_put: Vec<OptionPosition>,
    pub option_pos_short_call: Vec<OptionPosition>,
    pub option_pos_short_put: Vec<OptionPosition>,
}

impl AccountPositions {
    /// Whether a long position is held on `instrument`; kinds that keep no
    /// positions (spot and commodities) never hold one.
    pub open spec fn long_held(&self, instrument: (Seq<char>, Seq<char>, InstrumentKind)) -> bool {
        match instrument.2 {
            InstrumentKind::Perpetual => holds(self.perpetual_pos_long@, instrument),
            InstrumentKind::Future => holds(self.futures_pos_long@, instrument),
            InstrumentKind::CryptoOption => holds(self.option_pos_long_call@, instrument),
            InstrumentKind::CryptoLeveragedToken => holds(self.margin_pos_long@, instrument),
            _ => false,
        }
    }

    /// Whether a short position is held on `instrument`.
    pub open spec fn short_held(&self, instrument: (Seq<char>, Seq<char>, InstrumentKind)) -> bool {
        match instrument.2 {
            InstrumentKind::Perpetual => holds(self.perpetual_pos_short@, instrument),
            InstrumentKind::Future => holds(self.futures_pos_short@, instrument),
            InstrumentKind::CryptoOption => holds(self.option_pos_short_put@, instrument),
            InstrumentKind::CryptoLeveragedToken => holds(self.margin_pos_short@, instrument),
            _ => false,
        }
    }

    /// No positions at all.
    pub fn init() -> (r: AccountPositions)
        ensures
            r.is_empty(),
    {
        AccountPositions {
            margin_pos_long: Vec::new(),
            margin_pos_short: Vec::new(),
            perpetual_pos_long: Vec::new(),
            perpetual_pos_short: Vec::new(),
            futures_pos_long: Vec::new(),
            futures_pos_short: Vec::new(),
            option_pos_long_call: Vec::new(),
            option_pos_long_put: Vec::new(),
            option_pos_short_call: Vec::new(),
            option_pos_short_put: Vec::new(),
        }
    }

    pub open spec fn is_empty(&self) -> bool {
        &&& self.margin_pos_long@.len() == 0
        &&& self.margin_pos_short@.len() == 0
        &&& self.perpetual_pos_long@.len() == 0
        &&& self.perpetual_pos_short@.len() == 0
        &&& self.futures_pos_long@.len() == 0
        &&& self.futures_pos_short@.len() == 0
        &&& self.option_pos_long_call@.len() == 0
        &&& self.option_pos_long_put@.len() == 0
        &&& self.option_pos_short_call@.len() == 0
        &&& self.option_pos_short_put@.len() == 0
    }

    /// Stores `new_position` in the collection of its kind and side, replacing
    /// the position on the same instrument if there is one; the other
    /// collections stay. In net mode a perpetual or future position closes the
    /// opposite direction on its instrument, so one direction alone is held.
    /// Options go long as calls and short as puts.
    pub fn update_position(&mut self, new_position: Position)
        ensures
            match new_position {
                Position::Perpetual(p) => match p.meta.side {
                    Side::Buy => Self::same_but_kind_perpetual(*old(self), *final(self))
                        && upserted(old(self).perpetual_pos_long@, final(self).perpetual_pos_long@, p)
                        && if p.pos_config.position_mode == PositionDirectionMode::NetMode {
                            cleared(old(self).perpetual_pos_short@, final(self).perpetual_pos_short@, p.meta.instrument@)
                        } else {
                            final(self).perpetual_pos_short@ == old(self).perpetual_pos_short@
                        },
                    Side::Sell => Self::same_but_kind_perpetual(*old(self), *final(self))
                        && upserted(old(self).perpetual_pos_short@, final(self).perpetual_pos_short@, p)
                        && if p.pos_config.position_mode == PositionDirectionMode::NetMode {
                            cleared(old(self).perpetual_pos_long@, final(self).perpetual_pos_long@, p.meta.instrument@)
                        } else {
                            final(self).perpetual_pos_long@ == old(self).perpetual_pos_long@
                        },
                },
                Position::Future(p) => match p.meta.side {
                    Side::Buy => Self::same_but_kind_future(*old(self), *final(self))
                        && upserted(old(self).futures_pos_long@, final(self).futures_pos_long@, p)
                        && if p.pos_config.position_mode == PositionDirectionMode::NetMode {
                            cleared(old(self).futures_pos_short@, final(self).futures_pos_short@, p.meta.instrument@)
                        } else {
                            final(self).futures_pos_short@ == old(self).futures_pos_short@
                        },
                    Side::Sell => Self::same_but_kind_future(*old(self), *final(self))
                        && upserted(old(self).futures_pos_short@, final(self).futures_pos_short@, p)
                        && if p.pos_config.position_mode == PositionDirectionMode::NetMode {
                            cleared(old(self).futures_pos_long@, final(self).futures_pos_long@, p.meta.instrument@)
                        } else {
                            final(self).futures_pos_long@ == old(self).futures_pos_long@
                        },
                },
                Position::LeveragedToken(p) => match p.meta.side {
                    Side::Buy => Self::same_but_margin_long(*old(self), *final(self))
                        && upserted(old(self).margin_pos_long@, final(self).margin_pos_long@, p),
                    Side::Sell => Self::same_but_margin_short(*old(self), *final(self))
                        && upserted(old(self).margin_pos_short@, final(self).margin_pos_short@, p),
                },
                Position::Option(p) => match p.meta.side {
                    Side::Buy => Self::same_but_option_long_call(*old(self), *final(self))
                        && upserted(old(self).option_pos_long_call@, final(self).option_pos_long_call@, p),
                    Side::Sell => Self::same_but_option_short_put(*old(self), *final(self))
                        && upserted(old(self).option_pos_short_put@, final(self).option_pos_short_put@, p),
                },
            },
            stored_in_net_mode(new_position) ==> forall|i: (Seq<char>, Seq<char>, InstrumentKind)|
                !(old(self).long_held(i) && old(self).short_held(i))
                    ==> !(#[trigger] final(self).long_held(i) && final(self).short_held(i)),
    {
        let ghost pre = *self;
        match new_position {
            Position::Perpetual(p) => {
                let net = match p.pos_config.position_mode {
                    PositionDirectionMode::NetMode => true,
                    PositionDirectionMode::LongShortMode => false,
                };
                let ghost inst = p.meta.instrument@;
                match p.meta.side {
                    Side::Buy => {
                        if net {
                            remove_instrument(&mut self.perpetual_pos_short, &p.meta.instrument);
                        }
                        upsert_position(&mut self.perpetual_pos_long, p);
                    },
                    Side::Sell => {
                        if net {
                            remove_instrument(&mut self.perpetual_pos_long, &p.meta.instrument);
                        }
                        upsert_position(&mut self.perpetual_pos_short, p);
                    },
                }
                proof {
                    if net {
                        assert forall|i: (Seq<char>, Seq<char>, InstrumentKind)|
                            !(pre.long_held(i) && pre.short_held(i))
                                implies !(#[trigger] self.long_held(i) && self.short_held(i)) by {
                            if i.2 == InstrumentKind::Perpetual && self.long_held(i) && self.short_held(i) {
                                assert(holds(self.perpetual_pos_long@, i));
                                assert(holds(self.perpetual_pos_short@, i));
                            }
                        }
                    }
                }
            },
            Position::Future(p) => {
                let net = match p.pos_config.position_mode {
                    PositionDirectionMode::NetMode => true,
                    PositionDirectionMode::LongShortMode => false,
                };
                match p.meta.side {
                    Side::Buy => {
                        if net {
                            remove_instrument(&mut self.futures_pos_short, &p.meta.instrument);
                        }
                        upsert_position(&mut self.futures_pos_long, p);
                    },
                    Side::Sell => {
                        if net {
                            remove_instrument(&mut self.futures_pos_long, &p.meta.instrument);
                        }
                        upsert_position(&mut self.futures_pos_short, p);
                    },
                }
                proof {
                    if net {
                        assert forall|i: (Seq<char>, Seq<char>, InstrumentKind)|
                            !(pre.long_held(i) && pre.short_held(i))
                                implies !(#[trigger] self.long_held(i) && self.short_held(i)) by {
                            if i.2 == InstrumentKind::Future && self.long_held(i) && self.short_held(i) {
                                assert(holds(self.futures_pos_long@, i));
                                assert(holds(self.futures_pos_short@, i));
                            }
                        }
                    }
                }
            },
            Position::LeveragedToken(p) => match p.meta.side {
                Side::Buy => upsert_position(&mut self.margin_pos_long, p),
                Side::Sell => upsert_position(&mut self.margin_pos_short, p),
            },
            Position::Option(p) => match p.meta.side {
                Side::Buy => upsert_position(&mut self.option_pos_long_call, p),
                Side::Sell => upsert_position(&mut self.option_pos_short_put, p),
            },
        }
    }

    /// Every collection but those of kind perpetual is the same in `a` and `b`.
    pub open spec fn same_but_kind_perpetual(a: AccountPositions, b: AccountPositions) -> bool {
        &&& a.margin_pos_long@ == b.margin_pos_long@
        &&& a.margin_pos_short@ == b.margin_pos_short@
        &&& a.futures_pos_long@ == b.futures_pos_long@
        &&& a.futures_pos_short@ == b.futures_pos_short@
        &&& a.option_pos_long_call@ == b.option_pos_long_call@
        &&& a.option_pos_long_put@ == b.option_pos_long_put@
        &&& a.option_pos_short_call@ == b.option_pos_short_call@
        &&& a.option_pos_short_put@ == b.option_pos_short_put@
    }

    /// Every collection but those of kind future is the same in `a` and `b`.
    pub open spec fn same_but_kind_future(a: AccountPositions, b: AccountPositions) -> bool {
        &&& a.margin_pos_long@ == b.margin_pos_long@
        &&& a.margin_pos_short@ == b.margin_pos_short@
        &&& a.perpetual_pos_long@ == b.perpetual_pos_long@
        &&& a.perpetual_pos_short@ == b.perpetual_pos_short@
        &&& a.option_pos_long_call@ == b.option_pos_long_call@
        &&& a.option_pos_long_put@ == b.option_pos_long_put@
        &&& a.option_pos_short_call@ == b.option_pos_short_call@
        &&& a.option_pos_short_put@ == b.option_pos_short_put@
    }

    /// Every collection but those of margin long is the same in `a` and `b`.
    pub open spec fn same_but_margin_long(a: AccountPositions, b: AccountPositions) -> bool {
        &&& a.margin_pos_short@ == b.margin_pos_short@
        &&& a.perpetual_pos_long@ == b.perpetual_pos_long@
        &&& a.perpetual_pos_short@ == b.perpetual_pos_short@
        &&& a.futures_pos_long@ == b.futures_pos_long@
        &&& a.futures_pos_short@ == b.futures_pos_short@
        &&& a.option_pos_long_call@ == b.option_pos_long_call@
        &&& a.option_pos_long_put@ == b.option_pos_long_put@
        &&& a.option_pos_short_call@ == b.option_pos_short_call@
        &&& a.option_pos_short_put@ == b.option_pos_short_put@
    }

    /// Every collection but those of margin short is the same in `a` and `b`.
    pub open spec fn same_but_margin_short(a: AccountPositions, b: AccountPositions) -> bool {
        &&& a.margin_pos_long@ == b.margin_pos_long@
        &&& a.perpetual_pos_long@ == b.perpetual_pos_long@
        &&& a.perpetual_pos_short@ == b.perpetual_pos_short@
        &&& a.futures_pos_long@ == b.futures_pos_long@
        &&& a.futures_pos_short@ == b.futures_pos_short@
        &&& a.option_pos_long_call@ == b.option_pos_long_call@
        &&& a.option_pos_long_put@ == b.option_pos_long_put@
        &&& a.option_pos_short_call@ == b.option_pos_short_call@
        &&& a.option_pos_short_put@ == b.option_pos_short_put@
    }

    /// Every collection but those of option long call is the same in `a` and `b`.
    pub open spec fn same_but_option_long_call(a: AccountPositions, b: AccountPositions) -> bool {
        &&& a.margin_pos_long@ == b.margin_pos_long@
        &&& a.margin_pos_short@ == b.margin_pos_short@
        &&& a.perpetual_pos_long@ == b.perpetual_pos_long@
        &&& a.perpetual_pos_short@ == b.perpetual_pos_short@
        &&& a.futures_pos_long@ == b.futures_pos_long@
        &&& a.futures_pos_short@ == b.futures_pos_short@
        &&& a.option_pos_long_put@ == b.option_pos_long_put@
        &&& a.option_pos_short_call@ == b.option_pos_short_call@
        &&& a.option_pos_short_put@ == b.option_pos_short_put@
    }

    /// Every collection but those of option short put is the same in `a` and `b`.
    pub open spec fn same_but_option_short_put(a: AccountPositions, b: AccountPositions) -> bool {
        &&& a.margin_pos_long@ == b.margin_pos_long@
        &&& a.margin_pos_short@ == b.margin_pos_short@
        &&& a.perpetual_pos_long@ == b.perpetual_pos_long@
        &&& a.perpetual_pos_short@ == b.perpetual_pos_short@
        &&& a.futures_pos_long@ == b.futures_pos_long@
        &&& a.futures_pos_short@ == b.futures_pos_short@
        &&& a.option_pos_long_call@ == b.option_pos_long_call@
        &&& a.option_pos_long_put@ == b.option_pos_long_put@
        &&& a.option_pos_short_call@ == b.option_pos_short_call@
    }

    /// Whether a long position is held on `instrument`; kinds that keep no
    /// positions (spot and commodities) are refused.
    pub fn has_long_position(&self, instrument: &Instrument) -> (r: Result<bool, ExchangeError>)
        ensures
            keeps_positions(instrument.kind) ==> r == Ok::<bool, ExchangeError>(self.long_held(instrument@)),
            !keeps_positions(instrument.kind) ==> r == Err::<bool, ExchangeError>(ExchangeError::UnsupportedInstrument),
    {
        match instrument.kind {
            InstrumentKind::Perpetual => Ok(find_position(&self.perpetual_pos_long, instrument).is_some()),
            InstrumentKind::Future => Ok(find_position(&self.futures_pos_long, instrument).is_some()),
            InstrumentKind::CryptoOption => Ok(find_position(&self.option_pos_long_call, instrument).is_some()),
            InstrumentKind::CryptoLeveragedToken => Ok(find_position(&self.margin_pos_long, instrument).is_some()),
            _ => Err(ExchangeError::UnsupportedInstrument),
        }
    }

    /// Whether a short position is held on `instrument`; kinds that keep no
    /// positions (spot and commodities) are refused.
    pub fn has_short_position(&self, instrument: &Instrument) -> (r: Result<bool, ExchangeError>)
        ensures
            keeps_positions(instrument.kind) ==> r == Ok::<bool, ExchangeError>(self.short_held(instrument@)),
            !keeps_positions(instrument.kind) ==> r == Err::<bool, ExchangeError>(ExchangeError::UnsupportedInstrument),
    {
        match instrument.kind {
            InstrumentKind::Perpetual => Ok(find_position(&self.perpetual_pos_short, instrument).is_some()),
            InstrumentKind::Future => Ok(find_position(&self.futures_pos_short, instrument).is_some()),
            InstrumentKind::CryptoOption => Ok(find_position(&self.option_pos_short_put, instrument).is_some()),
            InstrumentKind::CryptoLeveragedToken => Ok(find_position(&self.margin_pos_short, instrument).is_some()),
            _ => Err(ExchangeError::UnsupportedInstrument),
        }
    }
}

/// The margin that opening `quantity` at `price` ties up: `price * quantity / leverage`.
pub open spec fn initial_margin(price: int, quantity: int, leverage: int) -> int {
    price * quantity / leverage
}

/// The liquidation price of a fresh position: `price * (1 - margin / (quantity * price))`
/// for a long and `price * (1 + margin / (quantity * price))` for a short, that is
/// `price -/+ margin / quantity`.
pub open spec fn liquidation_of(side: Side, price: int, quantity: int, margin: int) -> int {
    match side {
        Side::Buy => price - margin / quantity,
        Side::Sell => price + margin / quantity,
    }
}

impl AccountPositions {
    /// A perpetual position opened by `trade`, with the configured margin mode,
    /// leverage and direction mode. A trade of zero price or quantity opens nothing.
    pub fn build_new_perpetual_position(&self, config: &AccountConfig, trade: &ClientTrade, exchange_ts: i64)
        -> (r: Result<PerpetualPosition, ExchangeError>)
        requires
            in_range(trade.price as int, trade.quantity as int),
            config.account_leverage_rate >= 1,
        ensures
            r is Err <==> trade.price == 0 || trade.quantity == 0,
            r is Err ==> r == Err::<PerpetualPosition, ExchangeError>(ExchangeError::InvalidRequest),
            r matches Ok(p) ==> {
                &&& p.margin == initial_margin(trade.price as int, trade.quantity as int, config.account_leverage_rate as int)
                &&& p.liquidation_price == liquidation_of(trade.side, trade.price as int, trade.quantity as int, p.margin as int)
                &&& p.meta.instrument == trade.instrument
                &&& p.meta.side == trade.side
                &&& p.meta.current_size == trade.quantity
                &&& p.meta.current_avg_price == trade.price
                &&& p.meta.current_avg_price_gross == trade.price
                &&& p.meta.current_symbol_price == trade.price
                &&& p.meta.current_fees_total == trade.fees
                &&& p.meta.enter_ts == exchange_ts
                &&& p.meta.update_ts == exchange_ts
                &&& p.meta.position_id == position_id_spec(trade.instrument@, trade.timestamp)
                &&& p.meta.exit_balance == (TokenBalance { token: trade.instrument.base,
                    balance: Balance { time: exchange_ts, total: trade.quantity as i64, available: trade.quantity as i64 } })
                &&& p.meta.exchange == Exchange::SandBox
                &&& p.meta.realised_pnl == 0
                &&& p.meta.unrealised_pnl == 0
                &&& p.pos_config == (PerpetualPositionConfig {
                    pos_margin_mode: config.position_margin_mode,
                    leverage: config.account_leverage_rate,
                    position_mode: config.position_mode,
                })
            },
    {
        if trade.price == 0 || trade.quantity == 0 {
            return Err(ExchangeError::InvalidRequest);
        }
        let price = trade.price;
        let quantity = trade.quantity;
        let lev = config.account_leverage_rate;
        proof {
            vstd::arithmetic::mul::lemma_mul_upper_bound(price as int, crate::order::MAX_PRICE as int,
                quantity as int, crate::order::MAX_SIZE as int);
            vstd::arithmetic::div_mod::lemma_div_is_ordered_by_denominator((price * quantity) as int, 1, lev as int);
            vstd::arithmetic::div_mod::lemma_div_basics((price * quantity) as int);
            vstd::arithmetic::div_mod::lemma_div_pos_is_pos((price * quantity) as int, lev as int);
        }
        let margin = (price * quantity) / lev;
        proof {
            // margin / quantity <= price
            vstd::arithmetic::div_mod::lemma_div_is_ordered(margin as int, (price * quantity) as int, quantity as int);
            vstd::arithmetic::div_mod::lemma_div_multiples_vanish(price as int, quantity as int);
            vstd::arithmetic::mul::lemma_mul_is_commutative(price as int, quantity as int);
            vstd::arithmetic::div_mod::lemma_div_pos_is_pos(margin as int, quantity as int);
        }
        let per_unit = margin / quantity;
        let liquidation_price = match trade.side {
            Side::Buy => price - per_unit,
            Side::Sell => price + per_unit,
        };
        let meta = PositionMeta {
            position_id: position_id_of(&trade.instrument, trade.timestamp),
            enter_ts: exchange_ts,
            update_ts: exchange_ts,
            exit_balance: TokenBalance {
                token: trade.instrument.base.duplicate(),
                balance: Balance { time: exchange_ts, total: quantity as i64, available: quantity as i64 },
            },
            exchange: Exchange::SandBox,
            instrument: trade.instrument.duplicate(),
            side: trade.side,
            current_size: quantity,
            current_fees_total: trade.fees,
            current_avg_price_gross: price,
            current_symbol_price: price,
            current_avg_price: price,
            unrealised_pnl: 0,
            realised_pnl: 0,
        };
        Ok(PerpetualPosition {
            meta,
            pos_config: PerpetualPositionConfig {
                pos_margin_mode: config.position_margin_mode,
                leverage: lev,
                position_mode: config.position_mode,
            },
            liquidation_price,
            margin: margin as i64,
        })
    }
}

/// One step of the position-id hash: `h * 31 + c`, modulo 2^64.
pub open spec fn hash_step(h: int, c: int) -> int {
    (h * 31 + c) % 0x1_0000_0000_0000_0000int
}

/// The hash of `s` from `h`, one character at a time.
pub open spec fn hash_text(h: int, s: Seq<char>) -> int
    decreases s.len(),
{
    if s.len() == 0 {
        h
    } else {
        hash_step(hash_text(h, s.drop_last()), s.last() as u32 as int)
    }
}

/// A number for each instrument kind.
pub open spec fn kind_code(kind: InstrumentKind) -> int {
    match kind {
        InstrumentKind::Spot => 0,
        InstrumentKind::Perpetual => 1,
        InstrumentKind::Future => 2,
        InstrumentKind::CryptoOption => 3,
        InstrumentKind::CryptoLeveragedToken => 4,
        InstrumentKind::CommodityFuture => 5,
        InstrumentKind::CommodityOption => 6,
    }
}

/// The 64-bit identifier of a position on `instrument` opened at `timestamp`:
/// the timestamp's bits, then base, quote and kind hashed into them.
pub open spec fn position_id_spec(instrument: (Seq<char>, Seq<char>, InstrumentKind), timestamp: i64) -> int {
    hash_step(hash_text(hash_text(timestamp as u64 as int, instrument.0), instrument.1), kind_code(instrument.2))
}

fn hash_chars(h: u64, s: &str) -> (r: u64)
    ensures
        r == hash_text(h as int, s@),
{
    let n = s.unicode_len();
    let mut acc = h;
    let mut i: usize = 0;
    while i < n
        invariant
            n == s@.len(),
            0 <= i <= n,
            acc == hash_text(h as int, s@.subrange(0, i as int)),
        decreases n - i,
    {
        let c = s.get_char(i);
        proof {
            assert(s@.subrange(0, i + 1).drop_last() =~= s@.subrange(0, i as int));
            assert(s@.subrange(0, i + 1).last() == c);
        }
        acc = ((acc as u128 * 31 + c as u32 as u128) % 0x1_0000_0000_0000_0000u128) as u64;
        i += 1;
    }
    assert(s@.subrange(0, n as int) =~= s@);
    acc
}

/// The identifier of a position on `instrument` opened at `timestamp`.
pub fn position_id_of(instrument: &Instrument, timestamp: i64) -> (r: u64)
    ensures
        r == position_id_spec(instrument@, timestamp),
{
    let h = hash_chars(timestamp as u64, instrument.base.0.as_str());
    let h = hash_chars(h, instrument.quote.0.as_str());
    let k: u64 = match instrument.kind {
        InstrumentKind::Spot => 0,
        InstrumentKind::Perpetual => 1,
        InstrumentKind::Future => 2,
        InstrumentKind::CryptoOption => 3,
        InstrumentKind::CryptoLeveragedToken => 4,
        InstrumentKind::CommodityFuture => 5,
        InstrumentKind::CommodityOption => 6,
    };
    ((h as u128 * 31 + k as u128) % 0x1_0000_0000_0000_0000u128) as u64
}

/// `v` held within the range of an `i64`.
pub open spec fn clamp_i64(v: int) -> int {
    if v > i64::MAX { i64::MAX as int } else if v < i64::MIN { i64::MIN as int } else { v }
}

/// The profit of holding `size` on `side` bought or sold at `avg` when the
/// market is at `price`: `(price - avg) * size` for a long, the negation for a
/// short, held within the range of an `i64`.
pub open spec fn unrealised_of(side: Side, avg: int, price: int, size: int) -> int {
    match side {
        Side::Buy => clamp_i64((price - avg) * size),
        Side::Sell => clamp_i64((avg - price) * size),
    }
}

impl PerpetualPosition {
    /// Marks the position to `price`: the symbol price becomes `price` and the
    /// unrealised profit is recomputed from the average entry price.
    pub fn mark_to(&mut self, price: u64)
        ensures
            final(self).meta.current_symbol_price == price,
            final(self).meta.unrealised_pnl == unrealised_of(old(self).meta.side,
                old(self).meta.current_avg_price as int, price as int, old(self).meta.current_size as int),
            final(self).meta.instrument == old(self).meta.instrument,
            final(self).meta.side == old(self).meta.side,
            final(self).meta.current_size == old(self).meta.current_size,
            final(self).meta.current_avg_price == old(self).meta.current_avg_price,
            final(self).margin == old(self).margin,
    {
        let avg = self.meta.current_avg_price as i128;
        let p = price as i128;
        let size = self.meta.current_size as i128;
        let diff: i128 = match self.meta.side {
            Side::Buy => p - avg,
            Side::Sell => avg - p,
        };
        self.meta.unrealised_pnl = match diff.checked_mul(size) {
            Some(v) => if v > i64::MAX as i128 {
                i64::MAX
            } else if v < i64::MIN as i128 {
                i64::MIN
            } else {
                v as i64
            },
            None => {
                proof {
                    assert(diff > 0 ==> diff * size >= 0) by (nonlinear_arith)
                        requires size >= 0;
                    assert(diff <= 0 ==> diff * size <= 0) by (nonlinear_arith)
                        requires size >= 0;
                }
                if diff > 0 { i64::MAX } else { i64::MIN }
            },
        };
        self.meta.current_symbol_price = price;
    }
}

} // verus!
