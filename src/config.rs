use vstd::prelude::*;
use crate::instrument::InstrumentKind;
use crate::order::OrderRole;
use crate::positions::{PositionDirectionMode, PositionMarginMode};

verus! {

#[derive(Copy, Clone, Debug, PartialEq, Eq, Structural)]
pub enum MarginMode {
    SingleCurrencyMargin,
    MultiCurrencyMargin,
    PortfolioMargin,
}

#[derive(Copy, Clone, Debug, PartialEq, Eq, Structural)]
pub enum CommissionLevel {
    Lv1,
    Lv2,
    Lv3,
    Lv4,
    Lv5,
}

#[derive(Copy, Clone, Debug, PartialEq, Eq, Structural)]
pub enum SandboxMode {
    Backtest,
    Online,
}

/// Commission rates in parts per million of the notional.
#[derive(Copy, Clone, Debug, PartialEq, Eq, Structural)]
pub struct CommissionRates {
    pub maker_fees: u64,
    pub taker_fees: u64,
}

/// Parts per million.
pub const PPM: u64 = 1_000_000;

/// How the simulated account trades and is charged.
#[derive(Clone, Debug, PartialEq, Eq)]
pub struct AccountConfig {
    pub margin_mode: MarginMode,
    pub position_mode: PositionDirectionMode,
    pub position_margin_mode: PositionMarginMode,
    pub commission_level: CommissionLevel,
    pub funding_rate: i64,
    pub account_leverage_rate: u64,
    pub fees_book: Vec<(InstrumentKind, CommissionRates)>,
    pub execution_mode: SandboxMode,
}

/// The rate of the first entry of `book` for `kind`, or zero when there is none.
pub open spec fn rate_in(book: Seq<(InstrumentKind, CommissionRates)>, kind: InstrumentKind, role: OrderRole) -> int
    decreases book.len(),
{
    if book.len() == 0 {
        0
    } else if book[0].0 == kind {
        match role {
            OrderRole::Maker => book[0].1.maker_fees as int,
            OrderRole::Taker => book[0].1.taker_fees as int,
        }
    } else {
        rate_in(book.drop_first(), kind, role)
    }
}

impl AccountConfig {
    pub open spec fn rate(&self, kind: InstrumentKind, role: OrderRole) -> int {
        rate_in(self.fees_book@, kind, role)
    }

    pub open spec fn rates_ok(&self) -> bool {
        forall|i: int| 0 <= i < self.fees_book@.len() ==>
            (#[trigger] self.fees_book@[i]).1.maker_fees <= PPM && self.fees_book@[i].1.taker_fees <= PPM
    }

    /// The commission rate, in parts per million, for `kind` and `role`.
    pub fn fee_rate(&self, kind: InstrumentKind, role: OrderRole) -> (r: u64)
        ensures
            r == self.rate(kind, role),
            self.rates_ok() ==> r <= PPM,
    {
        let mut i: usize = 0;
        assert(self.fees_book@.subrange(0, self.fees_book@.len() as int) =~= self.fees_book@);
        while i < self.fees_book.len()
            invariant
                0 <= i <= self.fees_book@.len(),
                self.rates_ok() ==> forall|j: int| i <= j < self.fees_book@.len() ==> (#[trigger] self.fees_book@[j]).1.maker_fees <= PPM && self.fees_book@[j].1.taker_fees <= PPM,
                rate_in(self.fees_book@, kind, role) == rate_in(self.fees_book@.subrange(i as int, self.fees_book@.len() as int), kind, role),
            decreases self.fees_book@.len() - i,
        {
            let ghost rest = self.fees_book@.subrange(i as int, self.fees_book@.len() as int);
            if self.fees_book[i].0 == kind {
                return match role {
                    OrderRole::Maker => self.fees_book[i].1.maker_fees,
                    OrderRole::Taker => self.fees_book[i].1.taker_fees,
                };
            }
            assert(rest.drop_first() =~= self.fees_book@.subrange(i + 1, self.fees_book@.len() as int));
            i += 1;
        }
        0
    }
}

} // verus!
