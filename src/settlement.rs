//! Booking fills: position margin, position updates and commissions.

use vstd::prelude::*;
use crate::account::{Account, lemma_book_change, lemma_books_unique_update, margin_token_of, perp_ok};
use crate::book::{OrderBook, holds_id, resting_ok};
use crate::config::PPM;
use crate::instrument::{Instrument, InstrumentKind, Side, Token};
use crate::ledger::{available_in, book_count, lemma_absent_token, lemma_balance_update, lemma_books_count, lemma_books_reserved_bounds, lemma_margin_bounds, lemma_side_change, lemma_side_change_count, order_reserve, reserve_token, total_in, unique_tokens};
use crate::order::{MAX_PRICE, MAX_SIZE, Open, Order, OrderId, OrderRole, in_range, required_of};
use crate::positions::{AccountPositions, PerpetualPosition, PositionDirectionMode, find_position, holds};
use crate::sums::{lemma_sum_push, lemma_sum_remove, lemma_sum_update};
use crate::trade::ClientTrade;

verus! {

/// The token in which an order or a position of `side` on `instrument` holds
/// its amount: the quote token for a buy, the base token for a sell.
pub open spec fn side_token(instrument: Instrument, side: Side) -> Seq<char> {
    match side {
        Side::Buy => instrument.quote@,
        Side::Sell => instrument.base@,
    }
}

pub open spec fn perp_side(ps: AccountPositions, side: Side) -> Seq<PerpetualPosition> {
    match side {
        Side::Buy => ps.perpetual_pos_long@,
        Side::Sell => ps.perpetual_pos_short@,
    }
}

/// The weighted average of two prices.
pub open spec fn weighted_avg(p1: int, s1: int, p2: int, s2: int) -> int {
    (p1 * s1 + p2 * s2) / (s1 + s2)
}

pub(crate) proof fn lemma_weighted_avg(p1: int, s1: int, p2: int, s2: int)
    requires
        0 <= p1 <= MAX_PRICE,
        0 <= p2 <= MAX_PRICE,
        s1 >= 0,
        s2 > 0,
    ensures
        0 <= weighted_avg(p1, s1, p2, s2) <= MAX_PRICE,
{
    let num = p1 * s1 + p2 * s2;
    let den = s1 + s2;
    assert(0 <= num <= MAX_PRICE * den) by (nonlinear_arith)
        requires 0 <= p1 <= MAX_PRICE, 0 <= p2 <= MAX_PRICE, s1 >= 0, s2 > 0, num == p1 * s1 + p2 * s2, den == s1 + s2;
    vstd::arithmetic::div_mod::lemma_div_is_ordered(num, MAX_PRICE * den, den);
    vstd::arithmetic::div_mod::lemma_div_multiples_vanish(MAX_PRICE as int, den);
    vstd::arithmetic::mul::lemma_mul_is_commutative(MAX_PRICE as int, den);
    vstd::arithmetic::div_mod::lemma_div_pos_is_pos(num, den);
}

impl Account {
    /// Bounds that conservation gives on the margin of one position.
    pub(crate) proof fn lemma_margin_room(&self, side: Side, i: int, token: Seq<char>, extra: int)
        requires
            self.core_wf(),
            0 <= i < perp_side(self.positions, side).len(),
            token == margin_token_of(perp_side(self.positions, side)[i]),
            self.gap(token) == extra,
            extra >= 0,
        ensures
            perp_side(self.positions, side)[i].margin + extra <= i64::MAX,
    {
        lemma_books_reserved_bounds(self.orders.books@, token, self.lev());
        lemma_margin_bounds(self.positions.perpetual_pos_long@, token);
        lemma_margin_bounds(self.positions.perpetual_pos_short@, token);
        self.lemma_total_in_bounds(token);
        let p = perp_side(self.positions, side)[i];
        assert(crate::ledger::position_margin(p, token) == p.margin);
        match side {
            Side::Buy => assert(self.positions.perpetual_pos_long@[i] == p),
            Side::Sell => assert(self.positions.perpetual_pos_short@[i] == p),
        }
    }

    pub(crate) proof fn lemma_total_in_bounds(&self, token: Seq<char>)
        requires
            unique_tokens(self.balances@),
            forall|i: int| 0 <= i < self.balances@.len() ==> 0 <= (#[trigger] self.balances@[i]).balance.available,
        ensures
            total_in(self.balances@, token) <= i64::MAX,
            available_in(self.balances@, token) >= 0,
    {
        if exists|k: int| 0 <= k < self.balances@.len() && (#[trigger] self.balances@[k]).token@ == token {
            let k = choose|k: int| 0 <= k < self.balances@.len() && (#[trigger] self.balances@[k]).token@ == token;
            self.lemma_entry_amounts(k);
        } else {
            lemma_absent_token(self.balances@, token);
        }
    }

    /// Adds `quantity` bought or sold at `price` to the position on that side,
    /// opening one when there is none; its margin grows by `c`, the amount that
    /// the fill consumed from the order's reservation.
    pub(crate) fn add_to_position(&mut self, instrument: &Instrument, side: Side, price: u64, quantity: u64, c: i64, ts: i64)
        requires
            old(self).core_wf(),
            instrument.kind == InstrumentKind::Perpetual,
            in_range(price as int, quantity as int),
            price > 0,
            quantity > 0,
            c >= 0,
            forall|t: Seq<char>| #[trigger] old(self).gap(t) == if t == side_token(*instrument, side) { c as int } else { 0int },
        ensures
            final(self).core_wf(),
            forall|t: Seq<char>| #[trigger] final(self).conserved_at(t),
            final(self).orders == old(self).orders,
            final(self).config == old(self).config,
            final(self).balances == old(self).balances,
            final(self).exchange_timestamp == old(self).exchange_timestamp,
            perp_side(final(self).positions, side.flip()) == perp_side(old(self).positions, side.flip()),
            holds(perp_side(old(self).positions, side), instrument@) ==> exists|i: int|
                0 <= i < perp_side(old(self).positions, side).len()
                && (#[trigger] perp_side(old(self).positions, side)[i]).meta.instrument@ == instrument@
                && perp_side(final(self).positions, side).len() == perp_side(old(self).positions, side).len()
                && perp_side(final(self).positions, side)[i].meta.instrument@ == instrument@
                && forall|j: int| 0 <= j < perp_side(old(self).positions, side).len() && j != i
                    ==> perp_side(final(self).positions, side)[j] == perp_side(old(self).positions, side)[j],
            !holds(perp_side(old(self).positions, side), instrument@) ==>
                perp_side(final(self).positions, side).len() == perp_side(old(self).positions, side).len() + 1
                && perp_side(final(self).positions, side).last().meta.instrument@ == instrument@
                && forall|j: int| 0 <= j < perp_side(old(self).positions, side).len()
                    ==> perp_side(final(self).positions, side)[j] == perp_side(old(self).positions, side)[j],
    {
        let ghost pre = *self;
        let ghost tok = side_token(*instrument, side);
        let found = match side {
            Side::Buy => find_position(&self.positions.perpetual_pos_long, instrument),
            Side::Sell => find_position(&self.positions.perpetual_pos_short, instrument),
        };
        let ghost old_seq = perp_side(self.positions, side);
        match found {
            Some(i) => {
                let mut p = match side {
                    Side::Buy => self.positions.perpetual_pos_long[i].clone_position(),
                    Side::Sell => self.positions.perpetual_pos_short[i].clone_position(),
                };
                proof {
                    assert(perp_ok(old_seq[i as int], side));
                    self.lemma_margin_room(side, i as int, tok, c as int);
                }
                let size = p.meta.current_size;
                let avg = p.meta.current_avg_price;
                proof {
                    lemma_weighted_avg(avg as int, size as int, price as int, quantity as int);
                    assert((avg as int) * (size as int) <= MAX_PRICE * 0x1_0000_0000_0000_0000int) by (nonlinear_arith)
                        requires avg <= MAX_PRICE, size < 0x1_0000_0000_0000_0000int, avg >= 0, size >= 0;
                    assert((price as int) * (quantity as int) <= MAX_PRICE * MAX_SIZE) by (nonlinear_arith)
                        requires price <= MAX_PRICE, quantity <= MAX_SIZE, price >= 0, quantity >= 0;
                }
                let num = (avg as u128) * (size as u128) + (price as u128) * (quantity as u128);
                let den = (size as u128) + (quantity as u128);
                let new_avg = (num / den) as u64;
                p.meta.current_size = size.saturating_add(quantity);
                p.meta.current_avg_price = new_avg;
                p.meta.current_avg_price_gross = new_avg;
                p.meta.current_symbol_price = price;
                p.meta.update_ts = ts;
                p.margin = p.margin + c;
                match side {
                    Side::Buy => self.positions.perpetual_pos_long.set(i, p),
                    Side::Sell => self.positions.perpetual_pos_short.set(i, p),
                }
                proof {
                    let new_seq = perp_side(self.positions, side);
                    assert(new_seq == old_seq.update(i as int, p));
                    assert forall|t: Seq<char>| #[trigger] self.conserved_at(t) by {
                        assert(pre.gap(t) == if t == tok { c as int } else { 0int });
                        lemma_sum_update(old_seq, i as int, p, |x: PerpetualPosition| crate::ledger::position_margin(x, t));
                    }
                    assert forall|a: int| 0 <= a < new_seq.len() implies perp_ok(#[trigger] new_seq[a], side) by {
                        assert(perp_ok(old_seq[a], side));
                    }
                    assert forall|a: int, b: int| 0 <= a < b < new_seq.len() implies
                        (#[trigger] new_seq[a]).meta.instrument@ != (#[trigger] new_seq[b]).meta.instrument@ by {
                        assert(old_seq[a].meta.instrument@ != old_seq[b].meta.instrument@);
                    }
                }
            },
            None => {
                let trade = ClientTrade {
                    instrument: instrument.duplicate(),
                    side,
                    price,
                    quantity,
                    fees: 0,
                    timestamp: ts,
                };
                let built = self.positions.build_new_perpetual_position(&self.config, &trade, ts);
                match built {
                    Err(_) => {
                        proof {
                            assert(false);
                        }
                    },
                    Ok(mut p) => {
                        p.margin = c;
                        proof {
                            assert(pre.gap(tok) == c);
                            lemma_books_reserved_bounds(self.orders.books@, tok, self.lev());
                            lemma_margin_bounds(self.positions.perpetual_pos_long@, tok);
                            lemma_margin_bounds(self.positions.perpetual_pos_short@, tok);
                        }
                        match side {
                            Side::Buy => self.positions.perpetual_pos_long.push(p),
                            Side::Sell => self.positions.perpetual_pos_short.push(p),
                        }
                        proof {
                            let new_seq = perp_side(self.positions, side);
                            assert(new_seq == old_seq.push(p));
                            assert forall|t: Seq<char>| #[trigger] self.conserved_at(t) by {
                                assert(pre.gap(t) == if t == tok { c as int } else { 0int });
                                lemma_sum_push(old_seq, p, |x: PerpetualPosition| crate::ledger::position_margin(x, t));
                            }
                            assert forall|a: int| 0 <= a < new_seq.len() implies perp_ok(#[trigger] new_seq[a], side) by {
                                if a < old_seq.len() {
                                    assert(perp_ok(old_seq[a], side));
                                }
                            }
                            assert forall|a: int, b: int| 0 <= a < b < new_seq.len() implies
                                (#[trigger] new_seq[a]).meta.instrument@ != (#[trigger] new_seq[b]).meta.instrument@ by {
                                if b < old_seq.len() {
                                    assert(old_seq[a].meta.instrument@ != old_seq[b].meta.instrument@);
                                } else {
                                    assert(old_seq[a].meta.instrument@ != instrument@);
                                }
                            }
                        }
                    },
                }
            },
        }
        proof {
            assert forall|x: OrderId| #[trigger] self.order_count(x) <= 1
                && (self.order_count(x) > 0 ==> x.0 <= self.orders.id_floor()) by {
                assert(pre.order_count(x) <= 1);
                assert(pre.order_count(x) > 0 ==> x.0 <= pre.orders.id_floor());
            }
        }
    }
}

impl Account {
    /// Closes `closed` of position `i` on `side` at `price`: its size shrinks
    /// (the position leaves when nothing remains), the matching share of its
    /// margin returns to the available balance, and the realised profit
    /// `(price - average) * closed` (negated for a short) accrues on it.
    /// Returns that profit.
    pub(crate) fn reduce_position(&mut self, side: Side, i: usize, closed: u64, price: u64, ts: i64) -> (pnl: i64)
        requires
            old(self).core_wf(),
            forall|t: Seq<char>| #[trigger] old(self).conserved_at(t),
            i < perp_side(old(self).positions, side).len(),
            0 < closed <= perp_side(old(self).positions, side)[i as int].meta.current_size,
            closed <= MAX_SIZE,
            price <= MAX_PRICE,
        ensures
            final(self).core_wf(),
            forall|t: Seq<char>| #[trigger] final(self).conserved_at(t),
            final(self).orders == old(self).orders,
            final(self).config == old(self).config,
            forall|t: Seq<char>| #[trigger] total_in(final(self).balances@, t) == total_in(old(self).balances@, t),
            perp_side(final(self).positions, side.flip()) == perp_side(old(self).positions, side.flip()),
            closed == perp_side(old(self).positions, side)[i as int].meta.current_size ==>
                perp_side(final(self).positions, side) == perp_side(old(self).positions, side).remove(i as int),
            closed < perp_side(old(self).positions, side)[i as int].meta.current_size ==> {
                &&& perp_side(final(self).positions, side).len() == perp_side(old(self).positions, side).len()
                &&& perp_side(final(self).positions, side)[i as int].meta.instrument
                    == perp_side(old(self).positions, side)[i as int].meta.instrument
                &&& perp_side(final(self).positions, side)[i as int].meta.current_size
                    == perp_side(old(self).positions, side)[i as int].meta.current_size - closed
                &&& forall|j: int| 0 <= j < perp_side(old(self).positions, side).len() && j != i
                    ==> perp_side(final(self).positions, side)[j] == perp_side(old(self).positions, side)[j]
            },
    {
        let ghost pre = *self;
        let ghost old_seq = perp_side(self.positions, side);
        let mut p = match side {
            Side::Buy => self.positions.perpetual_pos_long[i].clone_position(),
            Side::Sell => self.positions.perpetual_pos_short[i].clone_position(),
        };
        let ghost p0 = p;
        let ghost tok = margin_token_of(p0);
        proof {
            assert(perp_ok(old_seq[i as int], side));
        }
        let size = p.meta.current_size;
        let margin = p.margin;
        let avg = p.meta.current_avg_price;
        let token = match side {
            Side::Buy => p.meta.instrument.quote.duplicate(),
            Side::Sell => p.meta.instrument.base.duplicate(),
        };
        let released: i64 = if closed == size {
            margin
        } else {
            proof {
                assert((margin as int) * (closed as int) <= (margin as int) * (size as int)) by (nonlinear_arith)
                    requires margin >= 0, closed <= size;
                assert((margin as int) * (size as int) < 0x1_0000_0000_0000_0000_0000_0000_0000_0000int) by (nonlinear_arith)
                    requires 0 <= margin <= i64::MAX, size < 0x1_0000_0000_0000_0000int;
                vstd::arithmetic::div_mod::lemma_div_is_ordered((margin as int) * (closed as int), (margin as int) * (size as int), size as int);
                vstd::arithmetic::div_mod::lemma_div_multiples_vanish(margin as int, size as int);
                vstd::arithmetic::mul::lemma_mul_is_commutative(margin as int, size as int);
                vstd::arithmetic::mul::lemma_mul_nonnegative(margin as int, closed as int);
                vstd::arithmetic::div_mod::lemma_div_pos_is_pos((margin as int) * (closed as int), size as int);
            }
            ((margin as u128) * (closed as u128) / (size as u128)) as i64
        };
        proof {
            assert((price as int) * (closed as int) <= MAX_PRICE * MAX_SIZE) by (nonlinear_arith)
                requires price <= MAX_PRICE, closed <= MAX_SIZE;
            assert((avg as int) * (closed as int) <= MAX_PRICE * MAX_SIZE) by (nonlinear_arith)
                requires avg <= MAX_PRICE, closed <= MAX_SIZE;
            assert(0 <= (price as int) * (closed as int));
            assert(0 <= (avg as int) * (closed as int)) by (nonlinear_arith) requires avg >= 0, closed >= 0;
        }
        let gain: i128 = match side {
            Side::Buy => (price as i128) * (closed as i128) - (avg as i128) * (closed as i128),
            Side::Sell => (avg as i128) * (closed as i128) - (price as i128) * (closed as i128),
        };
        let pnl = gain as i64;
        let acc = (p.meta.realised_pnl as i128) + gain;
        let total_pnl: i64 = if acc > i64::MAX as i128 {
            i64::MAX
        } else if acc < i64::MIN as i128 {
            i64::MIN
        } else {
            acc as i64
        };
        if closed == size {
            match side {
                Side::Buy => {
                    self.positions.perpetual_pos_long.remove(i);
                },
                Side::Sell => {
                    self.positions.perpetual_pos_short.remove(i);
                },
            }
            proof {
                let new_seq = perp_side(self.positions, side);
                assert(new_seq == old_seq.remove(i as int));
                assert forall|t: Seq<char>| #[trigger] self.gap(t) == if t == tok { released as int } else { 0int } by {
                    assert(pre.conserved_at(t));
                    lemma_sum_remove(old_seq, i as int, |x: PerpetualPosition| crate::ledger::position_margin(x, t));
                }
                assert forall|a: int| 0 <= a < new_seq.len() implies perp_ok(#[trigger] new_seq[a], side) by {
                    let a0 = if a < i { a } else { a + 1 };
                    assert(new_seq[a] == old_seq[a0]);
                    assert(perp_ok(old_seq[a0], side));
                }
                assert forall|a: int, b: int| 0 <= a < b < new_seq.len() implies
                    (#[trigger] new_seq[a]).meta.instrument@ != (#[trigger] new_seq[b]).meta.instrument@ by {
                    let a0 = if a < i { a } else { a + 1 };
                    let b0 = if b < i { b } else { b + 1 };
                    assert(new_seq[a] == old_seq[a0]);
                    assert(new_seq[b] == old_seq[b0]);
                    assert(old_seq[a0].meta.instrument@ != old_seq[b0].meta.instrument@);
                }
            }
        } else {
            p.meta.current_size = size - closed;
            p.margin = margin - released;
            p.meta.realised_pnl = total_pnl;
            p.meta.current_symbol_price = price;
            p.meta.update_ts = ts;
            match side {
                Side::Buy => self.positions.perpetual_pos_long.set(i, p),
                Side::Sell => self.positions.perpetual_pos_short.set(i, p),
            }
            proof {
                let new_seq = perp_side(self.positions, side);
                assert(new_seq == old_seq.update(i as int, p));
                assert forall|t: Seq<char>| #[trigger] self.gap(t) == if t == tok { released as int } else { 0int } by {
                    assert(pre.conserved_at(t));
                    lemma_sum_update(old_seq, i as int, p, |x: PerpetualPosition| crate::ledger::position_margin(x, t));
                }
                assert forall|a: int| 0 <= a < new_seq.len() implies perp_ok(#[trigger] new_seq[a], side) by {
                    assert(perp_ok(old_seq[a], side));
                }
                assert forall|a: int, b: int| 0 <= a < b < new_seq.len() implies
                    (#[trigger] new_seq[a]).meta.instrument@ != (#[trigger] new_seq[b]).meta.instrument@ by {
                    assert(old_seq[a].meta.instrument@ != old_seq[b].meta.instrument@);
                }
            }
        }
        proof {
            assert forall|x: OrderId| #[trigger] self.order_count(x) <= 1
                && (self.order_count(x) > 0 ==> x.0 <= self.orders.id_floor()) by {
                assert(pre.order_count(x) <= 1);
                assert(pre.order_count(x) > 0 ==> x.0 <= pre.orders.id_floor());
            }
        }
        self.release(&token, released);
        pnl
    }
}

/// Exclusivity survives when one side gains or keeps only `inst` beyond its old
/// instruments, the other side keeps only old instruments, and `inst` is held
/// on the first side only if the other has none of it.
pub(crate) proof fn lemma_exclusive_after(l0: Seq<PerpetualPosition>, s0: Seq<PerpetualPosition>,
    l1: Seq<PerpetualPosition>, s1: Seq<PerpetualPosition>, inst: (Seq<char>, Seq<char>, InstrumentKind))
    requires
        forall|i: int, j: int| 0 <= i < l0.len() && 0 <= j < s0.len() ==>
            (#[trigger] l0[i]).meta.instrument@ != (#[trigger] s0[j]).meta.instrument@,
        forall|a: int| 0 <= a < l1.len() ==> (#[trigger] l1[a]).meta.instrument@ == inst || holds(l0, l1[a].meta.instrument@),
        forall|b: int| 0 <= b < s1.len() ==> holds(s0, (#[trigger] s1[b]).meta.instrument@),
        holds(l1, inst) ==> forall|b: int| 0 <= b < s1.len() ==> (#[trigger] s1[b]).meta.instrument@ != inst,
    ensures
        forall|a: int, b: int| 0 <= a < l1.len() && 0 <= b < s1.len() ==>
            (#[trigger] l1[a]).meta.instrument@ != (#[trigger] s1[b]).meta.instrument@,
{
    assert forall|a: int, b: int| 0 <= a < l1.len() && 0 <= b < s1.len() implies
        (#[trigger] l1[a]).meta.instrument@ != (#[trigger] s1[b]).meta.instrument@ by {
        assert(holds(s0, s1[b].meta.instrument@));
        let j = choose|j: int| 0 <= j < s0.len() && (#[trigger] s0[j]).meta.instrument@ == s1[b].meta.instrument@;
        if l1[a].meta.instrument@ == inst {
            assert(holds(l1, inst));
        } else {
            let i = choose|i: int| 0 <= i < l0.len() && (#[trigger] l0[i]).meta.instrument@ == l1[a].meta.instrument@;
            assert(l0[i].meta.instrument@ != s0[j].meta.instrument@);
        }
    }
}

impl Account {
    /// Books a fill of `quantity` at `price` on `side` into the positions. In
    /// net mode it first closes what it can of the opposite position; any
    /// rest opens or grows the position on `side`, which takes `c`, the amount
    /// that the fill consumed from the order's reservation, as margin (with no
    /// rest, `c` returns to the available balance). Returns the realised profit.
    pub(crate) fn settle_perpetual(&mut self, instrument: &Instrument, side: Side, price: u64, quantity: u64, c: i64, ts: i64) -> (pnl: i64)
        requires
            old(self).core_wf(),
            old(self).net_ok(),
            instrument.kind == InstrumentKind::Perpetual,
            in_range(price as int, quantity as int),
            price > 0,
            quantity > 0,
            c >= 0,
            forall|t: Seq<char>| #[trigger] old(self).gap(t) == if t == side_token(*instrument, side) { c as int } else { 0int },
        ensures
            final(self).wf(),
            final(self).orders == old(self).orders,
            final(self).config == old(self).config,
            forall|t: Seq<char>| #[trigger] total_in(final(self).balances@, t) == total_in(old(self).balances@, t),
    {
        let ghost pre = *self;
        let net = match self.config.position_mode {
            PositionDirectionMode::NetMode => true,
            PositionDirectionMode::LongShortMode => false,
        };
        let opposite = side.opposite();
        let found = if net {
            match opposite {
                Side::Buy => find_position(&self.positions.perpetual_pos_long, instrument),
                Side::Sell => find_position(&self.positions.perpetual_pos_short, instrument),
            }
        } else {
            None
        };
        let closed: u64 = match found {
            Some(oi) => {
                let held = match opposite {
                    Side::Buy => self.positions.perpetual_pos_long[oi].meta.current_size,
                    Side::Sell => self.positions.perpetual_pos_short[oi].meta.current_size,
                };
                if held < quantity { held } else { quantity }
            },
            None => 0,
        };
        let residual = quantity - closed;
        let token = match side {
            Side::Buy => instrument.quote.duplicate(),
            Side::Sell => instrument.base.duplicate(),
        };
        if residual > 0 {
            self.add_to_position(instrument, side, price, residual, c, ts);
        } else {
            self.release(&token, c);
        }
        let ghost mid = *self;
        let mut pnl: i64 = 0;
        if let Some(oi) = found {
            proof {
                assert(perp_ok(perp_side(pre.positions, opposite)[oi as int], opposite));
            }
            pnl = self.reduce_position(opposite, oi, closed, price, ts);
        }
        proof {
            if self.config.position_mode == PositionDirectionMode::NetMode {
                let l0 = perp_side(pre.positions, side);
                let s0 = perp_side(pre.positions, opposite);
                let l1 = perp_side(self.positions, side);
                let s1 = perp_side(self.positions, opposite);
                let inst = instrument@;
                assert(side.flip() == opposite);
                assert(opposite.flip() == side);
                assert(perp_side(mid.positions, opposite) == s0);
                assert(perp_side(self.positions, side) == perp_side(mid.positions, side));
                // the old exclusivity, seen from `side`
                assert forall|i: int, j: int| 0 <= i < l0.len() && 0 <= j < s0.len() implies
                    (#[trigger] l0[i]).meta.instrument@ != (#[trigger] s0[j]).meta.instrument@ by {
                    match side {
                        Side::Buy => {},
                        Side::Sell => {
                            assert(pre.positions.perpetual_pos_long@[j].meta.instrument@ != pre.positions.perpetual_pos_short@[i].meta.instrument@);
                        },
                    }
                }
                assert forall|a: int| 0 <= a < l1.len() implies (#[trigger] l1[a]).meta.instrument@ == inst || holds(l0, l1[a].meta.instrument@) by {
                    if residual > 0 {
                        if holds(l0, inst) {
                        } else {
                            if a < l0.len() {
                                assert(l1[a] == l0[a]);
                            }
                        }
                        if a < l0.len() && l1[a].meta.instrument@ != inst {
                            assert(l1[a] == l0[a]);
                        }
                    } else {
                        assert(l1[a] == l0[a]);
                    }
                }
                assert forall|b: int| 0 <= b < s1.len() implies holds(s0, (#[trigger] s1[b]).meta.instrument@) by {
                    match found {
                        Some(oi) => {
                            if closed == s0[oi as int].meta.current_size {
                                let b0 = if b < oi { b } else { b + 1 };
                                assert(s1[b] == s0[b0]);
                            } else if b == oi {
                                assert(s1[b].meta.instrument == s0[b].meta.instrument);
                            } else {
                                assert(s1[b] == s0[b]);
                            }
                        },
                        None => {
                            assert(s1[b] == s0[b]);
                        },
                    }
                }
                assert(holds(l1, inst) ==> forall|b: int| 0 <= b < s1.len() ==> (#[trigger] s1[b]).meta.instrument@ != inst) by {
                    if holds(l1, inst) {
                        assert forall|b: int| 0 <= b < s1.len() implies (#[trigger] s1[b]).meta.instrument@ != inst by {
                            match found {
                                Some(oi) => {
                                    if closed == s0[oi as int].meta.current_size {
                                        let b0 = if b < oi { b } else { b + 1 };
                                        assert(s1[b] == s0[b0]);
                                        assert(b0 != oi);
                                        assert(s0[b0].meta.instrument@ != s0[oi as int].meta.instrument@);
                                    } else {
                                        // nothing remains to open on `side`, so `inst` was held there before
                                        assert(residual == 0);
                                        assert(l1 == l0);
                                        let a = choose|a: int| 0 <= a < l1.len() && (#[trigger] l1[a]).meta.instrument@ == inst;
                                        assert(l0[a].meta.instrument@ != s0[oi as int].meta.instrument@);
                                    }
                                },
                                None => {
                                    assert(s1[b] == s0[b]);
                                },
                            }
                        }
                    }
                }
                lemma_exclusive_after(l0, s0, l1, s1, inst);
                assert forall|i: int, j: int| 0 <= i < self.positions.perpetual_pos_long@.len() && 0 <= j < self.positions.perpetual_pos_short@.len() implies
                    (#[trigger] self.positions.perpetual_pos_long@[i]).meta.instrument@ != (#[trigger] self.positions.perpetual_pos_short@[j]).meta.instrument@ by {
                    match side {
                        Side::Buy => {
                            assert(l1[i].meta.instrument@ != s1[j].meta.instrument@);
                        },
                        Side::Sell => {
                            assert(l1[j].meta.instrument@ != s1[i].meta.instrument@);
                        },
                    }
                }
            }
        }
        pnl
    }
}

/// The commission on a fill: `price * quantity * rate / 1_000_000`.
pub open spec fn commission(price: int, quantity: int, rate: int) -> int {
    price * quantity * rate / (PPM as int)
}

/// What a fill of a resting order did.
#[derive(Clone, Debug)]
pub struct Fill {
    /// The order as it stands after the fill.
    pub order: Order<Open>,
    pub quantity: u64,
    /// The commission actually charged (at most what was available).
    pub fee: i64,
    /// Whether the fill took the whole remaining quantity, removing the order.
    pub full: bool,
}

impl Account {
    /// Charges up to `fee` of `token` from both its total and its available
    /// amount, never more than is available. Returns what was charged.
    pub(crate) fn charge_fee(&mut self, token: &Token, fee: i64) -> (charged: i64)
        requires
            old(self).wf(),
            fee >= 0,
        ensures
            final(self).wf(),
            final(self).orders == old(self).orders,
            final(self).positions == old(self).positions,
            final(self).config == old(self).config,
            0 <= charged <= fee,
            charged == fee || charged == available_in(old(self).balances@, token@),
            forall|t: Seq<char>| #[trigger] total_in(final(self).balances@, t)
                == total_in(old(self).balances@, t) - if t == token@ { charged as int } else { 0int },
    {
        let ghost pre = *self;
        proof {
            self.lemma_balances_wf();
        }
        match self.find_balance(token) {
            None => {
                proof {
                    lemma_absent_token(self.balances@, token@);
                }
                0
            },
            Some(k) => {
                proof {
                    self.lemma_entry_amounts(k as int);
                }
                let total = self.balances[k].balance.total;
                let available = self.balances[k].balance.available;
                let charged = if fee < available { fee } else { available };
                self.set_amounts(k, total - charged, available - charged);
                proof {
                    let nb = self.balances@[k as int];
                    assert forall|t: Seq<char>| #[trigger] total_in(self.balances@, t)
                        == total_in(pre.balances@, t) - if t == token@ { charged as int } else { 0int } by {
                        lemma_balance_update(pre.balances@, k as int, nb, t);
                    }
                    assert forall|t: Seq<char>| #[trigger] self.conserved_at(t) by {
                        assert(pre.conserved_at(t));
                        lemma_balance_update(pre.balances@, k as int, nb, t);
                    }
                    assert forall|i: int| 0 <= i < self.balances@.len() implies 0 <= (#[trigger] self.balances@[i]).balance.available by {
                        if i != k {
                            assert(self.balances@[i] == pre.balances@[i]);
                        }
                    }
                    assert(unique_tokens(self.balances@)) by {
                        assert forall|a: int, c: int| 0 <= a < c < self.balances@.len() implies
                            (#[trigger] self.balances@[a]).token@ != (#[trigger] self.balances@[c]).token@ by {
                            assert(pre.balances@[a].token@ != pre.balances@[c].token@);
                        }
                    }
                    assert forall|x: OrderId| #[trigger] self.order_count(x) <= 1
                        && (self.order_count(x) > 0 ==> x.0 <= self.orders.id_floor()) by {
                        assert(pre.order_count(x) <= 1);
                        assert(pre.order_count(x) > 0 ==> x.0 <= pre.orders.id_floor());
                    }
                }
                charged
            },
        }
    }

    /// Fills `q` of the best resting order on `side` of book `j`, at that
    /// order's price: the consumed part of its reservation becomes position
    /// margin, the maker commission is charged in the quote token, and the
    /// order leaves the book exactly when `q` is its whole remaining quantity.
    pub fn fill_best(&mut self, j: usize, side: Side, q: u64, ts: i64) -> (r: Fill)
        requires
            old(self).wf(),
            j < old(self).orders.books@.len(),
            old(self).orders.books@[j as int].side_seq(side).len() > 0,
            0 < q <= old(self).orders.books@[j as int].side_seq(side)[0].state.remaining(),
        ensures
            final(self).wf(),
            final(self).config == old(self).config,
            final(self).orders.id_floor() == old(self).orders.id_floor(),
            final(self).orders.books@.len() == old(self).orders.books@.len(),
            forall|i: int| 0 <= i < old(self).orders.books@.len() && i != j ==>
                #[trigger] final(self).orders.books@[i] == old(self).orders.books@[i],
            final(self).orders.books@[j as int].instrument == old(self).orders.books@[j as int].instrument,
            final(self).orders.books@[j as int].side_seq(side.flip()) == old(self).orders.books@[j as int].side_seq(side.flip()),
            r.quantity == q,
            forall|x: OrderId| #[trigger] final(self).order_count(x) <= old(self).order_count(x),
            r.order.state.id == old(self).orders.books@[j as int].side_seq(side)[0].state.id,
            r.order.state.price == old(self).orders.books@[j as int].side_seq(side)[0].state.price,
            r.order.state.size == old(self).orders.books@[j as int].side_seq(side)[0].state.size,
            r.order.state.filled_quantity == old(self).orders.books@[j as int].side_seq(side)[0].state.filled_quantity + q,
            r.order.side == side,
            r.order.instrument == old(self).orders.books@[j as int].side_seq(side)[0].instrument,
            0 <= r.fee <= commission(r.order.state.price as int, q as int,
                old(self).config.rate(r.order.instrument.kind, OrderRole::Maker)),
            forall|t: Seq<char>| #[trigger] total_in(final(self).balances@, t) == total_in(old(self).balances@, t)
                - if t == r.order.instrument.quote@ { r.fee as int } else { 0int },
            r.full == (q == old(self).orders.books@[j as int].side_seq(side)[0].state.remaining()),
            r.full ==> final(self).orders.books@[j as int].side_seq(side) == old(self).orders.books@[j as int].side_seq(side).remove(0)
                && !final(self).has_order(r.order.state.id),
            !r.full ==> final(self).orders.books@[j as int].side_seq(side)
                == old(self).orders.books@[j as int].side_seq(side).update(0, r.order),
    {
        let ghost pre = *self;
        let ghost lev = self.lev();
        let lev_x = self.config.account_leverage_rate;
        let o = match side {
            Side::Buy => self.orders.books[j].bids[0].duplicate(),
            Side::Sell => self.orders.books[j].asks[0].duplicate(),
        };
        let ghost b0 = self.orders.books@[j as int];
        proof {
            assert(resting_ok(b0.side_seq(side)[0], side, b0.instrument));
            crate::order::lemma_required_monotone(o.side, o.state.price as int, o.state.remaining() - q, o.state.remaining(), lev);
        }
        let rem = o.state.size - o.state.filled_quantity;
        let before = required_of(o.side, o.state.price, rem, lev_x);
        let after = required_of(o.side, o.state.price, rem - q, lev_x);
        let c = before - after;
        let full = q == rem;
        let mut book = self.orders.books.remove(j);
        let mut filled = o.duplicate();
        filled.state.filled_quantity = o.state.filled_quantity + q;
        if full {
            book.pop_best(side);
        } else {
            book.fill_front(side, q);
        }
        let ghost b1 = book;
        self.orders.books.insert(j, book);
        let ghost id = o.state.id;
        proof {
            assert(self.orders.books@ =~= pre.orders.books@.update(j as int, b1));
            let s0 = b0.side_seq(side);
            if full {
                vstd::arithmetic::div_mod::lemma_div_basics(lev);
                assert((o.state.price as int) * 0 == 0);
                assert(after == 0);
                assert forall|t: Seq<char>| #[trigger] self.gap(t) == if t == reserve_token(o) { c as int } else { 0int } by {
                    assert(pre.conserved_at(t));
                    lemma_book_change(pre.orders.books@, j as int, b1, t, lev);
                    lemma_side_change(b0, b1, side, s0.remove(0), t, lev);
                    lemma_sum_remove(s0, 0, |x: Order<Open>| order_reserve(x, t, lev));
                }
                assert forall|x: OrderId| #[trigger] self.order_count(x)
                    == pre.order_count(x) - if x == id { 1int } else { 0int } by {
                    lemma_sum_update(pre.orders.books@, j as int, b1, |b: OrderBook| book_count(b, x));
                    lemma_side_change_count(b0, b1, side, s0.remove(0), x);
                    lemma_sum_remove(s0, 0, |y: Order<Open>| if y.state.id == x { 1int } else { 0int });
                }
            } else {
                assert(s0.update(0, filled) == b1.side_seq(side));
                assert forall|t: Seq<char>| #[trigger] self.gap(t) == if t == reserve_token(o) { c as int } else { 0int } by {
                    assert(pre.conserved_at(t));
                    lemma_book_change(pre.orders.books@, j as int, b1, t, lev);
                    lemma_side_change(b0, b1, side, s0.update(0, filled), t, lev);
                    lemma_sum_update(s0, 0, filled, |x: Order<Open>| order_reserve(x, t, lev));
                }
                assert forall|x: OrderId| #[trigger] self.order_count(x) == pre.order_count(x) by {
                    lemma_sum_update(pre.orders.books@, j as int, b1, |b: OrderBook| book_count(b, x));
                    lemma_side_change_count(b0, b1, side, s0.update(0, filled), x);
                    lemma_sum_update(s0, 0, filled, |y: Order<Open>| if y.state.id == x { 1int } else { 0int });
                }
            }
            assert forall|x: OrderId| #[trigger] self.order_count(x) <= 1
                && (self.order_count(x) > 0 ==> x.0 <= self.orders.id_floor()) by {
                assert(pre.order_count(x) <= 1);
                assert(pre.order_count(x) > 0 ==> x.0 <= pre.orders.id_floor());
            }
            assert forall|i: int| 0 <= i < self.orders.books@.len() implies (#[trigger] self.orders.books@[i]).wf()
                && self.orders.books@[i].instrument.kind == InstrumentKind::Perpetual by {
                if i != j {
                    assert(self.orders.books@[i] == pre.orders.books@[i]);
                }
            }
            assert(b0.side_seq(side)[0].state.id == id);
            match side {
                Side::Buy => assert(holds_id(b0.bids@, id)),
                Side::Sell => assert(holds_id(b0.asks@, id)),
            }
            assert(pre.orders.books@[j as int].contains_id(id));
            lemma_books_count(pre.orders.books@, id);
            lemma_books_count(self.orders.books@, id);
            assert(o.instrument@ == b0.instrument@);
            lemma_books_unique_update(pre.orders.books@, j as int, b1);
        }
        let ghost after_book = *self;
        let _pnl = self.settle_perpetual(&o.instrument, o.side, o.state.price, q, c, ts);
        let rate = self.config.fee_rate(o.instrument.kind, OrderRole::Maker);
        proof {
            assert((o.state.price as int) * (q as int) <= MAX_PRICE * MAX_SIZE) by (nonlinear_arith)
                requires o.state.price <= MAX_PRICE, q <= MAX_SIZE;
            assert((o.state.price as int) * (q as int) * (rate as int) <= MAX_PRICE * MAX_SIZE * PPM) by (nonlinear_arith)
                requires (o.state.price as int) * (q as int) <= MAX_PRICE * MAX_SIZE, rate <= PPM, o.state.price >= 0, q >= 0;
            assert(0 <= (o.state.price as int) * (q as int) * (rate as int)) by (nonlinear_arith)
                requires o.state.price >= 0, q >= 0, rate >= 0;
            vstd::arithmetic::div_mod::lemma_div_is_ordered((o.state.price as int) * (q as int) * (rate as int),
                MAX_PRICE * MAX_SIZE * PPM, PPM as int);
            vstd::arithmetic::div_mod::lemma_div_multiples_vanish((MAX_PRICE * MAX_SIZE) as int, PPM as int);
            vstd::arithmetic::div_mod::lemma_div_pos_is_pos((o.state.price as int) * (q as int) * (rate as int), PPM as int);
        }
        let fee = ((o.state.price as u128) * (q as u128) * (rate as u128) / (PPM as u128)) as i64;
        let ghost settled = *self;
        let charged = self.charge_fee(&o.instrument.quote, fee);
        proof {
            assert forall|t: Seq<char>| #[trigger] total_in(self.balances@, t) == total_in(pre.balances@, t)
                - if t == o.instrument.quote@ { charged as int } else { 0int } by {
                assert(total_in(settled.balances@, t) == total_in(after_book.balances@, t));
                assert(after_book.balances == pre.balances);
            }
            assert(self.orders == after_book.orders);
            assert forall|x: OrderId| #[trigger] self.order_count(x) <= pre.order_count(x) by {
                assert(after_book.order_count(x) <= pre.order_count(x));
            }
            if full {
                assert(pre.order_count(id) <= 1);
                assert(after_book.order_count(id) == pre.order_count(id) - 1);
                assert(self.order_count(id) == 0);
            }
            lemma_books_count(self.orders.books@, id);
        }
        Fill { order: filled, quantity: q, fee: charged, full }
    }
}

} // verus!
