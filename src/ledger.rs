use vstd::prelude::*;
use crate::balance::TokenBalance;
use crate::book::OrderBook;
use crate::instrument::Side;
use crate::book::holds_id;
use crate::order::{required_amount, Open, Order, OrderId};
use crate::positions::{AccountPositions, PerpetualPosition};
use crate::book::resting_ok;
use crate::order::lemma_required_monotone;
use crate::sums::{lemma_sum_ext, lemma_sum_nonneg, lemma_sum_remove, lemma_sum_update, seq_sum};

verus! {

/// The token that a resting order holds back: the quote token for a buy,
/// the base token for a sell.
pub open spec fn reserve_token(o: Order<Open>) -> Seq<char> {
    match o.side {
        Side::Buy => o.instrument.quote@,
        Side::Sell => o.instrument.base@,
    }
}

/// What `o` holds back of `token`.
pub open spec fn order_reserve(o: Order<Open>, token: Seq<char>, lev: int) -> int {
    if reserve_token(o) == token {
        required_amount(o.side, o.state.price as int, o.state.remaining(), lev)
    } else {
        0
    }
}

pub open spec fn side_reserved(s: Seq<Order<Open>>, token: Seq<char>, lev: int) -> int {
    seq_sum(s, |o: Order<Open>| order_reserve(o, token, lev))
}

pub open spec fn book_reserved(b: OrderBook, token: Seq<char>, lev: int) -> int {
    side_reserved(b.bids@, token, lev) + side_reserved(b.asks@, token, lev)
}

/// What all resting orders hold back of `token`.
pub open spec fn books_reserved(books: Seq<OrderBook>, token: Seq<char>, lev: int) -> int {
    seq_sum(books, |b: OrderBook| book_reserved(b, token, lev))
}

/// The token that a perpetual position's margin is held in: the quote token
/// for a long, the base token for a short (the token its orders reserved).
pub open spec fn margin_token(p: PerpetualPosition) -> Seq<char> {
    match p.meta.side {
        Side::Buy => p.meta.instrument.quote@,
        Side::Sell => p.meta.instrument.base@,
    }
}

pub open spec fn position_margin(p: PerpetualPosition, token: Seq<char>) -> int {
    if margin_token(p) == token {
        p.margin as int
    } else {
        0
    }
}

pub open spec fn seq_margin(s: Seq<PerpetualPosition>, token: Seq<char>) -> int {
    seq_sum(s, |p: PerpetualPosition| position_margin(p, token))
}

/// The margin that positions hold in `token`.
pub open spec fn margin_held(ps: AccountPositions, token: Seq<char>) -> int {
    seq_margin(ps.perpetual_pos_long@, token) + seq_margin(ps.perpetual_pos_short@, token)
}

/// The total of the balances of `token`.
pub open spec fn total_in(bals: Seq<TokenBalance>, token: Seq<char>) -> int {
    seq_sum(bals, |b: TokenBalance| if b.token@ == token { b.balance.total as int } else { 0 })
}

/// The available amount of the balances of `token`.
pub open spec fn available_in(bals: Seq<TokenBalance>, token: Seq<char>) -> int {
    seq_sum(bals, |b: TokenBalance| if b.token@ == token { b.balance.available as int } else { 0 })
}

pub open spec fn unique_tokens(bals: Seq<TokenBalance>) -> bool {
    forall|i: int, j: int| 0 <= i < j < bals.len() ==> (#[trigger] bals[i]).token@ != (#[trigger] bals[j]).token@
}

/// With unique tokens, a sum keyed on the token of entry `i` is that entry's term.
pub proof fn lemma_keyed_sum(bals: Seq<TokenBalance>, i: int, f: spec_fn(TokenBalance) -> int, g: spec_fn(TokenBalance) -> int)
    requires
        unique_tokens(bals),
        0 <= i < bals.len(),
        forall|b: TokenBalance| #[trigger] f(b) == if b.token@ == bals[i].token@ { g(b) } else { 0 },
    ensures
        seq_sum(bals, f) == g(bals[i]),
{
    let r = bals.remove(i);
    lemma_sum_remove(bals, i, f);
    let zero = |b: TokenBalance| 0int;
    assert forall|j: int| 0 <= j < r.len() implies f(#[trigger] r[j]) == zero(r[j]) by {
        let j0 = if j < i { j } else { j + 1 };
        assert(r[j] == bals[j0]);
    }
    lemma_sum_ext(r, f, zero);
    lemma_sum_zero(r);
}

pub proof fn lemma_sum_zero<T>(s: Seq<T>)
    ensures
        seq_sum(s, |x: T| 0int) == 0,
    decreases s.len(),
{
    if s.len() > 0 {
        lemma_sum_zero(s.drop_last());
    }
}

/// Changing the balance at `k` (same token) moves the keyed sums by the change.
pub proof fn lemma_balance_update(bals: Seq<TokenBalance>, k: int, nb: TokenBalance, token: Seq<char>)
    requires
        0 <= k < bals.len(),
        nb.token@ == bals[k].token@,
    ensures
        total_in(bals.update(k, nb), token) == total_in(bals, token)
            + if bals[k].token@ == token { nb.balance.total - bals[k].balance.total } else { 0 },
        available_in(bals.update(k, nb), token) == available_in(bals, token)
            + if bals[k].token@ == token { nb.balance.available - bals[k].balance.available } else { 0 },
{
    lemma_sum_update(bals, k, nb, |b: TokenBalance| if b.token@ == token { b.balance.total as int } else { 0 });
    lemma_sum_update(bals, k, nb, |b: TokenBalance| if b.token@ == token { b.balance.available as int } else { 0 });
}

/// Orders that may rest hold back nothing negative; each holds back at most the side's total.
pub proof fn lemma_side_reserved_bounds(s: Seq<Order<Open>>, token: Seq<char>, lev: int)
    requires
        lev >= 1,
        forall|i: int| 0 <= i < s.len() ==> (#[trigger] s[i]).state.filled_quantity <= s[i].state.size,
    ensures
        side_reserved(s, token, lev) >= 0,
        forall|i: int| 0 <= i < s.len() ==> 0 <= #[trigger] order_reserve(s[i], token, lev) <= side_reserved(s, token, lev),
{
    let f = |o: Order<Open>| order_reserve(o, token, lev);
    assert forall|i: int| 0 <= i < s.len() implies f(#[trigger] s[i]) >= 0 by {
        lemma_required_monotone(s[i].side, s[i].state.price as int, 0, s[i].state.remaining(), lev);
    }
    lemma_sum_nonneg(s, f);
    assert forall|i: int| 0 <= i < s.len() implies 0 <= #[trigger] order_reserve(s[i], token, lev) <= side_reserved(s, token, lev) by {
        assert(f(s[i]) == order_reserve(s[i], token, lev));
    }
}

/// What well-formed books hold back is nothing negative, and each book's part is at most the whole.
pub proof fn lemma_books_reserved_bounds(books: Seq<OrderBook>, token: Seq<char>, lev: int)
    requires
        lev >= 1,
        forall|i: int| 0 <= i < books.len() ==> (#[trigger] books[i]).wf(),
    ensures
        books_reserved(books, token, lev) >= 0,
        forall|i: int| 0 <= i < books.len() ==> 0 <= #[trigger] book_reserved(books[i], token, lev) <= books_reserved(books, token, lev),
{
    let f = |b: OrderBook| book_reserved(b, token, lev);
    assert forall|i: int| 0 <= i < books.len() implies f(#[trigger] books[i]) >= 0 by {
        lemma_book_reserved_nonneg(books[i], token, lev);
    }
    lemma_sum_nonneg(books, f);
    assert forall|i: int| 0 <= i < books.len() implies 0 <= #[trigger] book_reserved(books[i], token, lev) <= books_reserved(books, token, lev) by {
        assert(f(books[i]) == book_reserved(books[i], token, lev));
    }
}

pub proof fn lemma_book_reserved_nonneg(b: OrderBook, token: Seq<char>, lev: int)
    requires
        lev >= 1,
        b.wf(),
    ensures
        side_reserved(b.bids@, token, lev) >= 0,
        side_reserved(b.asks@, token, lev) >= 0,
        forall|i: int| 0 <= i < b.bids@.len() ==> 0 <= #[trigger] order_reserve(b.bids@[i], token, lev) <= side_reserved(b.bids@, token, lev),
        forall|i: int| 0 <= i < b.asks@.len() ==> 0 <= #[trigger] order_reserve(b.asks@[i], token, lev) <= side_reserved(b.asks@, token, lev),
{
    assert forall|i: int| 0 <= i < b.bids@.len() implies (#[trigger] b.bids@[i]).state.filled_quantity <= b.bids@[i].state.size by {
        assert(resting_ok(b.bids@[i], Side::Buy, b.instrument));
    }
    assert forall|i: int| 0 <= i < b.asks@.len() implies (#[trigger] b.asks@[i]).state.filled_quantity <= b.asks@[i].state.size by {
        assert(resting_ok(b.asks@[i], Side::Sell, b.instrument));
    }
    lemma_side_reserved_bounds(b.bids@, token, lev);
    lemma_side_reserved_bounds(b.asks@, token, lev);
}

/// Margins that are all at least zero sum to at least zero, and each is at most the sum.
pub proof fn lemma_margin_bounds(s: Seq<PerpetualPosition>, token: Seq<char>)
    requires
        forall|i: int| 0 <= i < s.len() ==> (#[trigger] s[i]).margin >= 0,
    ensures
        seq_margin(s, token) >= 0,
        forall|i: int| 0 <= i < s.len() ==> 0 <= #[trigger] position_margin(s[i], token) <= seq_margin(s, token),
{
    let f = |p: PerpetualPosition| position_margin(p, token);
    assert forall|i: int| 0 <= i < s.len() implies f(#[trigger] s[i]) >= 0 by {}
    lemma_sum_nonneg(s, f);
    assert forall|i: int| 0 <= i < s.len() implies 0 <= #[trigger] position_margin(s[i], token) <= seq_margin(s, token) by {
        assert(f(s[i]) == position_margin(s[i], token));
    }
}

/// Without an entry for `token`, the keyed sums of `token` are zero.
pub proof fn lemma_absent_token(bals: Seq<TokenBalance>, token: Seq<char>)
    requires
        forall|i: int| 0 <= i < bals.len() ==> (#[trigger] bals[i]).token@ != token,
    ensures
        total_in(bals, token) == 0,
        available_in(bals, token) == 0,
{
    let zero = |b: TokenBalance| 0int;
    lemma_sum_ext(bals, |b: TokenBalance| if b.token@ == token { b.balance.total as int } else { 0 }, zero);
    lemma_sum_ext(bals, |b: TokenBalance| if b.token@ == token { b.balance.available as int } else { 0 }, zero);
    lemma_sum_zero(bals);
}

/// How many orders of `s` carry `id`.
pub open spec fn side_count(s: Seq<Order<Open>>, id: OrderId) -> int {
    seq_sum(s, |o: Order<Open>| if o.state.id == id { 1int } else { 0int })
}

pub open spec fn book_count(b: OrderBook, id: OrderId) -> int {
    side_count(b.bids@, id) + side_count(b.asks@, id)
}

/// How many resting orders carry `id`.
pub open spec fn books_count(books: Seq<OrderBook>, id: OrderId) -> int {
    seq_sum(books, |b: OrderBook| book_count(b, id))
}

/// Some order of `s` carries `id` exactly when the count of `id` is positive.
pub proof fn lemma_side_count(s: Seq<Order<Open>>, id: OrderId)
    ensures
        side_count(s, id) >= 0,
        holds_id(s, id) <==> side_count(s, id) > 0,
{
    let f = |o: Order<Open>| if o.state.id == id { 1int } else { 0int };
    lemma_sum_nonneg(s, f);
    if holds_id(s, id) {
        let i = choose|i: int| 0 <= i < s.len() && (#[trigger] s[i]).state.id == id;
        assert(f(s[i]) == 1);
    } else {
        let zero = |o: Order<Open>| 0int;
        assert forall|i: int| 0 <= i < s.len() implies f(#[trigger] s[i]) == zero(s[i]) by {
            assert(s[i].state.id != id);
        }
        lemma_sum_ext(s, f, zero);
        lemma_sum_zero(s);
    }
}

pub proof fn lemma_book_count(b: OrderBook, id: OrderId)
    ensures
        side_count(b.bids@, id) >= 0,
        side_count(b.asks@, id) >= 0,
        b.contains_id(id) <==> book_count(b, id) > 0,
{
    lemma_side_count(b.bids@, id);
    lemma_side_count(b.asks@, id);
}

/// Some book holds `id` exactly when the count over all books is positive;
/// each book's count is at most the whole.
pub proof fn lemma_books_count(books: Seq<OrderBook>, id: OrderId)
    ensures
        books_count(books, id) >= 0,
        (exists|i: int| 0 <= i < books.len() && (#[trigger] books[i]).contains_id(id)) <==> books_count(books, id) > 0,
        forall|i: int| 0 <= i < books.len() ==> 0 <= #[trigger] book_count(books[i], id) <= books_count(books, id),
{
    let f = |b: OrderBook| book_count(b, id);
    assert forall|i: int| 0 <= i < books.len() implies f(#[trigger] books[i]) >= 0 by {
        lemma_book_count(books[i], id);
    }
    lemma_sum_nonneg(books, f);
    assert forall|i: int| 0 <= i < books.len() implies 0 <= #[trigger] book_count(books[i], id) <= books_count(books, id) by {
        assert(f(books[i]) == book_count(books[i], id));
    }
    if exists|i: int| 0 <= i < books.len() && (#[trigger] books[i]).contains_id(id) {
        let i = choose|i: int| 0 <= i < books.len() && (#[trigger] books[i]).contains_id(id);
        lemma_book_count(books[i], id);
        assert(f(books[i]) > 0);
    } else {
        let zero = |b: OrderBook| 0int;
        assert forall|i: int| 0 <= i < books.len() implies f(#[trigger] books[i]) == zero(books[i]) by {
            lemma_book_count(books[i], id);
        }
        lemma_sum_ext(books, f, zero);
        lemma_sum_zero(books);
    }
}

/// A book whose `side` became `s_new` (the other side kept) moves what it holds back by that side's change.
pub proof fn lemma_side_change(b: OrderBook, nb: OrderBook, side: Side, s_new: Seq<Order<Open>>, token: Seq<char>, lev: int)
    requires
        nb.side_seq(side) == s_new,
        nb.side_seq(side.flip()) == b.side_seq(side.flip()),
    ensures
        book_reserved(nb, token, lev) == book_reserved(b, token, lev) - side_reserved(b.side_seq(side), token, lev)
            + side_reserved(s_new, token, lev),
{
}

/// A book whose `side` became `s_new` (the other side kept) moves its count of `id` by that side's change.
pub proof fn lemma_side_change_count(b: OrderBook, nb: OrderBook, side: Side, s_new: Seq<Order<Open>>, id: OrderId)
    requires
        nb.side_seq(side) == s_new,
        nb.side_seq(side.flip()) == b.side_seq(side.flip()),
    ensures
        book_count(nb, id) == book_count(b, id) - side_count(b.side_seq(side), id) + side_count(s_new, id),
{
}

} // verus!
