use vstd::prelude::*;
use crate::instrument::{Instrument, Side};
use crate::order::{in_range, Open, Order, OrderId};

verus! {

/// Whether resting order `a` is matched before `b` on a book side: bids by
/// higher price, asks by lower price, and on equal price the smaller
/// remaining quantity first.
pub open spec fn ranks_before(a: Open, b: Open, side: Side) -> bool {
    match side {
        Side::Buy => a.price > b.price || (a.price == b.price && a.remaining() < b.remaining()),
        Side::Sell => a.price < b.price || (a.price == b.price && a.remaining() < b.remaining()),
    }
}

/// No order of `s` ranks before an order that precedes it.
pub open spec fn sorted(s: Seq<Order<Open>>, side: Side) -> bool {
    forall|i: int, j: int|
        0 <= i < j < s.len() ==> !ranks_before(#[trigger] s[j].state, #[trigger] s[i].state, side)
}

/// An order that may rest on the `side` side of the book of `instrument`.
pub open spec fn resting_ok(o: Order<Open>, side: Side, instrument: Instrument) -> bool {
    &&& o.side == side
    &&& o.instrument@ == instrument@
    &&& o.state.filled_quantity < o.state.size
    &&& o.state.price > 0
    &&& in_range(o.state.price as int, o.state.size as int)
}

pub open spec fn side_wf(s: Seq<Order<Open>>, side: Side, instrument: Instrument) -> bool {
    &&& sorted(s, side)
    &&& forall|i: int| 0 <= i < s.len() ==> resting_ok(#[trigger] s[i], side, instrument)
}

/// Whether some order of `s` carries `id`.
pub open spec fn holds_id(s: Seq<Order<Open>>, id: OrderId) -> bool {
    exists|i: int| 0 <= i < s.len() && (#[trigger] s[i]).state.id == id
}

/// The open orders of one instrument: bids best first, asks best first.
#[derive(Clone, Debug)]
pub struct OrderBook {
    pub instrument: Instrument,
    pub bids: Vec<Order<Open>>,
    pub asks: Vec<Order<Open>>,
}

impl OrderBook {
    pub open spec fn side_seq(&self, side: Side) -> Seq<Order<Open>> {
        match side {
            Side::Buy => self.bids@,
            Side::Sell => self.asks@,
        }
    }

    pub open spec fn wf(&self) -> bool {
        &&& side_wf(self.bids@, Side::Buy, self.instrument)
        &&& side_wf(self.asks@, Side::Sell, self.instrument)
    }

    /// Whether the book holds an order with this id.
    pub open spec fn contains_id(&self, id: OrderId) -> bool {
        holds_id(self.bids@, id) || holds_id(self.asks@, id)
    }

    pub proof fn lemma_side_wf(&self, side: Side)
        requires
            self.wf(),
        ensures
            side_wf(self.side_seq(side), side, self.instrument),
    {
    }

    /// Whether an order with `id` rests in this book.
    pub fn find_id(&self, id: OrderId) -> (r: bool)
        ensures
            r == self.contains_id(id),
    {
        side_has_id(&self.bids, id) || side_has_id(&self.asks, id)
    }

    /// An empty book for `instrument`.
    pub fn new(instrument: Instrument) -> (r: OrderBook)
        ensures
            r.wf(),
            r.instrument == instrument,
            r.bids@.len() == 0,
            r.asks@.len() == 0,
    {
        OrderBook { instrument, bids: Vec::new(), asks: Vec::new() }
    }

    /// The number of orders on one side.
    pub fn depth_len(&self, side: Side) -> (r: usize)
        ensures
            r == self.side_seq(side).len(),
    {
        match side {
            Side::Buy => self.bids.len(),
            Side::Sell => self.asks.len(),
        }
    }

    /// The order that would be matched first on `side`.
    pub fn best(&self, side: Side) -> (r: Option<&Order<Open>>)
        ensures
            self.side_seq(side).len() == 0 ==> r is None,
            self.side_seq(side).len() > 0 ==> r == Some(&self.side_seq(side)[0]),
    {
        let v = match side {
            Side::Buy => &self.bids,
            Side::Sell => &self.asks,
        };
        if v.len() == 0 {
            None
        } else {
            Some(&v[0])
        }
    }

    /// The order at position `i` of `side`.
    pub fn order_at(&self, side: Side, i: usize) -> (r: &Order<Open>)
        requires
            i < self.side_seq(side).len(),
        ensures
            *r == self.side_seq(side)[i as int],
    {
        match side {
            Side::Buy => &self.bids[i],
            Side::Sell => &self.asks[i],
        }
    }

    /// Inserts a resting order behind every order that does not rank after it.
    pub fn insert(&mut self, order: Order<Open>)
        requires
            old(self).wf(),
            resting_ok(order, order.side, old(self).instrument),
        ensures
            final(self).wf(),
            final(self).instrument == old(self).instrument,
            final(self).side_seq(order.side.flip()) == old(self).side_seq(order.side.flip()),
            exists|k: int|
                0 <= k <= old(self).side_seq(order.side).len()
                && final(self).side_seq(order.side) == old(self).side_seq(order.side).insert(k, order),
    {
        let side = order.side;
        let ghost s = self.side_seq(side);
        let ghost inst = self.instrument;
        let v = match side {
            Side::Buy => &mut self.bids,
            Side::Sell => &mut self.asks,
        };
        let mut k: usize = 0;
        while k < v.len() && !ranks_before_exec(&order.state, &v[k].state, side)
            invariant
                v@ == s,
                side_wf(s, side, inst),
                order.state.filled_quantity < order.state.size,
                0 <= k <= s.len(),
                forall|i: int| 0 <= i < k ==> !ranks_before(order.state, #[trigger] s[i].state, side),
            decreases s.len() - k,
        {
            k += 1;
        }
        proof {
            // every order from `k` on does not rank before the new one
            assert forall|j: int| k <= j < s.len() implies !ranks_before(#[trigger] s[j].state, order.state, side) by {
                assert(ranks_before(order.state, s[k as int].state, side));
                if k < j {
                    assert(!ranks_before(s[j].state, s[k as int].state, side));
                }
            }
        }
        v.insert(k, order);
        proof {
            let t = s.insert(k as int, order);
            assert(v@ == t);
            assert forall|i: int, j: int| 0 <= i < j < t.len() implies !ranks_before(#[trigger] t[j].state, #[trigger] t[i].state, side) by {
                if j < k {
                } else if j == k {
                } else if i < k {
                    assert(t[j] == s[j - 1]);
                    assert(!ranks_before(order.state, s[i].state, side));
                    assert(!ranks_before(s[j - 1].state, order.state, side));
                } else if i == k {
                    assert(t[j] == s[j - 1]);
                } else {
                    assert(t[j] == s[j - 1]);
                    assert(t[i] == s[i - 1]);
                }
            }
            assert forall|i: int| 0 <= i < t.len() implies resting_ok(#[trigger] t[i], side, self.instrument) by {
                if i < k {
                } else if i > k {
                    assert(t[i] == s[i - 1]);
                }
            }
        }
    }

    /// Removes and returns the order that would be matched first on `side`.
    pub fn pop_best(&mut self, side: Side) -> (r: Option<Order<Open>>)
        requires
            old(self).wf(),
        ensures
            final(self).wf(),
            final(self).instrument == old(self).instrument,
            final(self).side_seq(side.flip()) == old(self).side_seq(side.flip()),
            old(self).side_seq(side).len() == 0 ==> r is None && final(self).side_seq(side) == old(self).side_seq(side),
            old(self).side_seq(side).len() > 0 ==> r == Some(old(self).side_seq(side)[0])
                && final(self).side_seq(side) == old(self).side_seq(side).remove(0),
    {
        let ghost s = self.side_seq(side);
        let v = match side {
            Side::Buy => &mut self.bids,
            Side::Sell => &mut self.asks,
        };
        if v.len() == 0 {
            return None;
        }
        let o = v.remove(0);
        proof {
            let t = s.remove(0);
            assert forall|i: int, j: int| 0 <= i < j < t.len() implies !ranks_before(#[trigger] t[j].state, #[trigger] t[i].state, side) by {
                assert(t[i] == s[i + 1]);
                assert(t[j] == s[j + 1]);
            }
            assert forall|i: int| 0 <= i < t.len() implies resting_ok(#[trigger] t[i], side, self.instrument) by {
                assert(t[i] == s[i + 1]);
            }
        }
        Some(o)
    }

    /// Adds `q` to the filled quantity of the best order of `side`, which keeps
    /// some remaining quantity and therefore its place.
    pub fn fill_front(&mut self, side: Side, q: u64)
        requires
            old(self).wf(),
            old(self).side_seq(side).len() > 0,
            0 < q < old(self).side_seq(side)[0].state.remaining(),
        ensures
            final(self).wf(),
            final(self).instrument == old(self).instrument,
            final(self).side_seq(side.flip()) == old(self).side_seq(side.flip()),
            final(self).side_seq(side) == old(self).side_seq(side).update(0, Order {
                state: Open {
                    filled_quantity: (old(self).side_seq(side)[0].state.filled_quantity + q) as u64,
                    ..old(self).side_seq(side)[0].state
                },
                ..old(self).side_seq(side)[0]
            }),
    {
        let ghost s = self.side_seq(side);
        let v = match side {
            Side::Buy => &mut self.bids,
            Side::Sell => &mut self.asks,
        };
        let mut o = v[0].duplicate();
        o.state.filled_quantity = o.state.filled_quantity + q;
        v.set(0, o);
        proof {
            let t = s.update(0, o);
            assert forall|i: int, j: int| 0 <= i < j < t.len() implies !ranks_before(#[trigger] t[j].state, #[trigger] t[i].state, side) by {
                assert(t[j] == s[j]);
                if i > 0 {
                    assert(t[i] == s[i]);
                } else {
                    assert(!ranks_before(s[j].state, s[0].state, side));
                }
            }
            assert forall|i: int| 0 <= i < t.len() implies resting_ok(#[trigger] t[i], side, self.instrument) by {
                if i > 0 {
                    assert(t[i] == s[i]);
                }
            }
        }
    }

    /// Removes and returns the first order carrying `id`, bids searched first.
    pub fn remove_by_id(&mut self, id: OrderId) -> (r: Option<Order<Open>>)
        requires
            old(self).wf(),
        ensures
            final(self).wf(),
            final(self).instrument == old(self).instrument,
            r is None <==> !old(self).contains_id(id),
            r is None ==> final(self).bids@ == old(self).bids@ && final(self).asks@ == old(self).asks@,
            r matches Some(o) ==> o.state.id == id && (exists|k: int|
                0 <= k < old(self).side_seq(o.side).len()
                && old(self).side_seq(o.side)[k] == o
                && final(self).side_seq(o.side) == old(self).side_seq(o.side).remove(k))
                && final(self).side_seq(o.side.flip()) == old(self).side_seq(o.side.flip()),
    {
        let ghost pre = *self;
        let r = remove_from_side(&mut self.bids, id, Side::Buy, &self.instrument);
        if let Some(o) = &r {
            proof {
                let k = choose|k: int| 0 <= k < pre.bids@.len() && pre.bids@[k] == *o && self.bids@ == pre.bids@.remove(k);
                assert(pre.side_seq(o.side)[k] == *o);
            }
            return r;
        }
        let r = remove_from_side(&mut self.asks, id, Side::Sell, &self.instrument);
        if let Some(o) = &r {
            proof {
                let k = choose|k: int| 0 <= k < pre.asks@.len() && pre.asks@[k] == *o && self.asks@ == pre.asks@.remove(k);
                assert(pre.side_seq(o.side)[k] == *o);
            }
        }
        r
    }
}

fn side_has_id(v: &Vec<Order<Open>>, id: OrderId) -> (r: bool)
    ensures
        r == holds_id(v@, id),
{
    let mut i: usize = 0;
    while i < v.len()
        invariant
            0 <= i <= v@.len(),
            forall|j: int| 0 <= j < i ==> (#[trigger] v@[j]).state.id != id,
        decreases v@.len() - i,
    {
        if v[i].state.id == id {
            return true;
        }
        i += 1;
    }
    false
}

/// `ranks_before` on executable values.
pub fn ranks_before_exec(a: &Open, b: &Open, side: Side) -> (r: bool)
    requires
        a.filled_quantity <= a.size,
        b.filled_quantity <= b.size,
    ensures
        r == ranks_before(*a, *b, side),
{
    let ra = a.size - a.filled_quantity;
    let rb = b.size - b.filled_quantity;
    match side {
        Side::Buy => a.price > b.price || (a.price == b.price && ra < rb),
        Side::Sell => a.price < b.price || (a.price == b.price && ra < rb),
    }
}

fn remove_from_side(v: &mut Vec<Order<Open>>, id: OrderId, side: Side, instrument: &Instrument) -> (r: Option<Order<Open>>)
    requires
        side_wf(old(v)@, side, *instrument),
    ensures
        side_wf(final(v)@, side, *instrument),
        r is None <==> !holds_id(old(v)@, id),
        r is None ==> final(v)@ == old(v)@,
        r matches Some(o) ==> o.state.id == id && o.side == side && (exists|k: int|
            0 <= k < old(v)@.len() && old(v)@[k] == o && final(v)@ == old(v)@.remove(k)),
{
    let ghost s = v@;
    let mut k: usize = 0;
    while k < v.len() && v[k].state.id != id
        invariant
            v@ == s,
            side_wf(s, side, *instrument),
            0 <= k <= s.len(),
            forall|i: int| 0 <= i < k ==> (#[trigger] s[i]).state.id != id,
        decreases s.len() - k,
    {
        k += 1;
    }
    if k == v.len() {
        return None;
    }
    let o = v.remove(k);
    proof {
        let t = s.remove(k as int);
        assert forall|i: int, j: int| 0 <= i < j < t.len() implies !ranks_before(#[trigger] t[j].state, #[trigger] t[i].state, side) by {
            let i0 = if i < k { i } else { i + 1 };
            let j0 = if j < k { j } else { j + 1 };
            assert(t[i] == s[i0]);
            assert(t[j] == s[j0]);
            assert(!ranks_before(s[j0].state, s[i0].state, side));
        }
        assert forall|i: int| 0 <= i < t.len() implies resting_ok(#[trigger] t[i], side, *instrument) by {
            let i0 = if i < k { i } else { i + 1 };
            assert(t[i] == s[i0]);
        }
        assert(s[k as int] == o);
        assert(holds_id(s, id));
    }
    Some(o)
}

} // verus!
