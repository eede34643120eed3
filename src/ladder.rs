//! One side of a book: resting orders in price-time priority.

use vstd::prelude::*;

use crate::amount::Amount;
use crate::order::{with_quantity, Order, OrderSide, OrderView};

verus! {

/// `a` comes strictly before `b` on a ladder of side `side`: a more
/// aggressive price, or the same price submitted earlier.
pub open spec fn ahead(side: OrderSide, a: OrderView, b: OrderView) -> bool {
    match side {
        OrderSide::Bid => a.price > b.price || (a.price == b.price && a.timestamp < b.timestamp),
        OrderSide::Ask => a.price < b.price || (a.price == b.price && a.timestamp < b.timestamp),
    }
}

/// No order of `s` comes strictly before an order listed earlier.
pub open spec fn in_priority_order(side: OrderSide, s: Seq<OrderView>) -> bool {
    forall|i: int, j: int| 0 <= i < j < s.len() ==> !ahead(side, #[trigger] s[j], #[trigger] s[i])
}

/// A resting order at `price` on side `side` may trade against a counter-order
/// whose limit price is `limit`: an ask at or below the bid's limit, a bid at
/// or above the ask's limit.
pub open spec fn eligible(side: OrderSide, price: nat, limit: nat) -> bool {
    match side {
        OrderSide::Ask => price <= limit,
        OrderSide::Bid => price >= limit,
    }
}

/// Where `o` joins the ladder `s`: before the first order that it is
/// strictly ahead of, so after every order of equal priority.
pub open spec fn insert_pos(side: OrderSide, s: Seq<OrderView>, o: OrderView) -> nat
    decreases s.len(),
{
    if s.len() == 0 || ahead(side, o, s[0]) {
        0
    } else {
        1 + insert_pos(side, s.drop_first(), o)
    }
}

/// Every order before `insert_pos` stays ahead of or level with `o`, and the
/// one at `insert_pos`, if any, is behind it.
pub proof fn lemma_insert_pos(side: OrderSide, s: Seq<OrderView>, o: OrderView)
    ensures
        insert_pos(side, s, o) <= s.len(),
        forall|i: int| 0 <= i < insert_pos(side, s, o) ==> !ahead(side, o, #[trigger] s[i]),
        insert_pos(side, s, o) < s.len() ==> ahead(side, o, s[insert_pos(side, s, o) as int]),
    decreases s.len(),
{
    if s.len() > 0 && !ahead(side, o, s[0]) {
        let t = s.drop_first();
        lemma_insert_pos(side, t, o);
        assert forall|i: int| 0 <= i < insert_pos(side, s, o) implies !ahead(side, o, #[trigger] s[i]) by {
            if i > 0 {
                assert(s[i] == t[i - 1]);
            }
        }
    }
}

/// Inserting at `insert_pos` keeps a ladder in priority order.
pub proof fn lemma_insert_keeps_order(side: OrderSide, s: Seq<OrderView>, o: OrderView)
    requires
        in_priority_order(side, s),
    ensures
        in_priority_order(side, s.insert(insert_pos(side, s, o) as int, o)),
{
    lemma_insert_pos(side, s, o);
    let k = insert_pos(side, s, o) as int;
    let t = s.insert(k, o);
    assert forall|i: int, j: int| 0 <= i < j < t.len() implies !ahead(side, #[trigger] t[j], #[trigger] t[i]) by {
        if j < k {
            assert(t[i] == s[i] && t[j] == s[j]);
        } else if j == k {
            assert(t[i] == s[i]);
        } else if i == k {
            assert(t[j] == s[j - 1]);
            assert(!ahead(side, s[j - 1], s[k]));
        } else if i < k {
            assert(t[i] == s[i] && t[j] == s[j - 1]);
        } else {
            assert(t[i] == s[i - 1] && t[j] == s[j - 1]);
        }
    }
}

/// Whether `a` comes strictly before `b` on a ladder of side `side`.
pub fn is_ahead(side: OrderSide, a: &Order, b: &Order) -> (r: bool)
    ensures
        r == ahead(side, a@, b@),
{
    let ap = a.price();
    let bp = b.price();
    let a_le_b = ap.le(&bp);
    let b_le_a = bp.le(&ap);
    let better_price = match side {
        OrderSide::Bid => !a_le_b,
        OrderSide::Ask => !b_le_a,
    };
    better_price || (a_le_b && b_le_a && a.timestamp() < b.timestamp())
}

/// The resting orders of one side of a book, best first.
pub struct Ladder {
    side: OrderSide,
    orders: Vec<Order>,
}

impl View for Ladder {
    type V = Seq<OrderView>;

    closed spec fn view(&self) -> Seq<OrderView> {
        self.orders@.map_values(|o: Order| o@)
    }
}

impl Ladder {
    /// The side whose orders the ladder holds.
    pub closed spec fn spec_side(&self) -> OrderSide {
        self.side
    }

    /// The orders are in priority order and none has quantity zero.
    pub open spec fn wf(&self) -> bool {
        &&& in_priority_order(self.spec_side(), self@)
        &&& forall|i: int| 0 <= i < self@.len() ==> (#[trigger] self@[i]).quantity > 0
    }

    /// An empty ladder for `side`.
    pub fn new(side: OrderSide) -> (r: Ladder)
        ensures
            r.wf(),
            r.spec_side() == side,
            r@ == Seq::<OrderView>::empty(),
    {
        let r = Ladder { side, orders: Vec::new() };
        assert(r@ =~= Seq::<OrderView>::empty());
        r
    }

    /// The side whose orders the ladder holds.
    pub fn side(&self) -> (r: OrderSide)
        ensures
            r == self.spec_side(),
    {
        self.side
    }

    /// The number of resting orders.
    pub fn len(&self) -> (r: usize)
        ensures
            r == self@.len(),
    {
        self.orders.len()
    }

    /// Whether no order rests here.
    pub fn is_empty(&self) -> (r: bool)
        ensures
            r == (self@.len() == 0),
    {
        self.orders.len() == 0
    }

    /// The best resting order, if any.
    pub fn peek_best(&self) -> (r: Option<&Order>)
        ensures
            match r {
                Some(o) => self@.len() > 0 && o@ == self@[0],
                None => self@.len() == 0,
            },
    {
        if self.orders.len() == 0 {
            None
        } else {
            Some(&self.orders[0])
        }
    }

    /// Whether the best order, if any, may trade against a counter-order
    /// with limit price `limit`.
    pub fn best_crosses(&self, limit: &Amount) -> (r: bool)
        ensures
            r == (self@.len() > 0 && eligible(self.spec_side(), self@[0].price, limit@)),
    {
        if self.orders.len() == 0 {
            return false;
        }
        let price = self.orders[0].price();
        match self.side {
            OrderSide::Ask => price.le(limit),
            OrderSide::Bid => limit.le(&price),
        }
    }

    /// Removes and returns the best order if it may trade against a
    /// counter-order with limit price `limit`; otherwise changes nothing.
    pub fn pop_best_if_crosses(&mut self, limit: &Amount) -> (r: Option<Order>)
        requires
            old(self).wf(),
        ensures
            final(self).wf(),
            final(self).spec_side() == old(self).spec_side(),
            old(self)@.len() > 0 && eligible(old(self).spec_side(), old(self)@[0].price, limit@)
                ==> r is Some && r->0@ == old(self)@[0] && final(self)@ == old(self)@.drop_first(),
            !(old(self)@.len() > 0 && eligible(old(self).spec_side(), old(self)@[0].price, limit@))
                ==> r is None && final(self)@ == old(self)@,
    {
        if self.best_crosses(limit) {
            let o = self.orders.remove(0);
            assert(self@ =~= old(self)@.drop_first());
            Some(o)
        } else {
            None
        }
    }

    /// Sets the best order's quantity to `quantity`, keeping its place.
    pub fn reduce_best(&mut self, quantity: Amount)
        requires
            old(self).wf(),
            old(self)@.len() > 0,
            quantity@ > 0,
        ensures
            final(self).wf(),
            final(self).spec_side() == old(self).spec_side(),
            final(self)@ == old(self)@.update(0, with_quantity(old(self)@[0], quantity@)),
    {
        let mut o = self.orders.remove(0);
        o.set_quantity(quantity);
        self.orders.insert(0, o);
        assert(self@ =~= old(self)@.update(0, with_quantity(old(self)@[0], quantity@)));
    }

    /// Adds a resting order behind every order of equal or higher priority.
    pub fn insert(&mut self, order: Order)
        requires
            old(self).wf(),
            order@.quantity > 0,
        ensures
            final(self).wf(),
            final(self).spec_side() == old(self).spec_side(),
            final(self)@ == old(self)@.insert(
                insert_pos(old(self).spec_side(), old(self)@, order@) as int,
                order@,
            ),
    {
        let mut i: usize = 0;
        while i < self.orders.len() && !is_ahead(self.side, &order, &self.orders[i])
            invariant
                self == old(self),
                0 <= i <= self@.len(),
                self@.len() == self.orders@.len(),
                forall|j: int| 0 <= j < i ==> !ahead(self.side, order@, #[trigger] self@[j]),
            decreases self.orders.len() - i,
        {
            i = i + 1;
        }
        proof {
            lemma_insert_pos(self.side, self@, order@);
            lemma_insert_keeps_order(self.side, self@, order@);
            let k = insert_pos(self.side, self@, order@) as int;
            if i < self@.len() {
                assert(self@[i as int] == self.orders@[i as int]@);
                assert(ahead(self.side, order@, self@[i as int]));
            }
            if k < i {
                assert(!ahead(self.side, order@, self@[k]));
            }
        }
        assert(i == insert_pos(self.side, self@, order@));
        self.orders.insert(i, order);
        assert(self@ =~= old(self)@.insert(i as int, order@));
    }
}

} // verus!
