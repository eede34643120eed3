//! The matching engine of one market: two ladders and the crossing algorithm.

use vstd::prelude::*;

use crate::address::Address;
use crate::amount::Amount;
use crate::ladder::{eligible, in_priority_order, insert_pos, lemma_insert_keeps_order, Ladder};
use crate::order::{opposite, with_quantity, Order, OrderSide, OrderView};

verus! {

/// Why a submission failed.
#[derive(Clone, Copy, Debug, PartialEq, Eq, Structural)]
pub enum BookError {
    /// The order targets another market; the book is left unchanged.
    MarketMismatch,
    /// The settlement notification could not be delivered; the match stands.
    Web3Error,
}

/// One trade of an incoming order against a resting order.
#[derive(Clone, Copy, Debug, PartialEq, Eq)]
pub struct Fill {
    /// The trader of the resting order.
    pub maker: Address,
    /// The resting order's price, at which the trade happens.
    pub price: Amount,
    /// The quantity traded.
    pub quantity: Amount,
    /// What is left of the resting order; zero when it was consumed.
    pub maker_remaining: Amount,
}

/// A fill with its amounts as mathematical integers.
pub struct FillView {
    pub maker: Seq<u8>,
    pub price: nat,
    pub quantity: nat,
    pub maker_remaining: nat,
}

impl View for Fill {
    type V = FillView;

    open spec fn view(&self) -> FillView {
        FillView {
            maker: self.maker@,
            price: self.price@,
            quantity: self.quantity@,
            maker_remaining: self.maker_remaining@,
        }
    }
}

/// The views of a sequence of fills.
pub open spec fn fill_views(fills: Seq<Fill>) -> Seq<FillView> {
    fills.map_values(|f: Fill| f@)
}

/// What one accepted submission did: its trades, in order, and the quantity
/// left over, which rests on the order's own side when it is not zero.
pub struct MatchOutcome {
    pub fills: Vec<Fill>,
    pub remainder: Amount,
}

/// The result of crossing an incoming quantity against a ladder: the trades,
/// the ladder afterwards, and the quantity that found no counterpart.
pub struct Crossing {
    pub fills: Seq<FillView>,
    pub rest: Seq<OrderView>,
    pub remaining: nat,
}

/// A trade of `quantity` against the resting order `maker`.
pub open spec fn fill_against(maker: OrderView, quantity: nat) -> FillView {
    FillView {
        maker: maker.trader,
        price: maker.price,
        quantity,
        maker_remaining: (maker.quantity - quantity) as nat,
    }
}

/// Crossing `remaining` at limit price `limit` against `ladder`, whose
/// orders are on `side`: while quantity is left and the best resting order
/// is eligible, consume it whole if it is no larger than what is left, else
/// reduce it by what is left.
pub open spec fn cross(side: OrderSide, limit: nat, remaining: nat, ladder: Seq<OrderView>) -> Crossing
    decreases ladder.len(),
{
    if remaining == 0 || ladder.len() == 0 || !eligible(side, ladder[0].price, limit) {
        Crossing { fills: Seq::empty(), rest: ladder, remaining }
    } else if ladder[0].quantity <= remaining {
        let c = cross(side, limit, (remaining - ladder[0].quantity) as nat, ladder.drop_first());
        Crossing { fills: seq![fill_against(ladder[0], ladder[0].quantity)] + c.fills, ..c }
    } else {
        Crossing {
            fills: seq![fill_against(ladder[0], remaining)],
            rest: ladder.update(0, with_quantity(ladder[0], (ladder[0].quantity - remaining) as nat)),
            remaining: 0,
        }
    }
}

/// `c` with the trades `done` made before it.
pub open spec fn after_fills(done: Seq<FillView>, c: Crossing) -> Crossing {
    Crossing { fills: done + c.fills, ..c }
}

/// The total quantity traded by `fills`.
pub open spec fn fills_total(fills: Seq<FillView>) -> nat
    decreases fills.len(),
{
    if fills.len() == 0 {
        0
    } else {
        fills[0].quantity + fills_total(fills.drop_first())
    }
}

/// How many of `fills` consumed their resting order whole.
pub open spec fn consumed(fills: Seq<FillView>) -> nat
    decreases fills.len(),
{
    if fills.len() == 0 {
        0
    } else {
        (if fills[0].maker_remaining == 0 { 1nat } else { 0nat }) + consumed(fills.drop_first())
    }
}

/// `c` is a crossing of `quantity` at `limit` against `ladder` in price-time
/// priority: its trades take the ladder's orders from the best one on, each
/// eligible, all but the last whole; only the last may be partial, and then
/// nothing is left over; the orders behind the last one traded are untouched;
/// it stops early only when nothing is left; and it trades exactly what it
/// does not leave over.
pub open spec fn priority_crossing(
    side: OrderSide,
    limit: nat,
    quantity: nat,
    ladder: Seq<OrderView>,
    c: Crossing,
) -> bool {
    let n = c.fills.len() as int;
    &&& n <= ladder.len()
    &&& forall|i: int|
        0 <= i < n ==> {
            &&& eligible(side, ladder[i].price, limit)
            &&& c.fills[i].quantity <= ladder[i].quantity
            &&& #[trigger] c.fills[i] == fill_against(ladder[i], c.fills[i].quantity)
        }
    &&& forall|i: int| 0 <= i < n - 1 ==> (#[trigger] c.fills[i]).maker_remaining == 0
    &&& if n > 0 && c.fills[n - 1].maker_remaining > 0 {
        &&& c.remaining == 0
        &&& c.rest == ladder.skip(n - 1).update(
            0,
            with_quantity(ladder[n - 1], c.fills[n - 1].maker_remaining),
        )
    } else {
        c.rest == ladder.skip(n)
    }
    &&& c.remaining > 0 ==> n == ladder.len() || !eligible(side, ladder[n].price, limit)
    &&& fills_total(c.fills) + c.remaining == quantity
    &&& c.rest.len() + consumed(c.fills) == ladder.len()
}

/// The crossing algorithm follows price-time priority and never trades more
/// than the incoming quantity.
pub proof fn lemma_cross_in_priority(side: OrderSide, limit: nat, quantity: nat, ladder: Seq<OrderView>)
    ensures
        priority_crossing(side, limit, quantity, ladder, cross(side, limit, quantity, ladder)),
    decreases ladder.len(),
{
    let c = cross(side, limit, quantity, ladder);
    if quantity == 0 || ladder.len() == 0 || !eligible(side, ladder[0].price, limit) {
        assert(ladder.skip(0) =~= ladder);
    } else if ladder[0].quantity <= quantity {
        let t = ladder.drop_first();
        let q = (quantity - ladder[0].quantity) as nat;
        let d = cross(side, limit, q, t);
        lemma_cross_in_priority(side, limit, q, t);
        let f = fill_against(ladder[0], ladder[0].quantity);
        assert(c.fills == seq![f] + d.fills);
        assert(c.fills.drop_first() =~= d.fills);
        assert(fills_total(c.fills) == f.quantity + fills_total(d.fills));
        assert(consumed(c.fills) == 1 + consumed(d.fills));
        let n = c.fills.len() as int;
        assert forall|i: int| 0 < i < n implies c.fills[i] == d.fills[i - 1] && ladder[i] == t[i - 1] by {}
        if n > 1 {
            assert(ladder.skip(n - 1) =~= t.skip(n - 2));
        }
        assert(ladder.skip(n) =~= t.skip(n - 1));
        assert forall|i: int|
            0 <= i < n implies {
                &&& eligible(side, ladder[i].price, limit)
                &&& c.fills[i].quantity <= ladder[i].quantity
                &&& #[trigger] c.fills[i] == fill_against(ladder[i], c.fills[i].quantity)
            } by {
            if i > 0 {
                assert(c.fills[i] == d.fills[i - 1] && ladder[i] == t[i - 1]);
            }
        }
        assert forall|i: int| 0 <= i < n - 1 implies (#[trigger] c.fills[i]).maker_remaining == 0 by {
            if i > 0 {
                assert(c.fills[i] == d.fills[i - 1]);
            }
        }
    } else {
        assert(c.fills.drop_first() =~= Seq::<FillView>::empty());
        assert(fills_total(Seq::<FillView>::empty()) == 0);
        assert(consumed(Seq::<FillView>::empty()) == 0);
        assert(fills_total(c.fills) == quantity);
        assert(consumed(c.fills) == 0);
        assert(ladder.skip(0) =~= ladder);
    }
}

/// Crosses the incoming `quantity` at limit price `limit` against `ladder`,
/// returning the trades and what is left over.
fn cross_ladder(ladder: &mut Ladder, limit: Amount, quantity: Amount) -> (r: (Vec<Fill>, Amount))
    requires
        old(ladder).wf(),
    ensures
        final(ladder).wf(),
        final(ladder).spec_side() == old(ladder).spec_side(),
        final(ladder)@ == cross(old(ladder).spec_side(), limit@, quantity@, old(ladder)@).rest,
        fill_views(r.0@) == cross(old(ladder).spec_side(), limit@, quantity@, old(ladder)@).fills,
        r.1@ == cross(old(ladder).spec_side(), limit@, quantity@, old(ladder)@).remaining,
{
    let ghost side = ladder.spec_side();
    let ghost whole = cross(side, limit@, quantity@, old(ladder)@);
    let mut fills: Vec<Fill> = Vec::new();
    let mut remaining = quantity;
    loop
        invariant
            ladder.wf(),
            ladder.spec_side() == side,
            whole == after_fills(fill_views(fills@), cross(side, limit@, remaining@, ladder@)),
        ensures
            remaining@ == 0 || ladder@.len() == 0 || !eligible(side, ladder@[0].price, limit@),
        decreases ladder@.len(),
    {
        if remaining.is_zero() || !ladder.best_crosses(&limit) {
            break;
        }
        let best = match ladder.peek_best() {
            Some(best) => best,
            None => break,
        };
        let best_quantity = best.quantity();
        let fill_base = Fill {
            maker: best.trader(),
            price: best.price(),
            quantity: best_quantity,
            maker_remaining: Amount::zero(),
        };
        let ghost before = ladder@;
        let ghost done = fill_views(fills@);
        if best_quantity.le(&remaining) {
            let _consumed = ladder.pop_best_if_crosses(&limit);
            remaining = remaining.minus(&best_quantity);
            fills.push(fill_base);
            proof {
                let f = fill_against(before[0], before[0].quantity);
                assert(fill_views(fills@) =~= done.push(f));
                assert(done + (seq![f] + cross(side, limit@, remaining@, ladder@).fills)
                    =~= done.push(f) + cross(side, limit@, remaining@, ladder@).fills);
            }
        } else {
            let left = best_quantity.minus(&remaining);
            ladder.reduce_best(left);
            fills.push(Fill { quantity: remaining, maker_remaining: left, ..fill_base });
            proof {
                let f = fill_against(before[0], remaining@);
                assert(fill_views(fills@) =~= done.push(f));
                assert(done + seq![f] =~= done.push(f));
                assert(done.push(f) + Seq::<FillView>::empty() =~= done.push(f));
            }
            remaining = Amount::zero();
            break;
        }
    }
    proof {
        assert(fill_views(fills@) + Seq::<FillView>::empty() =~= fill_views(fills@));
    }
    (fills, remaining)
}

/// What a book holds: its market and the resting orders of each side, best
/// first.
pub struct BookView {
    pub market: Seq<u8>,
    pub bids: Seq<OrderView>,
    pub asks: Seq<OrderView>,
}

/// The ladder of `b` that holds orders on `side`.
pub open spec fn side_of(b: BookView, side: OrderSide) -> Seq<OrderView> {
    match side {
        OrderSide::Bid => b.bids,
        OrderSide::Ask => b.asks,
    }
}

/// `s` is a well-formed ladder of orders on `side` in `market`.
pub open spec fn ladder_valid(side: OrderSide, market: Seq<u8>, s: Seq<OrderView>) -> bool {
    &&& in_priority_order(side, s)
    &&& forall|i: int|
        0 <= i < s.len() ==> {
            &&& (#[trigger] s[i]).quantity > 0
            &&& s[i].side == side
            &&& s[i].market == market
        }
}

/// The best bid is strictly below the best ask.
pub open spec fn uncrossed(bids: Seq<OrderView>, asks: Seq<OrderView>) -> bool {
    bids.len() > 0 && asks.len() > 0 ==> bids[0].price < asks[0].price
}

/// Both ladders are well-formed and the book is not crossed.
pub open spec fn valid_book(b: BookView) -> bool {
    &&& ladder_valid(OrderSide::Bid, b.market, b.bids)
    &&& ladder_valid(OrderSide::Ask, b.market, b.asks)
    &&& uncrossed(b.bids, b.asks)
}

/// The crossing of the incoming order `o` against the opposite side of `b`.
pub open spec fn crossing_of(b: BookView, o: OrderView) -> Crossing {
    cross(opposite(o.side), o.price, o.quantity, side_of(b, opposite(o.side)))
}

/// The book after `o` was submitted to `b`: the opposite side as the
/// crossing left it, and any remainder of `o` resting on its own side.
pub open spec fn after_submit(b: BookView, o: OrderView) -> BookView {
    let c = crossing_of(b, o);
    let own = side_of(b, o.side);
    let rested = with_quantity(o, c.remaining);
    let own_after = if c.remaining > 0 {
        own.insert(insert_pos(o.side, own, rested) as int, rested)
    } else {
        own
    };
    match o.side {
        OrderSide::Bid => BookView { market: b.market, bids: own_after, asks: c.rest },
        OrderSide::Ask => BookView { market: b.market, bids: c.rest, asks: own_after },
    }
}

/// What a crossing leaves of a ladder is a suffix of it, with at most the
/// quantities changed, none to zero; and when quantity is left over, the
/// suffix begins where the orders stopped being eligible.
proof fn lemma_rest_is_suffix(side: OrderSide, limit: nat, quantity: nat, ladder: Seq<OrderView>)
    requires
        forall|i: int| 0 <= i < ladder.len() ==> (#[trigger] ladder[i]).quantity > 0,
    ensures
        ({
            let c = cross(side, limit, quantity, ladder);
            let m = ladder.len() - c.rest.len();
            &&& 0 <= m <= ladder.len()
            &&& forall|i: int|
                0 <= i < c.rest.len() ==> {
                    &&& #[trigger] c.rest[i] == with_quantity(ladder[i + m], c.rest[i].quantity)
                    &&& c.rest[i].quantity > 0
                }
            &&& c.remaining > 0 ==> c.rest == ladder.skip(m) && (m == ladder.len() || !eligible(
                side,
                ladder[m].price,
                limit,
            ))
        }),
{
    lemma_cross_in_priority(side, limit, quantity, ladder);
}

/// A ladder that keeps the orders of a valid ladder, with positive
/// quantities, is valid.
proof fn lemma_suffix_valid(side: OrderSide, market: Seq<u8>, ladder: Seq<OrderView>, rest: Seq<OrderView>, m: int)
    requires
        ladder_valid(side, market, ladder),
        0 <= m,
        m + rest.len() == ladder.len(),
        forall|i: int|
            0 <= i < rest.len() ==> {
                &&& #[trigger] rest[i] == with_quantity(ladder[i + m], rest[i].quantity)
                &&& rest[i].quantity > 0
            },
    ensures
        ladder_valid(side, market, rest),
{
    assert forall|i: int, j: int| 0 <= i < j < rest.len() implies !crate::ladder::ahead(
        side,
        #[trigger] rest[j],
        #[trigger] rest[i],
    ) by {
        assert(!crate::ladder::ahead(side, ladder[j + m], ladder[i + m]));
    }
    assert forall|i: int| 0 <= i < rest.len() implies {
        &&& (#[trigger] rest[i]).quantity > 0
        &&& rest[i].side == side
        &&& rest[i].market == market
    } by {
        assert(ladder[i + m].side == side);
    }
}

/// A valid ladder with a positive order of its side and market inserted at
/// its place is valid.
proof fn lemma_insert_valid(side: OrderSide, market: Seq<u8>, s: Seq<OrderView>, o: OrderView)
    requires
        ladder_valid(side, market, s),
        o.quantity > 0,
        o.side == side,
        o.market == market,
    ensures
        ladder_valid(side, market, s.insert(insert_pos(side, s, o) as int, o)),
{
    lemma_insert_keeps_order(side, s, o);
    crate::ladder::lemma_insert_pos(side, s, o);
    let k = insert_pos(side, s, o) as int;
    let t = s.insert(k, o);
    assert forall|i: int| 0 <= i < t.len() implies {
        &&& (#[trigger] t[i]).quantity > 0
        &&& t[i].side == side
        &&& t[i].market == market
    } by {
        if i < k {
            assert(t[i] == s[i]);
        } else if i > k {
            assert(t[i] == s[i - 1]);
        }
    }
}

/// The front of what a crossing leaves of a valid ladder is no better than
/// the ladder's old front; when quantity is left over it is also not
/// eligible against the incoming limit.
proof fn lemma_rest_front(side: OrderSide, market: Seq<u8>, limit: nat, quantity: nat, ladder: Seq<OrderView>)
    requires
        ladder_valid(side, market, ladder),
    ensures
        ({
            let c = cross(side, limit, quantity, ladder);
            &&& ladder_valid(side, market, c.rest)
            &&& c.rest.len() > 0 ==> ladder.len() > 0 && (match side {
                OrderSide::Bid => c.rest[0].price <= ladder[0].price,
                OrderSide::Ask => c.rest[0].price >= ladder[0].price,
            })
            &&& c.remaining > 0 && c.rest.len() > 0 ==> !eligible(side, c.rest[0].price, limit)
        }),
{
    let c = cross(side, limit, quantity, ladder);
    lemma_rest_is_suffix(side, limit, quantity, ladder);
    let m = ladder.len() - c.rest.len();
    lemma_suffix_valid(side, market, ladder, c.rest, m);
    if c.rest.len() > 0 {
        assert(c.rest[0] == with_quantity(ladder[m], c.rest[0].quantity));
        if m > 0 {
            assert(!crate::ladder::ahead(side, ladder[m], ladder[0]));
        }
    }
}

/// The front of a valid ladder after a positive order is inserted is that
/// order or the old front, and the ladder stays valid.
proof fn lemma_insert_front(side: OrderSide, market: Seq<u8>, s: Seq<OrderView>, o: OrderView)
    requires
        ladder_valid(side, market, s),
        o.quantity > 0,
        o.side == side,
        o.market == market,
    ensures
        ({
            let t = s.insert(insert_pos(side, s, o) as int, o);
            &&& ladder_valid(side, market, t)
            &&& t[0] == o || (s.len() > 0 && t[0] == s[0])
        }),
{
    lemma_insert_valid(side, market, s, o);
    crate::ladder::lemma_insert_pos(side, s, o);
}

/// Submitting an order of the book's market to a valid book leaves it valid.
pub proof fn lemma_submit_keeps_valid(b: BookView, o: OrderView)
    requires
        valid_book(b),
        o.market == b.market,
    ensures
        valid_book(after_submit(b, o)),
{
    let opp_side = opposite(o.side);
    let c = crossing_of(b, o);
    lemma_rest_front(opp_side, b.market, o.price, o.quantity, side_of(b, opp_side));
    let rested = with_quantity(o, c.remaining);
    if c.remaining > 0 {
        lemma_insert_front(o.side, b.market, side_of(b, o.side), rested);
    }
}

/// The total quantity resting on a ladder.
pub open spec fn ladder_total(s: Seq<OrderView>) -> nat
    decreases s.len(),
{
    if s.len() == 0 {
        0
    } else {
        s[0].quantity + ladder_total(s.drop_first())
    }
}

/// A crossing takes from the ladder exactly the quantity that it trades.
proof fn lemma_cross_conserves_quantity(side: OrderSide, limit: nat, quantity: nat, ladder: Seq<OrderView>)
    ensures
        ladder_total(ladder) == ladder_total(cross(side, limit, quantity, ladder).rest) + fills_total(
            cross(side, limit, quantity, ladder).fills,
        ),
    decreases ladder.len(),
{
    let c = cross(side, limit, quantity, ladder);
    if quantity == 0 || ladder.len() == 0 || !eligible(side, ladder[0].price, limit) {
        assert(fills_total(c.fills) == 0);
    } else if ladder[0].quantity <= quantity {
        let t = ladder.drop_first();
        let d = cross(side, limit, (quantity - ladder[0].quantity) as nat, t);
        lemma_cross_conserves_quantity(side, limit, (quantity - ladder[0].quantity) as nat, t);
        assert(c.fills.drop_first() =~= d.fills);
    } else {
        assert(c.rest.drop_first() =~= ladder.drop_first());
        assert(c.fills.drop_first() =~= Seq::<FillView>::empty());
        assert(fills_total(Seq::<FillView>::empty()) == 0);
    }
}

/// Depth conservation: when an order of its market is submitted to a valid
/// book, the opposite side loses exactly the orders that were consumed
/// whole, and the order's own side gains one order when a remainder rests
/// and is unchanged when the order was fully absorbed.
pub proof fn lemma_depth_conservation(b: BookView, o: OrderView)
    requires
        valid_book(b),
        o.market == b.market,
    ensures
        side_of(after_submit(b, o), opposite(o.side)).len() + consumed(crossing_of(b, o).fills)
            == side_of(b, opposite(o.side)).len(),
        crossing_of(b, o).remaining > 0 ==> side_of(after_submit(b, o), o.side).len() == side_of(
            b,
            o.side,
        ).len() + 1,
        crossing_of(b, o).remaining == 0 ==> side_of(after_submit(b, o), o.side) == side_of(
            b,
            o.side,
        ),
{
    lemma_cross_in_priority(opposite(o.side), o.price, o.quantity, side_of(b, opposite(o.side)));
    crate::ladder::lemma_insert_pos(
        o.side,
        side_of(b, o.side),
        with_quantity(o, crossing_of(b, o).remaining),
    );
}

/// Price-time priority: the opposite side is in priority order, so its first
/// order is the best; a submission trades with its orders from the first one
/// on, each eligible against the incoming limit, all but the last consumed
/// whole; only the last may be partially filled, and then the incoming order
/// is exhausted; the orders behind it are untouched; and while quantity is
/// left over, no eligible order is left untraded.
pub proof fn lemma_price_time_priority(b: BookView, o: OrderView)
    requires
        valid_book(b),
        o.market == b.market,
    ensures
        in_priority_order(opposite(o.side), side_of(b, opposite(o.side))),
        priority_crossing(
            opposite(o.side),
            o.price,
            o.quantity,
            side_of(b, opposite(o.side)),
            crossing_of(b, o),
        ),
        side_of(after_submit(b, o), opposite(o.side)) == crossing_of(b, o).rest,
{
    lemma_cross_in_priority(opposite(o.side), o.price, o.quantity, side_of(b, opposite(o.side)));
}

/// No over-fill: the quantity taken from the opposite side by one
/// submission is the quantity traded, which is at most the incoming order's
/// quantity; what is not traded is the remainder.
pub proof fn lemma_no_over_fill(b: BookView, o: OrderView)
    requires
        valid_book(b),
        o.market == b.market,
    ensures
        ladder_total(side_of(b, opposite(o.side))) == ladder_total(
            side_of(after_submit(b, o), opposite(o.side)),
        ) + fills_total(crossing_of(b, o).fills),
        fills_total(crossing_of(b, o).fills) <= o.quantity,
        fills_total(crossing_of(b, o).fills) + crossing_of(b, o).remaining == o.quantity,
{
    lemma_cross_in_priority(opposite(o.side), o.price, o.quantity, side_of(b, opposite(o.side)));
    lemma_cross_conserves_quantity(opposite(o.side), o.price, o.quantity, side_of(b, opposite(o.side)));
}

/// The result reported for a submission whose match was committed, given
/// whether its settlement notification was delivered. A failed notification
/// is reported but never undoes the match.
pub fn settlement_result(delivered: bool) -> (r: Result<(), BookError>)
    ensures
        delivered ==> r is Ok,
        !delivered ==> r is Err && r->Err_0 == BookError::Web3Error,
{
    if delivered {
        Ok(())
    } else {
        Err(BookError::Web3Error)
    }
}

/// The order book of one market.
pub struct Book {
    market: Address,
    bids: Ladder,
    asks: Ladder,
}

impl View for Book {
    type V = BookView;

    closed spec fn view(&self) -> BookView {
        BookView { market: self.market@, bids: self.bids@, asks: self.asks@ }
    }
}

impl Book {
    /// The ladders hold the sides they are for, and the book is valid.
    pub closed spec fn wf(&self) -> bool {
        &&& self.bids.spec_side() == OrderSide::Bid
        &&& self.asks.spec_side() == OrderSide::Ask
        &&& valid_book(self@)
    }

    /// An empty book for `market`.
    pub fn new(market: Address) -> (r: Book)
        ensures
            r.wf(),
            valid_book(r@),
            r@.market == market@,
            r@.bids.len() == 0,
            r@.asks.len() == 0,
    {
        Book { market, bids: Ladder::new(OrderSide::Bid), asks: Ladder::new(OrderSide::Ask) }
    }

    /// The market the book trades.
    pub fn market(&self) -> (r: &Address)
        ensures
            r@ == self@.market,
    {
        &self.market
    }

    /// The number of resting bids and of resting asks.
    pub fn depth(&self) -> (r: (usize, usize))
        ensures
            r.0 == self@.bids.len(),
            r.1 == self@.asks.len(),
    {
        (self.bids.len(), self.asks.len())
    }

    /// The resting bids, best first.
    pub fn bids(&self) -> (r: &Ladder)
        ensures
            r@ == self@.bids,
            self.wf() ==> r.spec_side() == OrderSide::Bid,
    {
        &self.bids
    }

    /// The resting asks, best first.
    pub fn asks(&self) -> (r: &Ladder)
        ensures
            r@ == self@.asks,
            self.wf() ==> r.spec_side() == OrderSide::Ask,
    {
        &self.asks
    }

    /// Matches `order` against the opposite side in price-time priority and
    /// rests any remainder on its own side. An order of another market is
    /// refused and changes nothing.
    pub fn submit(&mut self, order: Order) -> (r: Result<MatchOutcome, BookError>)
        requires
            old(self).wf(),
        ensures
            final(self).wf(),
            valid_book(final(self)@),
            order@.market != old(self)@.market ==> r is Err && r->Err_0 == BookError::MarketMismatch
                && final(self)@ == old(self)@,
            order@.market == old(self)@.market ==> r is Ok && final(self)@ == after_submit(
                old(self)@,
                order@,
            ) && fill_views(r->Ok_0.fills@) == crossing_of(old(self)@, order@).fills
                && r->Ok_0.remainder@ == crossing_of(old(self)@, order@).remaining,
    {
        if !order.market().same_as(&self.market) {
            return Err(BookError::MarketMismatch);
        }
        proof {
            lemma_submit_keeps_valid(self@, order@);
        }
        let side = order.side();
        let limit = order.price();
        let quantity = order.quantity();
        let (fills, remaining) = match side {
            OrderSide::Bid => cross_ladder(&mut self.asks, limit, quantity),
            OrderSide::Ask => cross_ladder(&mut self.bids, limit, quantity),
        };
        if !remaining.is_zero() {
            let rested = order.with_quantity(remaining);
            match side {
                OrderSide::Bid => self.bids.insert(rested),
                OrderSide::Ask => self.asks.insert(rested),
            }
        }
        assert(self@ == after_submit(old(self)@, order@));
        Ok(MatchOutcome { fills, remainder: remaining })
    }
}

} // verus!
