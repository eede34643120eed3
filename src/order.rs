//! Orders: priced, quantity-bearing trading intents.

use vstd::prelude::*;

use crate::address::Address;
use crate::amount::Amount;

verus! {

/// The side of the market an order is on.
#[derive(Clone, Copy, Debug, PartialEq, Eq, Structural)]
pub enum OrderSide {
    /// Willing to buy at the stated price or lower.
    Bid,
    /// Willing to sell at the stated price or higher.
    Ask,
}

/// The side that an order on `side` trades against.
pub open spec fn opposite(side: OrderSide) -> OrderSide {
    match side {
        OrderSide::Bid => OrderSide::Ask,
        OrderSide::Ask => OrderSide::Bid,
    }
}

/// What an order says, with its amounts as mathematical integers.
pub struct OrderView {
    pub trader: Seq<u8>,
    pub market: Seq<u8>,
    pub side: OrderSide,
    pub price: nat,
    pub quantity: nat,
    pub timestamp: int,
    pub data: Seq<u8>,
}

/// The same order with another quantity.
pub open spec fn with_quantity(o: OrderView, quantity: nat) -> OrderView {
    OrderView { quantity, ..o }
}

/// A trading intent submitted by `trader` to `market`.
///
/// The timestamp is the submission time in microseconds since the Unix
/// epoch; it serves only as the time component of time priority. The
/// auxiliary data is carried along and never interpreted.
#[derive(Clone, Debug)]
pub struct Order {
    trader: Address,
    market: Address,
    side: OrderSide,
    price: Amount,
    quantity: Amount,
    timestamp: i64,
    data: Vec<u8>,
}

impl View for Order {
    type V = OrderView;

    closed spec fn view(&self) -> OrderView {
        OrderView {
            trader: self.trader@,
            market: self.market@,
            side: self.side,
            price: self.price@,
            quantity: self.quantity@,
            timestamp: self.timestamp as int,
            data: self.data@,
        }
    }
}

impl Order {
    /// An order with the given parts.
    pub fn new(
        trader: Address,
        market: Address,
        side: OrderSide,
        price: Amount,
        quantity: Amount,
        timestamp: i64,
        data: Vec<u8>,
    ) -> (r: Order)
        ensures
            r@ == (OrderView {
                trader: trader@,
                market: market@,
                side,
                price: price@,
                quantity: quantity@,
                timestamp: timestamp as int,
                data: data@,
            }),
    {
        Order { trader, market, side, price, quantity, timestamp, data }
    }

    /// The same order with its quantity replaced.
    pub fn with_quantity(self, quantity: Amount) -> (r: Order)
        ensures
            r@ == with_quantity(self@, quantity@),
    {
        Order { quantity, ..self }
    }

    /// Replaces the quantity, keeping everything else.
    pub(crate) fn set_quantity(&mut self, quantity: Amount)
        ensures
            final(self)@ == with_quantity(old(self)@, quantity@),
    {
        self.quantity = quantity;
    }

    /// The submitter.
    pub fn trader(&self) -> (r: Address)
        ensures
            r@ == self@.trader,
    {
        self.trader
    }

    /// The market the order targets.
    pub fn market(&self) -> (r: &Address)
        ensures
            r@ == self@.market,
    {
        &self.market
    }

    /// The side of the order.
    pub fn side(&self) -> (r: OrderSide)
        ensures
            r == self@.side,
    {
        self.side
    }

    /// The limit price.
    pub fn price(&self) -> (r: Amount)
        ensures
            r@ == self@.price,
    {
        self.price
    }

    /// The quantity.
    pub fn quantity(&self) -> (r: Amount)
        ensures
            r@ == self@.quantity,
    {
        self.quantity
    }

    /// The submission time, in microseconds since the Unix epoch.
    pub fn timestamp(&self) -> (r: i64)
        ensures
            r as int == self@.timestamp,
    {
        self.timestamp
    }

    /// The auxiliary data.
    pub fn data(&self) -> (r: &Vec<u8>)
        ensures
            r@ == self@.data,
    {
        &self.data
    }
}

} // verus!
