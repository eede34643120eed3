//! A continuous double-auction limit order book for a single market.
//!
//! Resting orders are kept per side in price-time priority; an incoming
//! order is crossed against the opposite side, best price first, and any
//! unmatched remainder rests on its own side.

pub mod amount;
pub mod address;
pub mod order;
pub mod ladder;
pub mod book;

pub use address::Address;
pub use amount::Amount;
pub use book::{settlement_result, Book, BookError, Fill, MatchOutcome};
pub use ladder::Ladder;
pub use order::{Order, OrderSide};
