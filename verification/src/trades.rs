//! Identifiers and value records for completed matches.

use vstd::prelude::*;
use crate::orders::{CounterpartyCode, Price, Ticker};

verus! {

/// Identifier of one trade, scoped to a single order book; strictly
/// increasing within that book's lifetime and never reused.
#[derive(Copy, Clone, Debug, Hash, PartialEq, Eq, Structural)]
pub struct TradeId(pub u32);

impl TradeId {
    /// The identifier state of a freshly created book: no id handed out yet.
    pub fn new() -> (r: TradeId)
        ensures
            r.0 == 0,
    {
        TradeId(0)
    }

    /// The identifier allocated after this one.
    pub fn next(self) -> (r: TradeId)
        requires
            self.0 < u32::MAX,
        ensures
            r.0 == self.0 + 1,
    {
        TradeId(self.0 + 1)
    }
}

/// Record of one completed match: produced only when a bid and an ask at
/// the same price are paired, and immutable once created.
#[derive(Debug, PartialEq)]
pub struct Trade {
    pub buyer: CounterpartyCode,
    pub seller: CounterpartyCode,
    pub ticker: Ticker,
    pub price: Price,
}

impl Clone for Trade {
    fn clone(&self) -> (r: Self)
        ensures
            r == *self,
    {
        Trade {
            buyer: self.buyer.clone(),
            seller: self.seller.clone(),
            ticker: self.ticker.clone(),
            price: self.price,
        }
    }
}

} // verus!
