//! A continuous double-auction matching core: per-instrument order books with
//! two price-ordered sides, a router that owns the books of one exchange, and
//! the algorithm that pairs resting bids and asks into trades.
//!
//! Design decisions that the data model leaves open are fixed as follows and
//! hold throughout the crate:
//! - Matching requires exact price equality between a bid and an ask; the
//!   standard crossing rule (bid >= ask) is not used.
//! - Each side of a book keeps its `(price, id)` pairs in strictly ascending
//!   lexicographic order, ties on price broken by order id, so traversal is
//!   deterministic. A matching pass walks the bids from the bottom up and
//!   scans the asks from the top down, so among equally priced asks the one
//!   with the highest id is taken first.
//! - Orders carry no quantity: every order is of unit size and is fully
//!   consumed by a single trade.
//! - The trade ledger is kept per exchange (not per book), appended to on
//!   every matching pass.

pub mod actors;
pub mod engine;
pub mod exchanges;
pub mod order_collections;
pub mod orders;
pub mod seq_lemmas;
pub mod trades;
