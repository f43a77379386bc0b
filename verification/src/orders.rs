//! Value records for submitted interest and the per-instrument order book.

use vstd::prelude::*;
use std::collections::{HashMap, HashSet};
use crate::exchanges::ExchangeOrder;
use crate::order_collections::{OrderCollection, PriceIdPair};
use crate::trades::{Trade, TradeId};

verus! {

broadcast use vstd::std_specs::hash::group_hash_axioms;

/// Identifier of one order. Order ids are scoped to a single order book:
/// within one book's lifetime they are unique, strictly increasing, and
/// never reused.
#[derive(Copy, Clone, Debug, Hash, PartialEq, Eq, Structural)]
pub struct OrderId(pub u32);

impl OrderId {
    /// The identifier state of a freshly created book: no id handed out yet.
    pub fn new() -> (r: OrderId)
        ensures
            r.0 == 0,
    {
        OrderId(0)
    }

    /// The identifier allocated after this one.
    pub fn next(self) -> (r: OrderId)
        requires
            self.0 < u32::MAX,
        ensures
            r.0 == self.0 + 1,
    {
        OrderId(self.0 + 1)
    }
}

/// The only globally unambiguous address of an order: order ids are scoped
/// per book, so the instrument is needed to locate the book.
#[derive(Debug)]
pub struct CompositeOrderId {
    pub ticker: Ticker,
    pub order_id: OrderId,
}

/// Identifier of the party that owns an order.
#[derive(Debug, Hash, PartialEq, Eq)]
pub struct CounterpartyCode(pub String);

impl View for CounterpartyCode {
    type V = Seq<char>;

    open spec fn view(&self) -> Seq<char> {
        self.0@
    }
}

impl Clone for CounterpartyCode {
    fn clone(&self) -> (r: Self)
        ensures
            r == *self,
    {
        CounterpartyCode(self.0.clone())
    }
}

/// Instrument identifier; keys exactly one order book within an exchange.
#[derive(Debug, Hash)]
pub struct Ticker(pub String);

impl View for Ticker {
    type V = Seq<char>;

    open spec fn view(&self) -> Seq<char> {
        self.0@
    }
}

impl Clone for Ticker {
    fn clone(&self) -> (r: Self)
        ensures
            r == *self,
    {
        Ticker(self.0.clone())
    }
}

impl PartialEq for Ticker {
    fn eq(&self, other: &Self) -> (r: bool) {
        self.0 == other.0
    }
}

impl vstd::std_specs::cmp::PartialEqSpecImpl for Ticker {
    open spec fn obeys_eq_spec() -> bool {
        true
    }

    open spec fn eq_spec(&self, other: &Self) -> bool {
        self.0@ == other.0@
    }
}

/// A totally ordered price. The value is an unsigned count of price ticks,
/// so ordering and equality are exact and deterministic; how one tick maps
/// to a display currency is the caller's concern.
#[derive(Copy, Clone, Debug, Hash, PartialEq, Eq, Structural)]
pub struct Price(pub u64);

/// Which side of the book an order rests on.
#[derive(Copy, Clone, Debug, PartialEq, Eq, Structural)]
pub enum OrderDirection {
    Bid,
    Ask,
}

/// Immutable description of submitted interest. Orders carry no quantity:
/// every order is of unit size.
#[derive(Debug)]
pub struct Order {
    pub price: Price,
    pub ticker: Ticker,
    pub counterparty_code: CounterpartyCode,
    pub direction: OrderDirection,
}

impl Clone for Order {
    fn clone(&self) -> (r: Self)
        ensures
            r == *self,
    {
        Order {
            price: self.price,
            ticker: self.ticker.clone(),
            counterparty_code: self.counterparty_code.clone(),
            direction: self.direction,
        }
    }
}

/// The matching unit for one instrument: the full registry of resting
/// orders, one price-ordered index per side, and the book's two identifier
/// counters.
pub struct OrderBook {
    ticker: Ticker,
    all_orders: HashMap<u32, ExchangeOrder>,
    bid_prices: OrderCollection,
    ask_prices: OrderCollection,
    latest_order_id: OrderId,
    latest_trade_id: TradeId,
}

impl OrderBook {
    /// The instrument this book matches.
    pub closed spec fn spec_ticker(self) -> Ticker {
        self.ticker
    }

    /// The full registry: order id to registered order.
    pub closed spec fn registry(self) -> Map<u32, ExchangeOrder> {
        self.all_orders@
    }

    /// The bid-side index.
    pub closed spec fn bid_side(self) -> OrderCollection {
        self.bid_prices
    }

    /// The ask-side index.
    pub closed spec fn ask_side(self) -> OrderCollection {
        self.ask_prices
    }

    /// The ascending `(price, id)` pairs of the bid side.
    pub open spec fn bids(self) -> Seq<PriceIdPair> {
        self.bid_side().pairs()
    }

    /// The ascending `(price, id)` pairs of the ask side.
    pub open spec fn asks(self) -> Seq<PriceIdPair> {
        self.ask_side().pairs()
    }

    /// The last order id handed out; the next order gets one more.
    pub closed spec fn order_counter(self) -> u32 {
        self.latest_order_id.0
    }

    /// The last trade id handed out; the next trade gets one more.
    pub closed spec fn trade_counter(self) -> u32 {
        self.latest_trade_id.0
    }

    /// Book consistency: both sides are well formed and carry the right
    /// direction; every registered order is indexed on exactly its own
    /// side at its own price; every indexed id is registered with the
    /// matching direction; and no id above the counter has been handed out.
    pub open spec fn wf(self) -> bool {
        &&& self.bid_side().wf()
        &&& self.ask_side().wf()
        &&& self.bid_side().direction() == OrderDirection::Bid
        &&& self.ask_side().direction() == OrderDirection::Ask
        &&& forall|id: u32| #[trigger] self.registry().contains_key(id) ==> {
            let eo = self.registry()[id];
            &&& eo.order_id.0 == id
            &&& eo.order.ticker@ == self.spec_ticker()@
            &&& id <= self.order_counter()
            &&& (eo.order.direction == OrderDirection::Bid ==> {
                &&& self.bid_side().price_map().contains_key(id)
                &&& self.bid_side().price_map()[id] == eo.order.price
                &&& !self.ask_side().price_map().contains_key(id)
            })
            &&& (eo.order.direction == OrderDirection::Ask ==> {
                &&& self.ask_side().price_map().contains_key(id)
                &&& self.ask_side().price_map()[id] == eo.order.price
                &&& !self.bid_side().price_map().contains_key(id)
            })
        }
        &&& forall|id: u32| #[trigger] self.bid_side().price_map().contains_key(id)
            ==> self.registry().contains_key(id) && self.registry()[id].order.direction
            == OrderDirection::Bid
        &&& forall|id: u32| #[trigger] self.ask_side().price_map().contains_key(id)
            ==> self.registry().contains_key(id) && self.registry()[id].order.direction
            == OrderDirection::Ask
    }

    /// An empty book for the given instrument.
    pub fn new(ticker: Ticker) -> (r: OrderBook)
        ensures
            r.wf(),
            r.spec_ticker() == ticker,
            r.registry() == Map::<u32, ExchangeOrder>::empty(),
            r.bids() == Seq::<PriceIdPair>::empty(),
            r.asks() == Seq::<PriceIdPair>::empty(),
            r.bid_side().price_map() == Map::<u32, Price>::empty(),
            r.ask_side().price_map() == Map::<u32, Price>::empty(),
            r.order_counter() == 0,
            r.trade_counter() == 0,
    {
        OrderBook {
            ticker,
            all_orders: HashMap::new(),
            bid_prices: OrderCollection::new(OrderDirection::Bid),
            ask_prices: OrderCollection::new(OrderDirection::Ask),
            latest_order_id: OrderId::new(),
            latest_trade_id: TradeId::new(),
        }
    }

    /// Allocate the next order id of this book.
    fn new_order_id(&mut self) -> (r: OrderId)
        requires
            old(self).order_counter() < u32::MAX,
        ensures
            r.0 == old(self).order_counter() + 1,
            final(self).order_counter() == old(self).order_counter() + 1,
            final(self).spec_ticker() == old(self).spec_ticker(),
            final(self).registry() == old(self).registry(),
            final(self).bid_side() == old(self).bid_side(),
            final(self).ask_side() == old(self).ask_side(),
            final(self).trade_counter() == old(self).trade_counter(),
    {
        let new_order_id = self.latest_order_id.next();
        self.latest_order_id = new_order_id;
        new_order_id
    }

    /// Allocate the next trade id of this book.
    fn new_trade_id(&mut self) -> (r: TradeId)
        requires
            old(self).trade_counter() < u32::MAX,
        ensures
            r.0 == old(self).trade_counter() + 1,
            final(self).trade_counter() == old(self).trade_counter() + 1,
            final(self).spec_ticker() == old(self).spec_ticker(),
            final(self).registry() == old(self).registry(),
            final(self).bid_side() == old(self).bid_side(),
            final(self).ask_side() == old(self).ask_side(),
            final(self).order_counter() == old(self).order_counter(),
    {
        let new_trade_id = self.latest_trade_id.next();
        self.latest_trade_id = new_trade_id;
        new_trade_id
    }

    /// Store a new order: allocate the next id, register the order under
    /// it, and index `(price, id)` on the side its direction names. The
    /// registry and exactly one index change; the other side is untouched.
    pub fn add_order(&mut self, order: Order) -> (r: CompositeOrderId)
        requires
            old(self).wf(),
            order.ticker@ == old(self).spec_ticker()@,
            old(self).order_counter() < u32::MAX,
        ensures
            final(self).wf(),
            add_effect(*old(self), *final(self), order, r.order_id),
            r.order_id.0 == old(self).order_counter() + 1,
            r.ticker == old(self).spec_ticker(),
    {
        let direction = order.direction;
        let new_order_id = self.new_order_id();
        let exchange_order = ExchangeOrder { order_id: new_order_id, order };

        proof {
            // The fresh id is above the counter bound of everything stored,
            // so it collides with nothing in the registry or either side.
            assert(!old(self).registry().contains_key(new_order_id.0));
            assert(!old(self).bid_side().price_map().contains_key(new_order_id.0));
            assert(!old(self).ask_side().price_map().contains_key(new_order_id.0));
        }

        // Register the order in the map of all orders.
        self.all_orders.insert(new_order_id.0, exchange_order.clone());

        // Index the price on the side the direction names.
        match direction {
            OrderDirection::Bid => self.bid_prices.insert(exchange_order),
            OrderDirection::Ask => self.ask_prices.insert(exchange_order),
        }
        proof {
            let p = PriceIdPair { price: order.price, id: new_order_id };
            match direction {
                OrderDirection::Bid => {
                    let k = choose|k: int|
                        0 <= k <= old(self).bids().len() && self.bids() == old(
                            self,
                        ).bids().insert(k, p);
                    assert(self.bids() == old(self).bids().insert(k, p));
                },
                OrderDirection::Ask => {
                    let k = choose|k: int|
                        0 <= k <= old(self).asks().len() && self.asks() == old(
                            self,
                        ).asks().insert(k, p);
                    assert(self.asks() == old(self).asks().insert(k, p));
                },
            }
        }
        CompositeOrderId { ticker: self.ticker.clone(), order_id: new_order_id }
    }

    /// One matching pass. Bids are walked in ascending `(price, id)` order;
    /// each unconsumed bid is paired with the highest unconsumed ask of
    /// exactly equal price, scanning the ask side from the top down. Every
    /// recorded pairing is then settled: both orders leave the registry and
    /// their side indexes, and a trade is emitted under the next trade id.
    #[verifier::loop_isolation(false)]
    pub fn match_orders(&mut self) -> (trades: Vec<(TradeId, Trade)>)
        requires
            old(self).wf(),
            old(self).trade_counter() + old(self).bids().len() <= u32::MAX,
        ensures
            final(self).wf(),
            match_effect(*old(self), *final(self), trades@),
    {
        let ghost bids0 = self.bids();
        let ghost asks0 = self.asks();
        let ghost p_all = match_pairs(bids0, asks0, Set::<u32>::empty());
        proof {
            lemma_book_sides(*self);
            lemma_match_pairs_sound(bids0, asks0, Set::<u32>::empty());
        }

        let mut id_hash_set: HashSet<u32> = HashSet::new();
        let mut bid_ask_pairs: Vec<(PriceIdPair, PriceIdPair)> = Vec::new();
        proof {
            assert(bids0.skip(0) =~= bids0);
            assert(matched_ids(bid_ask_pairs@) =~= Set::<u32>::empty());
            assert(bid_ask_pairs@ + match_pairs(bids0.skip(0), asks0, id_hash_set@)
                =~= match_pairs(bids0, asks0, Set::<u32>::empty()));
        }
        let n_bids = self.bid_prices.len();
        let mut i: usize = 0;
        while i < n_bids
            invariant
                i <= n_bids,
                bid_ask_pairs@ + match_pairs(bids0.skip(i as int), asks0, id_hash_set@)
                    == p_all,
                id_hash_set@ == matched_ids(bid_ask_pairs@),
            decreases n_bids - i,
        {
            let bid_price = self.bid_prices.get(i);
            let ghost c0 = id_hash_set@;
            let ghost m0 = bid_ask_pairs@;
            proof {
                lemma_skip_drop_first(bids0, i as int);
            }
            if !id_hash_set.contains(&bid_price.id.0) {
                // Scan the ask side from the top down, so the highest
                // equal-priced pair is found first.
                let ghost target = ask_match_index(asks0, bid_price.price, c0);
                proof {
                    lemma_ask_match_index(asks0, bid_price.price, c0);
                }
                let n_asks = self.ask_prices.len();
                proof {
                    assert(asks0.take(n_asks as int) =~= asks0);
                }
                let mut j: usize = n_asks;
                let mut found: bool = false;
                while !found && j > 0
                    invariant
                        j <= n_asks,
                        !found ==> id_hash_set@ == c0 && bid_ask_pairs@ == m0 && target
                            == ask_match_index(asks0.take(j as int), bid_price.price, c0),
                        found ==> 0 <= target < asks0.len() && id_hash_set@ == c0.insert(
                            bid_price.id.0,
                        ).insert(asks0[target].id.0) && bid_ask_pairs@ == m0.push(
                            (bid_price, asks0[target]),
                        ),
                    decreases j + (if found {
                        0int
                    } else {
                        1int
                    }),
                {
                    j -= 1;
                    let ask_price = self.ask_prices.get(j);
                    proof {
                        assert(asks0.take(j as int + 1).drop_last() =~= asks0.take(j as int));
                        assert(asks0.take(j as int + 1).last() == asks0[j as int]);
                    }
                    if !id_hash_set.contains(&ask_price.id.0) && bid_price.price.0
                        == ask_price.price.0 {
                        proof {
                            assert(ask_price.price == bid_price.price);
                            assert(ask_match_index(asks0.take(j as int + 1), bid_price.price, c0)
                                == j as int);
                        }
                        id_hash_set.insert(bid_price.id.0);
                        id_hash_set.insert(ask_price.id.0);
                        bid_ask_pairs.push((bid_price, ask_price));
                        found = true;
                    } else {
                        proof {
                            assert(ask_match_index(asks0.take(j as int + 1), bid_price.price, c0)
                                == ask_match_index(asks0.take(j as int), bid_price.price, c0));
                        }
                    }
                }
                proof {
                    let s = bids0.skip(i as int);
                    if found {
                        let pr = (bid_price, asks0[target]);
                        assert(match_pairs(s, asks0, c0) == seq![pr] + match_pairs(
                            bids0.skip(i as int + 1),
                            asks0,
                            c0.insert(bid_price.id.0).insert(asks0[target].id.0),
                        ));
                        assert(m0 + (seq![pr] + match_pairs(
                            bids0.skip(i as int + 1),
                            asks0,
                            id_hash_set@,
                        )) =~= m0.push(pr) + match_pairs(
                            bids0.skip(i as int + 1),
                            asks0,
                            id_hash_set@,
                        ));
                        lemma_matched_ids_push(m0, pr);
                    } else {
                        assert(asks0.take(0) =~= Seq::<PriceIdPair>::empty());
                        assert(target == -1);
                        assert(match_pairs(s, asks0, c0) == match_pairs(
                            bids0.skip(i as int + 1),
                            asks0,
                            c0,
                        ));
                    }
                }
            } else {
                proof {
                    let s = bids0.skip(i as int);
                    assert(match_pairs(s, asks0, c0) == match_pairs(
                        bids0.skip(i as int + 1),
                        asks0,
                        c0,
                    ));
                }
            }
            i += 1;
        }
        proof {
            assert(bids0.skip(n_bids as int).len() == 0);
            assert(match_pairs(bids0.skip(n_bids as int), asks0, id_hash_set@)
                =~= Seq::<(PriceIdPair, PriceIdPair)>::empty());
            assert(bid_ask_pairs@ + Seq::<(PriceIdPair, PriceIdPair)>::empty()
                =~= bid_ask_pairs@);
            assert(bid_ask_pairs@ == p_all);
        }

        let ghost matched = matched_ids(p_all);
        let ghost reg0 = self.registry();
        let ghost bm0 = self.bid_side().price_map();
        let ghost am0 = self.ask_side().price_map();
        let ghost tc0 = self.trade_counter();

        proof {
            assert(p_all.take(0) =~= Seq::<(PriceIdPair, PriceIdPair)>::empty());
            assert(forall|x: u32| !matched_ids(p_all.take(0)).contains(x));
            crate::seq_lemmas::lemma_filter_all_true(
                bids0,
                |p: PriceIdPair| !matched_ids(p_all.take(0)).contains(p.id.0),
            );
            crate::seq_lemmas::lemma_filter_all_true(
                asks0,
                |p: PriceIdPair| !matched_ids(p_all.take(0)).contains(p.id.0),
            );
            assert(reg0.remove_keys(matched_ids(p_all.take(0))) =~= reg0);
            assert(bm0.remove_keys(matched_ids(p_all.take(0))) =~= bm0);
            assert(am0.remove_keys(matched_ids(p_all.take(0))) =~= am0);
        }

        let mut trades: Vec<(TradeId, Trade)> = Vec::new();
        let n_pairs = bid_ask_pairs.len();
        let mut t: usize = 0;
        while t < n_pairs
            invariant
                t <= n_pairs,
                trades@.len() == t,
                forall|k: int|
                    0 <= k < t ==> #[trigger] trades@[k] == expected_trade(
                        *old(self),
                        p_all,
                        k,
                    ),
                self.trade_counter() == tc0 + t,
                self.order_counter() == old(self).order_counter(),
                self.spec_ticker() == old(self).spec_ticker(),
                self.bid_side().wf(),
                self.ask_side().wf(),
                self.bid_side().direction() == OrderDirection::Bid,
                self.ask_side().direction() == OrderDirection::Ask,
                self.registry() == reg0.remove_keys(matched_ids(p_all.take(t as int))),
                self.bid_side().price_map() == bm0.remove_keys(
                    matched_ids(p_all.take(t as int)),
                ),
                self.ask_side().price_map() == am0.remove_keys(
                    matched_ids(p_all.take(t as int)),
                ),
                self.bids() == bids0.filter(
                    |p: PriceIdPair| !matched_ids(p_all.take(t as int)).contains(p.id.0),
                ),
                self.asks() == asks0.filter(
                    |p: PriceIdPair| !matched_ids(p_all.take(t as int)).contains(p.id.0),
                ),
            decreases n_pairs - t,
        {
            let pair_t = bid_ask_pairs[t];
            let bp = pair_t.0;
            let ap = pair_t.1;
            let ghost s_prev = matched_ids(p_all.take(t as int));
            let ghost s_next = matched_ids(p_all.take(t as int + 1));
            proof {
                assert(bid_ask_pairs@[t as int] == p_all[t as int]);
                lemma_matched_ids_take_step(p_all, t as int);
                // Ids of this pairing were not consumed by an earlier one.
                assert(!s_prev.contains(bp.id.0)) by {
                    if s_prev.contains(bp.id.0) {
                        let k = choose|k: int|
                            0 <= k < p_all.take(t as int).len() && ((#[trigger] p_all.take(
                                t as int,
                            )[k]).0.id.0 == bp.id.0 || p_all.take(t as int)[k].1.id.0
                                == bp.id.0);
                        assert(p_all.take(t as int)[k] == p_all[k]);
                        assert(pair_ids_disjoint(p_all[k], p_all[t as int]));
                        assert(false);
                    }
                }
                assert(!s_prev.contains(ap.id.0)) by {
                    if s_prev.contains(ap.id.0) {
                        let k = choose|k: int|
                            0 <= k < p_all.take(t as int).len() && ((#[trigger] p_all.take(
                                t as int,
                            )[k]).0.id.0 == ap.id.0 || p_all.take(t as int)[k].1.id.0
                                == ap.id.0);
                        assert(p_all.take(t as int)[k] == p_all[k]);
                        assert(pair_ids_disjoint(p_all[k], p_all[t as int]));
                        assert(false);
                    }
                }
                // Both sides of the pairing are registered resting orders.
                assert(bids0.contains(bp));
                assert(asks0.contains(ap));
                let ib = choose|ib: int| 0 <= ib < bids0.len() && bids0[ib] == bp;
                let ia = choose|ia: int| 0 <= ia < asks0.len() && asks0[ia] == ap;
                assert(reg0.contains_key(bp.id.0) && reg0[bp.id.0].order.price == bp.price
                    && reg0[bp.id.0].order.direction == OrderDirection::Bid);
                assert(reg0.contains_key(ap.id.0) && reg0[ap.id.0].order.price == ap.price
                    && reg0[ap.id.0].order.direction == OrderDirection::Ask);
                assert(bm0.contains_key(bp.id.0) && bm0[bp.id.0] == bp.price);
                assert(am0.contains_key(ap.id.0) && am0[ap.id.0] == ap.price);
                assert(forall|x: int|
                    0 <= x < bids0.len() ==> (#[trigger] bids0[x]).id.0 != ap.id.0);
                assert(forall|x: int|
                    0 <= x < asks0.len() ==> (#[trigger] asks0[x]).id.0 != bp.id.0);
            }

            let bid_order = self.all_orders.remove(&bp.id.0).unwrap();
            let ask_order = self.all_orders.remove(&ap.id.0).unwrap();
            assert(bid_order.order.price == ask_order.order.price);

            let bid_pair = self.bid_prices.remove(bp.id).unwrap();
            let ask_pair = self.ask_prices.remove(ap.id).unwrap();
            assert(bid_pair.price == ask_pair.price);

            let trade_id = self.new_trade_id();
            trades.push(
                (
                    trade_id,
                    Trade {
                        buyer: bid_order.order.counterparty_code,
                        seller: ask_order.order.counterparty_code,
                        ticker: self.ticker.clone(),
                        price: bid_pair.price,
                    },
                ),
            );
            proof {
                lemma_remove_keys_two(reg0, s_prev, bp.id.0, ap.id.0);
                lemma_remove_keys_one_absent(bm0, s_prev, bp.id.0, ap.id.0);
                lemma_remove_keys_one_absent(am0, s_prev, ap.id.0, bp.id.0);
                assert(bm0.remove_keys(s_prev).remove(bp.id.0) == bm0.remove_keys(
                    s_prev.insert(bp.id.0).insert(ap.id.0),
                ));
                assert(s_next == s_prev.insert(bp.id.0).insert(ap.id.0));
                assert(am0.remove_keys(s_prev).remove(ap.id.0) =~= am0.remove_keys(s_next));
                lemma_remove_matched_step(bids0, bids0.filter(
                    |p: PriceIdPair| !s_prev.contains(p.id.0),
                ), s_prev, s_next, bp.id.0, ap.id.0);
                assert(s_prev.insert(ap.id.0).insert(bp.id.0) =~= s_next);
                lemma_remove_matched_step(asks0, asks0.filter(
                    |p: PriceIdPair| !s_prev.contains(p.id.0),
                ), s_prev, s_next, ap.id.0, bp.id.0);
                assert(trades@[t as int] == expected_trade(*old(self), p_all, t as int));
            }
            t += 1;
        }

        proof {
            assert(p_all.take(n_pairs as int) =~= p_all);
            assert(trades@ =~= pass_trades(*old(self)));
            // Well-formedness of the post-state: the registry and both
            // side indexes all lost exactly the matched ids.
            assert forall|id: u32| #[trigger] self.registry().contains_key(id) implies {
                let eo = self.registry()[id];
                &&& eo.order_id.0 == id
                &&& eo.order.ticker@ == self.spec_ticker()@
                &&& id <= self.order_counter()
                &&& (eo.order.direction == OrderDirection::Bid ==> {
                    &&& self.bid_side().price_map().contains_key(id)
                    &&& self.bid_side().price_map()[id] == eo.order.price
                    &&& !self.ask_side().price_map().contains_key(id)
                })
                &&& (eo.order.direction == OrderDirection::Ask ==> {
                    &&& self.ask_side().price_map().contains_key(id)
                    &&& self.ask_side().price_map()[id] == eo.order.price
                    &&& !self.bid_side().price_map().contains_key(id)
                })
            } by {
                assert(reg0.contains_key(id) && !matched.contains(id));
                assert(self.registry()[id] == reg0[id]);
            }
        }
        trades
    }

    /// Remove one resting order by id: the cancellation path. It uses the
    /// same atomic registry-and-index removal as matching, so the dual
    /// structures are never exposed out of step. An absent id is a normal
    /// outcome, answered with `None`.
    pub fn remove_order(&mut self, order_id: OrderId) -> (r: Option<ExchangeOrder>)
        requires
            old(self).wf(),
        ensures
            final(self).wf(),
            remove_effect(*old(self), *final(self), order_id, r),
    {
        let eo = match self.all_orders.remove(&order_id.0) {
            Some(eo) => eo,
            None => {
                proof {
                    assert(self.registry() =~= old(self).registry());
                }
                return None;
            },
        };
        match eo.order.direction {
            OrderDirection::Bid => {
                let removed = self.bid_prices.remove(order_id);
                proof {
                    assert(removed.is_some());
                }
            },
            OrderDirection::Ask => {
                let removed = self.ask_prices.remove(order_id);
                proof {
                    assert(removed.is_some());
                }
            },
        }
        Some(eo)
    }

    /// How many orders the registry holds.
    pub fn order_count(&self) -> (r: usize)
        ensures
            r == self.registry().len(),
    {
        self.all_orders.len()
    }

    /// The registered order with this id, if it is resting in the book.
    pub fn get_order(&self, order_id: OrderId) -> (r: Option<&ExchangeOrder>)
        ensures
            match r {
                Some(eo) => self.registry().contains_key(order_id.0) && *eo
                    == self.registry()[order_id.0],
                None => !self.registry().contains_key(order_id.0),
            },
    {
        self.all_orders.get(&order_id.0)
    }

    /// How many orders rest on the bid side.
    pub fn bid_count(&self) -> (r: usize)
        ensures
            r == self.bids().len(),
    {
        self.bid_prices.len()
    }

    /// How many orders rest on the ask side.
    pub fn ask_count(&self) -> (r: usize)
        ensures
            r == self.asks().len(),
    {
        self.ask_prices.len()
    }

    /// The instrument this book matches.
    pub fn ticker(&self) -> (r: &Ticker)
        ensures
            *r == self.spec_ticker(),
    {
        &self.ticker
    }

    /// Whether the book can still allocate an order id.
    pub fn can_accept_order(&self) -> (r: bool)
        ensures
            r == (self.order_counter() < u32::MAX),
    {
        self.latest_order_id.0 < u32::MAX
    }

    /// Whether a matching pass is sure to find a fresh trade id for every
    /// pairing it could produce.
    pub fn can_match(&self) -> (r: bool)
        ensures
            r == (self.trade_counter() + self.bids().len() <= u32::MAX),
    {
        let n = self.bid_prices.len();
        (self.latest_trade_id.0 as u128) + (n as u128) <= (u32::MAX as u128)
    }
}

/// The effect of storing one order on a book: the next id is allocated,
/// the order is registered under it, and `(price, id)` is indexed on the
/// side its direction names; the other side and the trade counter are
/// untouched.
pub open spec fn add_effect(pre: OrderBook, post: OrderBook, order: Order, id: OrderId) -> bool {
    &&& id.0 == pre.order_counter() + 1
    &&& post.order_counter() == pre.order_counter() + 1
    &&& post.trade_counter() == pre.trade_counter()
    &&& post.spec_ticker() == pre.spec_ticker()
    &&& post.registry() == pre.registry().insert(id.0, ExchangeOrder { order_id: id, order })
    &&& (order.direction == OrderDirection::Bid ==> {
        &&& post.ask_side() == pre.ask_side()
        &&& post.bid_side().price_map() == pre.bid_side().price_map().insert(id.0, order.price)
        &&& exists|k: int|
            0 <= k <= pre.bids().len() && post.bids() == pre.bids().insert(
                k,
                PriceIdPair { price: order.price, id },
            )
    })
    &&& (order.direction == OrderDirection::Ask ==> {
        &&& post.bid_side() == pre.bid_side()
        &&& post.ask_side().price_map() == pre.ask_side().price_map().insert(id.0, order.price)
        &&& exists|k: int|
            0 <= k <= pre.asks().len() && post.asks() == pre.asks().insert(
                k,
                PriceIdPair { price: order.price, id },
            )
    })
}

/// A freshly created book: right instrument, nothing registered, nothing
/// indexed, both counters at zero.
pub open spec fn is_empty_book(b: OrderBook, ticker: Ticker) -> bool {
    &&& b.spec_ticker() == ticker
    &&& b.registry() == Map::<u32, ExchangeOrder>::empty()
    &&& b.bids() == Seq::<PriceIdPair>::empty()
    &&& b.asks() == Seq::<PriceIdPair>::empty()
    &&& b.bid_side().price_map() == Map::<u32, Price>::empty()
    &&& b.ask_side().price_map() == Map::<u32, Price>::empty()
    &&& b.order_counter() == 0
    &&& b.trade_counter() == 0
}

/// The effect of removing one order by id: when the id is registered, the
/// order leaves the registry and its own side's index, with nothing else
/// touched; when it is not, every observable part of the book is as
/// before. `removed` reports which of the two happened.
pub open spec fn remove_effect(
    pre: OrderBook,
    post: OrderBook,
    order_id: OrderId,
    removed: Option<ExchangeOrder>,
) -> bool {
    &&& post.spec_ticker() == pre.spec_ticker()
    &&& post.order_counter() == pre.order_counter()
    &&& post.trade_counter() == pre.trade_counter()
    &&& match removed {
        Some(eo) => {
            &&& pre.registry().contains_key(order_id.0)
            &&& eo == pre.registry()[order_id.0]
            &&& post.registry() == pre.registry().remove(order_id.0)
            &&& (eo.order.direction == OrderDirection::Bid ==> {
                &&& post.ask_side() == pre.ask_side()
                &&& post.bid_side().price_map() == pre.bid_side().price_map().remove(order_id.0)
                &&& post.bids() == pre.bids().filter(|p: PriceIdPair| p.id.0 != order_id.0)
            })
            &&& (eo.order.direction == OrderDirection::Ask ==> {
                &&& post.bid_side() == pre.bid_side()
                &&& post.ask_side().price_map() == pre.ask_side().price_map().remove(order_id.0)
                &&& post.asks() == pre.asks().filter(|p: PriceIdPair| p.id.0 != order_id.0)
            })
        },
        None => {
            &&& !pre.registry().contains_key(order_id.0)
            &&& post.registry() == pre.registry()
            &&& post.bid_side() == pre.bid_side()
            &&& post.ask_side() == pre.ask_side()
        },
    }
}

/// No order id occurs twice in the sequence.
pub open spec fn distinct_ids(s: Seq<PriceIdPair>) -> bool {
    forall|i: int, j: int|
        0 <= i < s.len() && 0 <= j < s.len() && i != j ==> (#[trigger] s[i]).id.0 != (
        #[trigger] s[j]).id.0
}

/// No order id occurs in both sequences.
pub open spec fn disjoint_ids(a: Seq<PriceIdPair>, b: Seq<PriceIdPair>) -> bool {
    forall|i: int, j: int|
        0 <= i < a.len() && 0 <= j < b.len() ==> (#[trigger] a[i]).id.0 != (#[trigger] b[j]).id.0
}

/// The two pairings share no order id at all.
pub open spec fn pair_ids_disjoint(
    p1: (PriceIdPair, PriceIdPair),
    p2: (PriceIdPair, PriceIdPair),
) -> bool {
    &&& p1.0.id.0 != p2.0.id.0
    &&& p1.0.id.0 != p2.1.id.0
    &&& p1.1.id.0 != p2.0.id.0
    &&& p1.1.id.0 != p2.1.id.0
}

/// The ask the pass pairs with a bid at `price`, scanning the ask side from
/// the top down and skipping consumed ids: the highest-positioned
/// unconsumed ask of exactly equal price, or -1 when there is none.
pub open spec fn ask_match_index(asks: Seq<PriceIdPair>, price: Price, consumed: Set<u32>) -> int
    decreases asks.len(),
{
    if asks.len() == 0 {
        -1
    } else if asks.last().price == price && !consumed.contains(asks.last().id.0) {
        asks.len() - 1
    } else {
        ask_match_index(asks.drop_last(), price, consumed)
    }
}

pub proof fn lemma_ask_match_index(asks: Seq<PriceIdPair>, price: Price, consumed: Set<u32>)
    ensures
        ({
            let j = ask_match_index(asks, price, consumed);
            &&& -1 <= j < asks.len()
            &&& j >= 0 ==> asks[j].price == price && !consumed.contains(asks[j].id.0)
            &&& forall|i: int|
                j < i < asks.len() ==> !((#[trigger] asks[i]).price == price
                    && !consumed.contains(asks[i].id.0))
        }),
    decreases asks.len(),
{
    if asks.len() > 0 {
        lemma_ask_match_index(asks.drop_last(), price, consumed);
        assert(forall|i: int|
            0 <= i < asks.len() - 1 ==> #[trigger] asks.drop_last()[i] == asks[i]);
        let j = ask_match_index(asks, price, consumed);
        if asks.last().price == price && !consumed.contains(asks.last().id.0) {
            assert(j == asks.len() - 1);
            assert(asks[j] == asks.last());
        } else {
            assert(j == ask_match_index(asks.drop_last(), price, consumed));
            assert forall|i: int|
                j < i < asks.len() implies !((#[trigger] asks[i]).price == price
                && !consumed.contains(asks[i].id.0)) by {
                if i < asks.len() - 1 {
                    assert(asks.drop_last()[i] == asks[i]);
                } else {
                    assert(asks[i] == asks.last());
                }
            }
        }
    }
}

/// The pairings one matching pass produces: walk the bids in ascending
/// `(price, id)` order; pair each not-yet-consumed bid with the ask
/// `ask_match_index` names, if any, consuming both ids; a bid with no
/// equal-priced unconsumed ask stays unmatched this pass.
pub open spec fn match_pairs(
    bids: Seq<PriceIdPair>,
    asks: Seq<PriceIdPair>,
    consumed: Set<u32>,
) -> Seq<(PriceIdPair, PriceIdPair)>
    decreases bids.len(),
{
    if bids.len() == 0 {
        Seq::empty()
    } else {
        let b = bids[0];
        if consumed.contains(b.id.0) {
            match_pairs(bids.drop_first(), asks, consumed)
        } else {
            let j = ask_match_index(asks, b.price, consumed);
            if j >= 0 {
                seq![(b, asks[j])] + match_pairs(
                    bids.drop_first(),
                    asks,
                    consumed.insert(b.id.0).insert(asks[j].id.0),
                )
            } else {
                match_pairs(bids.drop_first(), asks, consumed)
            }
        }
    }
}

/// Every order id consumed by a set of pairings.
pub open spec fn matched_ids(pairs: Seq<(PriceIdPair, PriceIdPair)>) -> Set<u32> {
    Set::new(
        |id: u32|
            exists|k: int|
                0 <= k < pairs.len() && ((#[trigger] pairs[k]).0.id.0 == id || pairs[k].1.id.0
                    == id),
    )
}

proof fn lemma_skip_drop_first(s: Seq<PriceIdPair>, i: int)
    requires
        0 <= i < s.len(),
    ensures
        s.skip(i).len() == s.len() - i,
        s.skip(i)[0] == s[i],
        s.skip(i).drop_first() == s.skip(i + 1),
    decreases s.len(),
{
    assert(s.skip(i).drop_first() =~= s.skip(i + 1));
}

/// Structural soundness of the pairings: no more pairs than bids; each
/// pair takes its bid from the bid side and its ask from the ask side, at
/// one common price, from ids not consumed before the pass; and no id is
/// consumed twice.
pub proof fn lemma_match_pairs_sound(
    bids: Seq<PriceIdPair>,
    asks: Seq<PriceIdPair>,
    consumed: Set<u32>,
)
    requires
        distinct_ids(bids),
        distinct_ids(asks),
        disjoint_ids(bids, asks),
    ensures
        ({
            let r = match_pairs(bids, asks, consumed);
            &&& r.len() <= bids.len()
            &&& forall|k: int|
                0 <= k < r.len() ==> {
                    &&& bids.contains((#[trigger] r[k]).0)
                    &&& asks.contains(r[k].1)
                    &&& r[k].0.price == r[k].1.price
                    &&& !consumed.contains(r[k].0.id.0)
                    &&& !consumed.contains(r[k].1.id.0)
                    &&& r[k].0.id.0 != r[k].1.id.0
                }
            &&& forall|k1: int, k2: int|
                0 <= k1 < k2 < r.len() ==> pair_ids_disjoint(#[trigger] r[k1], #[trigger] r[k2])
        }),
    decreases bids.len(),
{
    let r = match_pairs(bids, asks, consumed);
    if bids.len() == 0 {
    } else {
        let b = bids[0];
        let rest_bids = bids.drop_first();
        assert(forall|i: int| 0 <= i < rest_bids.len() ==> #[trigger] rest_bids[i] == bids[i + 1]);
        assert(distinct_ids(rest_bids));
        assert(disjoint_ids(rest_bids, asks));
        if consumed.contains(b.id.0) {
            lemma_match_pairs_sound(rest_bids, asks, consumed);
            assert(r == match_pairs(rest_bids, asks, consumed));
            assert forall|k: int| 0 <= k < r.len() implies bids.contains((#[trigger] r[k]).0) by {
                let i = choose|i: int| 0 <= i < rest_bids.len() && rest_bids[i] == r[k].0;
                assert(bids[i + 1] == r[k].0);
            }
        } else {
            let j = ask_match_index(asks, b.price, consumed);
            lemma_ask_match_index(asks, b.price, consumed);
            if j >= 0 {
                let a = asks[j];
                let consumed2 = consumed.insert(b.id.0).insert(a.id.0);
                lemma_match_pairs_sound(rest_bids, asks, consumed2);
                let rest = match_pairs(rest_bids, asks, consumed2);
                assert(r == seq![(b, a)] + rest);
                assert(r[0] == (b, a));
                assert(forall|k: int| 1 <= k < r.len() ==> #[trigger] r[k] == rest[k - 1]);
                assert(bids[0] == b);
                assert(bids.contains(b));
                assert(asks.contains(a));
                // The bid comes from the bid side and the ask from the ask
                // side, so their ids differ.
                assert(b.id.0 != a.id.0);
                assert forall|k: int|
                    0 <= k < r.len() implies {
                    &&& bids.contains((#[trigger] r[k]).0)
                    &&& asks.contains(r[k].1)
                    &&& r[k].0.price == r[k].1.price
                    &&& !consumed.contains(r[k].0.id.0)
                    &&& !consumed.contains(r[k].1.id.0)
                    &&& r[k].0.id.0 != r[k].1.id.0
                } by {
                    if k >= 1 {
                        assert(rest_bids.contains(rest[k - 1].0));
                        let i = choose|i: int|
                            0 <= i < rest_bids.len() && rest_bids[i] == rest[k - 1].0;
                        assert(bids[i + 1] == r[k].0);
                        assert(!consumed2.contains(rest[k - 1].0.id.0));
                        assert(!consumed2.contains(rest[k - 1].1.id.0));
                    }
                }
                assert forall|k1: int, k2: int|
                    0 <= k1 < k2 < r.len() implies pair_ids_disjoint(
                    #[trigger] r[k1],
                    #[trigger] r[k2],
                ) by {
                    if k1 == 0 {
                        assert(!consumed2.contains(rest[k2 - 1].0.id.0));
                        assert(!consumed2.contains(rest[k2 - 1].1.id.0));
                    } else {
                        assert(pair_ids_disjoint(rest[k1 - 1], rest[k2 - 1]));
                    }
                }
            } else {
                lemma_match_pairs_sound(rest_bids, asks, consumed);
                assert(r == match_pairs(rest_bids, asks, consumed));
                assert forall|k: int|
                    0 <= k < r.len() implies bids.contains((#[trigger] r[k]).0) by {
                    let i = choose|i: int| 0 <= i < rest_bids.len() && rest_bids[i] == r[k].0;
                    assert(bids[i + 1] == r[k].0);
                }
            }
        }
    }
}

proof fn lemma_matched_ids_push(
    pairs: Seq<(PriceIdPair, PriceIdPair)>,
    pr: (PriceIdPair, PriceIdPair),
)
    ensures
        matched_ids(pairs.push(pr)) == matched_ids(pairs).insert(pr.0.id.0).insert(pr.1.id.0),
{
    let lhs = matched_ids(pairs.push(pr));
    let rhs = matched_ids(pairs).insert(pr.0.id.0).insert(pr.1.id.0);
    assert forall|x: u32| lhs.contains(x) implies rhs.contains(x) by {
        let k = choose|k: int|
            0 <= k < pairs.push(pr).len() && ((#[trigger] pairs.push(pr)[k]).0.id.0 == x
                || pairs.push(pr)[k].1.id.0 == x);
        if k < pairs.len() {
            assert(pairs.push(pr)[k] == pairs[k]);
            assert(matched_ids(pairs).contains(x));
        } else {
            assert(pairs.push(pr)[k] == pr);
        }
    }
    assert forall|x: u32| rhs.contains(x) implies lhs.contains(x) by {
        if matched_ids(pairs).contains(x) {
            let k = choose|k: int|
                0 <= k < pairs.len() && ((#[trigger] pairs[k]).0.id.0 == x || pairs[k].1.id.0
                    == x);
            assert(pairs.push(pr)[k] == pairs[k]);
        } else {
            assert(pairs.push(pr)[pairs.len() as int] == pr);
        }
    }
    assert(lhs =~= rhs);
}

proof fn lemma_matched_ids_take_step(pairs: Seq<(PriceIdPair, PriceIdPair)>, t: int)
    requires
        0 <= t < pairs.len(),
    ensures
        matched_ids(pairs.take(t + 1)) == matched_ids(pairs.take(t)).insert(
            pairs[t].0.id.0,
        ).insert(pairs[t].1.id.0),
{
    assert(pairs.take(t + 1) =~= pairs.take(t).push(pairs[t]));
    lemma_matched_ids_push(pairs.take(t), pairs[t]);
}

proof fn lemma_remove_keys_two<V>(m: Map<u32, V>, prev: Set<u32>, a: u32, b: u32)
    ensures
        m.remove_keys(prev).remove(a).remove(b) == m.remove_keys(prev.insert(a).insert(b)),
{
    assert(m.remove_keys(prev).remove(a).remove(b) =~= m.remove_keys(prev.insert(a).insert(b)));
}

proof fn lemma_remove_keys_one_absent<V>(m: Map<u32, V>, prev: Set<u32>, a: u32, b: u32)
    requires
        !m.contains_key(b),
    ensures
        m.remove_keys(prev).remove(a) == m.remove_keys(prev.insert(a).insert(b)),
{
    assert(m.remove_keys(prev).remove(a) =~= m.remove_keys(prev.insert(a).insert(b)));
}

/// One more point removal by id turns a side filtered by the previously
/// matched ids into the side filtered by those ids plus the new pair's
/// ids, provided the other side's removed id does not occur here at all.
proof fn lemma_remove_matched_step(
    s: Seq<PriceIdPair>,
    s_cur: Seq<PriceIdPair>,
    matched_prev: Set<u32>,
    matched_next: Set<u32>,
    own_id: u32,
    other_id: u32,
)
    requires
        s_cur == s.filter(|p: PriceIdPair| !matched_prev.contains(p.id.0)),
        matched_next == matched_prev.insert(own_id).insert(other_id),
        forall|i: int| 0 <= i < s.len() ==> (#[trigger] s[i]).id.0 != other_id,
    ensures
        s_cur.filter(|p: PriceIdPair| p.id.0 != own_id) == s.filter(
            |p: PriceIdPair| !matched_next.contains(p.id.0),
        ),
{
    let p1 = |p: PriceIdPair| !matched_prev.contains(p.id.0);
    let p2 = |p: PriceIdPair| p.id.0 != own_id;
    let p12 = |p: PriceIdPair| !matched_prev.contains(p.id.0) && p.id.0 != own_id;
    crate::seq_lemmas::lemma_filter_filter(s, p1, p2, p12);
    crate::seq_lemmas::lemma_filter_congruent(
        s,
        p12,
        |p: PriceIdPair| !matched_next.contains(p.id.0),
    );
}

/// Facts one matching pass needs about a well-formed book's two sides:
/// ids are unique within a side, the two sides share no id, and every
/// indexed pair is registered at its own price with its own direction.
proof fn lemma_book_sides(b: OrderBook)
    requires
        b.wf(),
    ensures
        distinct_ids(b.bids()),
        distinct_ids(b.asks()),
        disjoint_ids(b.bids(), b.asks()),
        forall|i: int|
            0 <= i < b.bids().len() ==> {
                &&& b.registry().contains_key((#[trigger] b.bids()[i]).id.0)
                &&& b.registry()[b.bids()[i].id.0].order.direction == OrderDirection::Bid
                &&& b.registry()[b.bids()[i].id.0].order.price == b.bids()[i].price
                &&& b.bid_side().price_map().contains_key(b.bids()[i].id.0)
                &&& b.bid_side().price_map()[b.bids()[i].id.0] == b.bids()[i].price
            },
        forall|i: int|
            0 <= i < b.asks().len() ==> {
                &&& b.registry().contains_key((#[trigger] b.asks()[i]).id.0)
                &&& b.registry()[b.asks()[i].id.0].order.direction == OrderDirection::Ask
                &&& b.registry()[b.asks()[i].id.0].order.price == b.asks()[i].price
                &&& b.ask_side().price_map().contains_key(b.asks()[i].id.0)
                &&& b.ask_side().price_map()[b.asks()[i].id.0] == b.asks()[i].price
            },
{
    crate::order_collections::lemma_wf_ids_distinct(b.bid_side());
    crate::order_collections::lemma_wf_ids_distinct(b.ask_side());
    assert forall|i: int, j: int|
        0 <= i < b.bids().len() && 0 <= j < b.asks().len() implies (#[trigger] b.bids()[i]).id.0
        != (#[trigger] b.asks()[j]).id.0 by {
        let id_b = b.bids()[i].id.0;
        let id_a = b.asks()[j].id.0;
        if id_b == id_a {
            assert(b.bid_side().price_map().contains_key(id_b));
            assert(b.ask_side().price_map().contains_key(id_a));
            assert(b.registry()[id_b].order.direction == OrderDirection::Bid);
            assert(b.registry()[id_a].order.direction == OrderDirection::Ask);
            assert(false);
        }
    }
}

/// The trade one pairing produces: the next trade id in sequence, the
/// bid's party buying from the ask's party, at the common resting price.
pub open spec fn expected_trade(
    pre: OrderBook,
    pairs: Seq<(PriceIdPair, PriceIdPair)>,
    k: int,
) -> (TradeId, Trade) {
    (
        TradeId((pre.trade_counter() + k + 1) as u32),
        Trade {
            buyer: pre.registry()[pairs[k].0.id.0].order.counterparty_code,
            seller: pre.registry()[pairs[k].1.id.0].order.counterparty_code,
            ticker: pre.spec_ticker(),
            price: pairs[k].0.price,
        },
    )
}

/// The exact trade sequence one matching pass over this book state emits.
pub open spec fn pass_trades(pre: OrderBook) -> Seq<(TradeId, Trade)> {
    let pairs = match_pairs(pre.bids(), pre.asks(), Set::<u32>::empty());
    Seq::new(pairs.len(), |k: int| expected_trade(pre, pairs, k))
}

/// The whole effect of one matching pass: the pass emits exactly the
/// trades of `match_pairs` over the pre-state in bid order, removes every
/// matched order from the registry and from both side indexes, advances
/// the trade counter by the number of trades, and changes nothing else.
pub open spec fn match_effect(pre: OrderBook, post: OrderBook, trades: Seq<(TradeId, Trade)>) -> bool {
    let pairs = match_pairs(pre.bids(), pre.asks(), Set::<u32>::empty());
    let matched = matched_ids(pairs);
    &&& trades == pass_trades(pre)
    &&& post.bids() == pre.bids().filter(|p: PriceIdPair| !matched.contains(p.id.0))
    &&& post.asks() == pre.asks().filter(|p: PriceIdPair| !matched.contains(p.id.0))
    &&& post.registry() == pre.registry().remove_keys(matched)
    &&& post.bid_side().price_map() == pre.bid_side().price_map().remove_keys(matched)
    &&& post.ask_side().price_map() == pre.ask_side().price_map().remove_keys(matched)
    &&& post.order_counter() == pre.order_counter()
    &&& post.trade_counter() == pre.trade_counter() + trades.len()
    &&& post.spec_ticker() == pre.spec_ticker()
}

/// Allocated order ids strictly increase and never repeat: whenever one
/// order is stored after another on the same book, the later order gets a
/// strictly larger id — also across intervening operations, since no
/// operation ever lowers the order counter.
pub proof fn lemma_order_ids_strictly_increase(
    b0: OrderBook,
    b1: OrderBook,
    o1: Order,
    id1: OrderId,
    b2: OrderBook,
    b3: OrderBook,
    o2: Order,
    id2: OrderId,
)
    requires
        add_effect(b0, b1, o1, id1),
        b2.order_counter() >= b1.order_counter(),
        add_effect(b2, b3, o2, id2),
    ensures
        id2.0 > id1.0,
{
}

/// After storing a bid, the bid index holds exactly one pair carrying the
/// new id, at the order's price and in agreement with the reverse map,
/// and the ask side is untouched.
pub proof fn lemma_add_bid_indexes_once(pre: OrderBook, post: OrderBook, order: Order, id: OrderId)
    requires
        pre.wf(),
        post.wf(),
        order.direction == OrderDirection::Bid,
        add_effect(pre, post, order, id),
    ensures
        post.ask_side() == pre.ask_side(),
        post.bid_side().price_map().contains_key(id.0),
        post.bid_side().price_map()[id.0] == order.price,
        exists|k: int|
            0 <= k < post.bids().len() && post.bids()[k] == (PriceIdPair {
                price: order.price,
                id,
            }),
        forall|k1: int, k2: int|
            0 <= k1 < post.bids().len() && 0 <= k2 < post.bids().len() && (
            #[trigger] post.bids()[k1]).id.0 == id.0 && (#[trigger] post.bids()[k2]).id.0 == id.0
                ==> k1 == k2,
{
    let pair = PriceIdPair { price: order.price, id };
    let k = choose|k: int|
        0 <= k <= pre.bids().len() && post.bids() == pre.bids().insert(k, pair);
    assert(post.bids()[k] == pair);
    crate::order_collections::lemma_wf_ids_distinct(post.bid_side());
}

/// A bid and an ask at one common price, alone on a book, match in one
/// pass into exactly one trade at that price between their two parties,
/// and both orders vanish from the registry and from both indexes.
pub proof fn lemma_single_pair_matches(
    pre: OrderBook,
    post: OrderBook,
    trades: Seq<(TradeId, Trade)>,
)
    requires
        pre.wf(),
        pre.bids().len() == 1,
        pre.asks().len() == 1,
        pre.bids()[0].price == pre.asks()[0].price,
        match_effect(pre, post, trades),
    ensures
        trades.len() == 1,
        trades[0].0 == TradeId((pre.trade_counter() + 1) as u32),
        trades[0].1.price == pre.bids()[0].price,
        trades[0].1.ticker == pre.spec_ticker(),
        trades[0].1.buyer == pre.registry()[pre.bids()[0].id.0].order.counterparty_code,
        trades[0].1.seller == pre.registry()[pre.asks()[0].id.0].order.counterparty_code,
        post.registry() == Map::<u32, ExchangeOrder>::empty(),
        post.bids() == Seq::<PriceIdPair>::empty(),
        post.asks() == Seq::<PriceIdPair>::empty(),
        post.bid_side().price_map() == Map::<u32, Price>::empty(),
        post.ask_side().price_map() == Map::<u32, Price>::empty(),
{
    let b = pre.bids()[0];
    let a = pre.asks()[0];
    let empty_c = Set::<u32>::empty();
    assert(pre.asks().last() == a);
    assert(ask_match_index(pre.asks(), b.price, empty_c) == 0);
    let pairs = match_pairs(pre.bids(), pre.asks(), empty_c);
    assert(pre.bids().drop_first().len() == 0);
    assert(match_pairs(
        pre.bids().drop_first(),
        pre.asks(),
        empty_c.insert(b.id.0).insert(a.id.0),
    ) == Seq::<(PriceIdPair, PriceIdPair)>::empty());
    assert(pairs =~= seq![(b, a)]);
    let matched = matched_ids(pairs);
    assert(matched.contains(b.id.0)) by {
        assert(pairs[0].0.id.0 == b.id.0);
    }
    assert(matched.contains(a.id.0)) by {
        assert(pairs[0].1.id.0 == a.id.0);
    }
    assert(trades == pass_trades(pre));
    assert(trades[0] == expected_trade(pre, pairs, 0));
    lemma_book_sides(pre);
    assert forall|id: u32| #[trigger] pre.registry().contains_key(id) implies id == b.id.0 || id
        == a.id.0 by {
        let eo = pre.registry()[id];
        if eo.order.direction == OrderDirection::Bid {
            assert(pre.bid_side().price_map().contains_key(id));
            let p = PriceIdPair { price: pre.bid_side().price_map()[id], id: OrderId(id) };
            assert(pre.bids().contains(p));
            let i = choose|i: int| 0 <= i < pre.bids().len() && pre.bids()[i] == p;
            assert(i == 0);
        } else {
            assert(pre.ask_side().price_map().contains_key(id));
            let p = PriceIdPair { price: pre.ask_side().price_map()[id], id: OrderId(id) };
            assert(pre.asks().contains(p));
            let i = choose|i: int| 0 <= i < pre.asks().len() && pre.asks()[i] == p;
            assert(i == 0);
        }
    }
    assert(post.registry() =~= Map::<u32, ExchangeOrder>::empty());
    assert forall|id: u32|
        #[trigger] pre.bid_side().price_map().contains_key(id) implies id == b.id.0 by {
        assert(pre.registry().contains_key(id));
        assert(pre.registry()[id].order.direction == OrderDirection::Bid);
        if id == a.id.0 {
            assert(pre.registry()[id].order.direction == OrderDirection::Ask);
        }
    }
    assert forall|id: u32|
        #[trigger] pre.ask_side().price_map().contains_key(id) implies id == a.id.0 by {
        assert(pre.registry().contains_key(id));
        assert(pre.registry()[id].order.direction == OrderDirection::Ask);
        if id == b.id.0 {
            assert(pre.registry()[id].order.direction == OrderDirection::Bid);
        }
    }
    assert(post.bid_side().price_map() =~= Map::<u32, Price>::empty());
    assert(post.ask_side().price_map() =~= Map::<u32, Price>::empty());
    assert(post.bids() =~= Seq::<PriceIdPair>::empty()) by {
        reveal_with_fuel(Seq::filter, 3);
        assert(pre.bids().drop_last() =~= Seq::<PriceIdPair>::empty());
        assert(pre.bids().last() == b);
    }
    assert(post.asks() =~= Seq::<PriceIdPair>::empty()) by {
        reveal_with_fuel(Seq::filter, 3);
        assert(pre.asks().drop_last() =~= Seq::<PriceIdPair>::empty());
        assert(pre.asks().last() == a);
    }
}

/// A bid and an ask at different prices never match: the pass emits no
/// trade and the book keeps both orders, still present and queryable.
pub proof fn lemma_unequal_prices_do_not_match(
    pre: OrderBook,
    post: OrderBook,
    trades: Seq<(TradeId, Trade)>,
)
    requires
        pre.wf(),
        pre.bids().len() == 1,
        pre.asks().len() == 1,
        pre.bids()[0].price != pre.asks()[0].price,
        match_effect(pre, post, trades),
    ensures
        trades.len() == 0,
        post.registry() == pre.registry(),
        post.bids() == pre.bids(),
        post.asks() == pre.asks(),
        post.bid_side().price_map() == pre.bid_side().price_map(),
        post.ask_side().price_map() == pre.ask_side().price_map(),
{
    let b = pre.bids()[0];
    let a = pre.asks()[0];
    let empty_c = Set::<u32>::empty();
    assert(pre.asks().last() == a);
    assert(pre.asks().drop_last().len() == 0);
    assert(ask_match_index(pre.asks().drop_last(), b.price, empty_c) == -1);
    assert(ask_match_index(pre.asks(), b.price, empty_c) == -1);
    let pairs = match_pairs(pre.bids(), pre.asks(), empty_c);
    assert(pre.bids().drop_first().len() == 0);
    assert(pairs == match_pairs(pre.bids().drop_first(), pre.asks(), empty_c));
    assert(pairs =~= Seq::<(PriceIdPair, PriceIdPair)>::empty());
    let matched = matched_ids(pairs);
    assert forall|id: u32| !(#[trigger] matched.contains(id)) by {
        if matched.contains(id) {
            let k = choose|k: int|
                0 <= k < pairs.len() && ((#[trigger] pairs[k]).0.id.0 == id || pairs[k].1.id.0
                    == id);
            assert(false);
        }
    }
    assert(trades == pass_trades(pre));
    assert(post.registry() =~= pre.registry());
    assert(post.bid_side().price_map() =~= pre.bid_side().price_map());
    assert(post.ask_side().price_map() =~= pre.ask_side().price_map());
    crate::seq_lemmas::lemma_filter_all_true(
        pre.bids(),
        |p: PriceIdPair| !matched.contains(p.id.0),
    );
    crate::seq_lemmas::lemma_filter_all_true(
        pre.asks(),
        |p: PriceIdPair| !matched.contains(p.id.0),
    );
}

/// Matching is deterministic: two books in the same observable state
/// produce the same trades and end in the same observable state, so
/// repeating a pass against unchanged inputs never changes what would be
/// matched.
pub proof fn lemma_match_deterministic(
    pre1: OrderBook,
    post1: OrderBook,
    t1: Seq<(TradeId, Trade)>,
    pre2: OrderBook,
    post2: OrderBook,
    t2: Seq<(TradeId, Trade)>,
)
    requires
        pre1.bids() == pre2.bids(),
        pre1.asks() == pre2.asks(),
        pre1.registry() == pre2.registry(),
        pre1.trade_counter() == pre2.trade_counter(),
        pre1.spec_ticker() == pre2.spec_ticker(),
        match_effect(pre1, post1, t1),
        match_effect(pre2, post2, t2),
    ensures
        t1 == t2,
        post1.bids() == post2.bids(),
        post1.asks() == post2.asks(),
        post1.registry() == post2.registry(),
{
    let pairs = match_pairs(pre1.bids(), pre1.asks(), Set::<u32>::empty());
    assert(match_pairs(pre2.bids(), pre2.asks(), Set::<u32>::empty()) == pairs);
    assert(pass_trades(pre1) =~= pass_trades(pre2)) by {
        assert(forall|k: int|
            0 <= k < pairs.len() ==> #[trigger] expected_trade(pre1, pairs, k) == expected_trade(
                pre2,
                pairs,
                k,
            ));
    }
}

} // verus!
