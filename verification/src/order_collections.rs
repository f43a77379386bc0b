//! One price-ordered side of an order book.
//!
//! The side owns two structures: an ordered sequence of `(price, id)` pairs
//! kept strictly ascending, and a reverse map from order id to price that
//! supports point removal by id. The two are wrapped in one type exposing
//! only insert, remove and indexed traversal, so the dual-structure
//! invariant — every reverse-map entry has exactly one pair in the ordered
//! sequence and vice versa — can never be observed broken.

use vstd::prelude::*;
use std::collections::HashMap;
use crate::exchanges::ExchangeOrder;
use crate::orders::{OrderDirection, OrderId, Price};

verus! {

broadcast use vstd::std_specs::hash::group_hash_axioms;

/// One entry of a side: the price of a resting order and its id.
#[derive(Copy, Clone, Debug, PartialEq, Eq, Structural)]
pub struct PriceIdPair {
    pub price: Price,
    pub id: OrderId,
}

/// Strict ordering of side entries: by price, then by order id. Ties on
/// price fall back to the id, so equally priced orders keep arrival order.
pub open spec fn pair_lt(a: PriceIdPair, b: PriceIdPair) -> bool {
    a.price.0 < b.price.0 || (a.price.0 == b.price.0 && a.id.0 < b.id.0)
}

/// The effect of inserting one `(price, id)` entry on a side: the reverse
/// map gains the entry and the pair takes its place in the ordered
/// sequence.
pub open spec fn collection_insert_effect(
    pre: OrderCollection,
    post: OrderCollection,
    id: OrderId,
    price: Price,
) -> bool {
    &&& post.direction() == pre.direction()
    &&& post.price_map() == pre.price_map().insert(id.0, price)
    &&& exists|k: int|
        0 <= k <= pre.pairs().len() && post.pairs() == pre.pairs().insert(
            k,
            PriceIdPair { price, id },
        )
}

/// The effect of asking a side to remove an id: a resting id leaves both
/// structures and comes back as the removed pair; an absent id is a
/// normal outcome that changes nothing.
pub open spec fn collection_remove_effect(
    pre: OrderCollection,
    post: OrderCollection,
    id: OrderId,
    r: Option<PriceIdPair>,
) -> bool {
    &&& post.direction() == pre.direction()
    &&& match r {
        Some(pair) => {
            &&& pre.contains_id(id)
            &&& pair == (PriceIdPair { price: pre.price_map()[id.0], id })
            &&& post.price_map() == pre.price_map().remove(id.0)
            &&& post.pairs() == pre.pairs().filter(|p: PriceIdPair| p.id.0 != id.0)
        },
        None => {
            &&& !pre.contains_id(id)
            &&& post == pre
        },
    }
}

/// One side (bid or ask) of one instrument's order book.
pub struct OrderCollection {
    // This struct is used purely for matching prices. Extra data needed to
    // build a trade, such as the counterparty code, lives in the book's
    // registry.
    id_price_map: HashMap<u32, Price>,
    item_set: Vec<PriceIdPair>,
    direction: OrderDirection,
}

impl OrderCollection {
    /// The ordered sequence of `(price, id)` pairs, ascending by `pair_lt`.
    pub closed spec fn pairs(self) -> Seq<PriceIdPair> {
        self.item_set@
    }

    /// The reverse map from order id to resting price.
    pub closed spec fn price_map(self) -> Map<u32, Price> {
        self.id_price_map@
    }

    /// Which side of the book this collection indexes.
    pub closed spec fn direction(self) -> OrderDirection {
        self.direction
    }

    /// Whether an order with this id rests on this side.
    pub open spec fn contains_id(self, order_id: OrderId) -> bool {
        self.price_map().contains_key(order_id.0)
    }

    /// The dual-structure invariant: the pair sequence is strictly sorted,
    /// every pair agrees with the reverse map, and every reverse-map entry
    /// appears as a pair.
    pub open spec fn wf(self) -> bool {
        &&& forall|i: int, j: int|
            0 <= i < j < self.pairs().len() ==> pair_lt(
                #[trigger] self.pairs()[i],
                #[trigger] self.pairs()[j],
            )
        &&& forall|i: int|
            0 <= i < self.pairs().len() ==> {
                &&& self.price_map().contains_key((#[trigger] self.pairs()[i]).id.0)
                &&& self.price_map()[self.pairs()[i].id.0] == self.pairs()[i].price
            }
        &&& forall|id: u32|
            #[trigger] self.price_map().contains_key(id) ==> self.pairs().contains(
                PriceIdPair { price: self.price_map()[id], id: OrderId(id) },
            )
    }

    /// An empty side for the given direction.
    pub fn new(direction: OrderDirection) -> (r: OrderCollection)
        ensures
            r.wf(),
            r.pairs() == Seq::<PriceIdPair>::empty(),
            r.price_map() == Map::<u32, Price>::empty(),
            r.direction() == direction,
    {
        OrderCollection { id_price_map: HashMap::new(), item_set: Vec::new(), direction }
    }

    /// How many orders rest on this side.
    pub fn len(&self) -> (r: usize)
        ensures
            r == self.pairs().len(),
    {
        self.item_set.len()
    }

    /// The pair at one position of the ascending traversal.
    pub fn get(&self, k: usize) -> (r: PriceIdPair)
        requires
            k < self.pairs().len(),
        ensures
            r == self.pairs()[k as int],
    {
        self.item_set[k]
    }

    /// Add one resting order. Re-inserting an id that is already present is
    /// a caller error and is excluded by precondition rather than silently
    /// overwritten.
    #[verifier::loop_isolation(false)]
    pub fn insert(&mut self, exchange_order: ExchangeOrder)
        requires
            old(self).wf(),
            !old(self).contains_id(exchange_order.order_id),
        ensures
            final(self).wf(),
            collection_insert_effect(
                *old(self),
                *final(self),
                exchange_order.order_id,
                exchange_order.order.price,
            ),
    {
        let id = exchange_order.order_id;
        let price = exchange_order.order.price;
        let price_id_pair = PriceIdPair { price, id };

        self.id_price_map.insert(id.0, price);

        let ghost pairs0 = self.item_set@;
        let mut k: usize = 0;
        while k < self.item_set.len() && pair_lt_exec(&self.item_set[k], &price_id_pair)
            invariant
                k <= pairs0.len(),
                forall|i: int| 0 <= i < k ==> pair_lt(#[trigger] pairs0[i], price_id_pair),
            decreases pairs0.len() - k,
        {
            k += 1;
        }
        proof {
            assert(pairs0 == old(self).pairs());
            assert(forall|i: int, j: int|
                0 <= i < j < pairs0.len() ==> pair_lt(
                    #[trigger] pairs0[i],
                    #[trigger] pairs0[j],
                ));
            assert(forall|i: int|
                0 <= i < pairs0.len() ==> old(self).price_map().contains_key(
                    (#[trigger] pairs0[i]).id.0,
                ) && old(self).price_map()[pairs0[i].id.0] == pairs0[i].price);
            if k < pairs0.len() {
                // The pair at the stopping point is strictly greater: it is
                // not below the new pair, and it cannot equal it because its
                // id is already in the reverse map while the new id is not.
                assert(pairs0[k as int].id.0 != id.0);
                assert(pair_lt(price_id_pair, pairs0[k as int]));
            }
        }
        self.item_set.insert(k, price_id_pair);
        proof {
            let pairs1 = self.item_set@;
            assert(pairs1 == pairs0.insert(k as int, price_id_pair));
            assert(forall|i: int| 0 <= i < k ==> #[trigger] pairs1[i] == pairs0[i]);
            assert(pairs1[k as int] == price_id_pair);
            assert(forall|i: int| k < i < pairs1.len() ==> #[trigger] pairs1[i] == pairs0[i - 1]);
            assert forall|i: int, j: int|
                0 <= i < j < pairs1.len() implies pair_lt(
                #[trigger] pairs1[i],
                #[trigger] pairs1[j],
            ) by {
                if i < k && j == k {
                    assert(pair_lt(pairs0[i], price_id_pair));
                } else if i == k && j > k {
                    assert(pair_lt(price_id_pair, pairs0[k as int]));
                    if j - 1 > k {
                        assert(pair_lt(pairs0[k as int], pairs0[j - 1]));
                    }
                } else if i < k && j > k {
                    assert(pair_lt(pairs0[i], pairs0[j - 1]));
                } else if i > k && j > k {
                    assert(pair_lt(pairs0[i - 1], pairs0[j - 1]));
                } else if i < k && j < k {
                    assert(pair_lt(pairs0[i], pairs0[j]));
                }
            }
            assert forall|id2: u32|
                #[trigger] self.price_map().contains_key(id2) implies self.pairs().contains(
                PriceIdPair { price: self.price_map()[id2], id: OrderId(id2) },
            ) by {
                if id2 == id.0 {
                    assert(pairs1[k as int] == price_id_pair);
                } else {
                    let p = PriceIdPair { price: old(self).price_map()[id2], id: OrderId(id2) };
                    let i = choose|i: int| 0 <= i < pairs0.len() && pairs0[i] == p;
                    if i < k {
                        assert(pairs1[i] == p);
                    } else {
                        assert(pairs1[i + 1] == p);
                    }
                }
            }
        }
    }

    /// Remove the resting order with this id, if any. Absence is a normal
    /// outcome, reported as `None` with the side left untouched; presence
    /// removes the entry from both structures and returns the removed pair.
    #[verifier::loop_isolation(false)]
    pub fn remove(&mut self, order_id: OrderId) -> (r: Option<PriceIdPair>)
        requires
            old(self).wf(),
        ensures
            final(self).wf(),
            collection_remove_effect(*old(self), *final(self), order_id, r),
    {
        let price = match self.id_price_map.get(&order_id.0) {
            Some(p) => *p,
            None => {
                return None;
            },
        };
        let pair = PriceIdPair { price, id: order_id };
        proof {
            lemma_wf_ids_distinct(*self);
            assert(self.price_map().contains_key(order_id.0));
            assert(self.price_map()[order_id.0] == price);
            assert(self.pairs().contains(pair));
        }

        let ghost pairs0 = self.item_set@;
        let n = self.item_set.len();
        let mut j: usize = 0;
        let mut found: bool = false;
        while !found && j < n
            invariant
                j <= n,
                n == pairs0.len(),
                self.item_set@ == pairs0,
                found ==> j < n && pairs0[j as int].id.0 == order_id.0,
                !found ==> forall|i: int| 0 <= i < j ==> (#[trigger] pairs0[i]).id.0
                    != order_id.0,
            decreases n - j + (if found { 0int } else { 1int }),
        {
            if self.item_set[j].id.0 == order_id.0 {
                found = true;
            } else {
                j += 1;
            }
        }
        proof {
            if !found {
                let i = choose|i: int| 0 <= i < pairs0.len() && pairs0[i] == pair;
                assert(pairs0[i].id.0 == order_id.0);
                assert(false);
            }
        }

        self.id_price_map.remove(&order_id.0);
        self.item_set.remove(j);
        proof {
            // The removed entry is the pair recorded in the reverse map.
            assert(pairs0[j as int].price == price);
            lemma_sorted_remove_is_filter(pairs0, j as int, order_id);
            assert forall|id2: u32|
                #[trigger] self.price_map().contains_key(id2) implies self.pairs().contains(
                PriceIdPair { price: self.price_map()[id2], id: OrderId(id2) },
            ) by {
                let p = PriceIdPair { price: old(self).price_map()[id2], id: OrderId(id2) };
                let i = choose|i: int| 0 <= i < pairs0.len() && pairs0[i] == p;
                if i < j {
                    assert(self.item_set@[i] == p);
                } else {
                    assert(self.item_set@[i - 1] == p);
                }
            }
        }
        Some(pair)
    }
}

/// Executable form of `pair_lt`.
fn pair_lt_exec(a: &PriceIdPair, b: &PriceIdPair) -> (r: bool)
    ensures
        r == pair_lt(*a, *b),
{
    a.price.0 < b.price.0 || (a.price.0 == b.price.0 && a.id.0 < b.id.0)
}

/// In a well-formed side no order id occurs twice in the pair sequence.
pub proof fn lemma_wf_ids_distinct(c: OrderCollection)
    requires
        c.wf(),
    ensures
        forall|i: int, j: int|
            0 <= i < c.pairs().len() && 0 <= j < c.pairs().len() && i != j ==> (
            #[trigger] c.pairs()[i]).id.0 != (#[trigger] c.pairs()[j]).id.0,
{
    assert forall|i: int, j: int|
        0 <= i < c.pairs().len() && 0 <= j < c.pairs().len() && i != j implies (
    #[trigger] c.pairs()[i]).id.0 != (#[trigger] c.pairs()[j]).id.0 by {
        if c.pairs()[i].id.0 == c.pairs()[j].id.0 {
            // Both pairs carry the price the reverse map records for that
            // id, so they are equal, contradicting strict sortedness.
            assert(c.pairs()[i].price == c.price_map()[c.pairs()[i].id.0]);
            assert(c.pairs()[j].price == c.price_map()[c.pairs()[j].id.0]);
            assert(c.pairs()[i] == c.pairs()[j]);
            if i < j {
                assert(pair_lt(c.pairs()[i], c.pairs()[j]));
            } else {
                assert(pair_lt(c.pairs()[j], c.pairs()[i]));
            }
            assert(false);
        }
    }
}

/// Removal by id answers an insertion exactly: removing an id right after
/// inserting it returns precisely the inserted `(price, id)` pair, and a
/// second removal of the same id reports absence.
pub proof fn lemma_insert_remove_round_trip(
    c0: OrderCollection,
    c1: OrderCollection,
    c2: OrderCollection,
    c3: OrderCollection,
    id: OrderId,
    price: Price,
    r1: Option<PriceIdPair>,
    r2: Option<PriceIdPair>,
)
    requires
        !c0.contains_id(id),
        collection_insert_effect(c0, c1, id, price),
        collection_remove_effect(c1, c2, id, r1),
        collection_remove_effect(c2, c3, id, r2),
    ensures
        r1 == Some(PriceIdPair { price, id }),
        r2 == None::<PriceIdPair>,
{
    assert(c1.contains_id(id));
    match r1 {
        None => {
            assert(false);
        },
        Some(pair) => {
            assert(c1.price_map()[id.0] == price);
            assert(pair == PriceIdPair { price, id });
        },
    }
    assert(!c2.contains_id(id));
    match r2 {
        Some(_pair) => {
            assert(false);
        },
        None => {
        },
    }
}

/// Removing the one position holding a given id from a sequence with
/// pairwise distinct ids is the same as filtering that id out.
proof fn lemma_sorted_remove_is_filter(s: Seq<PriceIdPair>, j: int, order_id: OrderId)
    requires
        0 <= j < s.len(),
        s[j].id.0 == order_id.0,
        forall|i: int, k: int|
            0 <= i < s.len() && 0 <= k < s.len() && i != k ==> (#[trigger] s[i]).id.0 != (
            #[trigger] s[k]).id.0,
    ensures
        s.remove(j) == s.filter(|p: PriceIdPair| p.id.0 != order_id.0),
{
    let pred = |p: PriceIdPair| p.id.0 != order_id.0;
    let left = s.subrange(0, j);
    let mid = s.subrange(j, j + 1);
    let rest = s.subrange(j + 1, s.len() as int);
    assert(s =~= left + mid + rest);
    Seq::filter_distributes_over_add(left + mid, rest, pred);
    Seq::filter_distributes_over_add(left, mid, pred);
    crate::seq_lemmas::lemma_filter_all_true(left, pred);
    crate::seq_lemmas::lemma_filter_all_true(rest, pred);
    assert(mid.filter(pred) =~= Seq::<PriceIdPair>::empty()) by {
        reveal(Seq::filter);
        assert(mid.drop_last() =~= Seq::<PriceIdPair>::empty());
        assert(mid.last() == s[j]);
        assert(!pred(s[j]));
        assert(mid.drop_last().filter(pred) =~= Seq::<PriceIdPair>::empty());
    }
    assert(s.filter(pred) == left.filter(pred) + mid.filter(pred) + rest.filter(pred));
    assert(s.remove(j) =~= left + rest);
    assert(left + Seq::<PriceIdPair>::empty() + rest =~= left + rest);
}

} // verus!
