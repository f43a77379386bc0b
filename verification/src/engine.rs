//! The registry of named exchanges and the dispatch of decision-layer
//! actions onto it. The simulation loop that produces the actions is
//! orchestration and lives outside the core; this module holds the state
//! that loop drives and answers each action with a typed response.

use vstd::prelude::*;
use crate::actors::Action;
use crate::exchanges::{
    exchange_index, exchange_pass_effect, lemma_exchange_index, retract_effect, submit_effect,
    Exchange, ExchangeCode, ExchangeCompositeOrderId,
};
use crate::orders::{CompositeOrderId, CounterpartyCode, Order, Ticker};
use crate::trades::{Trade, TradeId};

verus! {

/// The typed answer to one decision-layer action.
#[derive(Debug)]
pub enum ActionResponse {
    Noop,
    OrderSubmitted(ExchangeCompositeOrderId),
    OrderRetracted(ExchangeCompositeOrderId),
    OrderNotFound,
    ExchangeCodeNotFound,
}

/// All notification rows the exchanges hold, in registry order.
pub open spec fn all_notifications(s: Seq<Exchange>) -> Seq<(CounterpartyCode, Trade)>
    decreases s.len(),
{
    if s.len() == 0 {
        Seq::empty()
    } else {
        s[0].notifications() + all_notifications(s.drop_first())
    }
}

/// A registry of named exchanges: submissions and retractions addressed
/// by exchange code are routed to the exchange that carries the code; an
/// unknown code yields a typed not-found response.
pub struct ExchangeRegistry {
    exchanges: Vec<Exchange>,
}

/// The effect of routing one submission by exchange code.
pub open spec fn registry_submit_effect(
    pre: ExchangeRegistry,
    post: ExchangeRegistry,
    code: ExchangeCode,
    order: Order,
    r: ActionResponse,
) -> bool {
    let ei = exchange_index(pre.exchanges(), code@);
    &&& (ei == -1 ==> post.exchanges() == pre.exchanges() && r
        == ActionResponse::ExchangeCodeNotFound)
    &&& (ei >= 0 ==> {
        &&& post.exchanges().len() == pre.exchanges().len()
        &&& (forall|k: int|
            0 <= k < pre.exchanges().len() && k != ei ==> post.exchanges()[k] == #[trigger] pre.exchanges()[k])
        &&& submit_effect(pre.exchanges()[ei], post.exchanges()[ei], order, r)
    })
}

/// The effect of routing one retraction by exchange code.
pub open spec fn registry_retract_effect(
    pre: ExchangeRegistry,
    post: ExchangeRegistry,
    code: ExchangeCode,
    composite: CompositeOrderId,
    r: ActionResponse,
) -> bool {
    let ei = exchange_index(pre.exchanges(), code@);
    &&& (ei == -1 ==> post.exchanges() == pre.exchanges() && r
        == ActionResponse::ExchangeCodeNotFound)
    &&& (ei >= 0 ==> {
        &&& post.exchanges().len() == pre.exchanges().len()
        &&& (forall|k: int|
            0 <= k < pre.exchanges().len() && k != ei ==> post.exchanges()[k] == #[trigger] pre.exchanges()[k])
        &&& retract_effect(pre.exchanges()[ei], post.exchanges()[ei], composite, r)
    })
}

impl ExchangeRegistry {
    /// The registered exchanges, in registration order.
    pub closed spec fn exchanges(self) -> Seq<Exchange> {
        self.exchanges@
    }

    /// Every exchange is well formed and no two carry the same code.
    pub open spec fn wf(self) -> bool {
        &&& forall|k: int| 0 <= k < self.exchanges().len() ==> (#[trigger] self.exchanges()[k]).wf()
        &&& forall|k1: int, k2: int|
            0 <= k1 < k2 < self.exchanges().len() ==> (#[trigger] self.exchanges()[k1]).spec_code()@
                != (#[trigger] self.exchanges()[k2]).spec_code()@
    }

    /// Whether every book of every exchange can still allocate an order id.
    pub open spec fn spec_can_accept_orders(self) -> bool {
        forall|e: int, b: int|
            0 <= e < self.exchanges().len() && 0 <= b < self.exchanges()[e].books().len() ==> (
            #[trigger] self.exchanges()[e].books()[b]).order_counter() < u32::MAX
    }

    /// Whether every book of every exchange has trade-id headroom for one
    /// full matching pass.
    pub open spec fn spec_can_match_orders(self) -> bool {
        forall|e: int, b: int|
            0 <= e < self.exchanges().len() && 0 <= b < self.exchanges()[e].books().len() ==> (
            #[trigger] self.exchanges()[e].books()[b]).trade_counter()
                + self.exchanges()[e].books()[b].bids().len() <= u32::MAX
    }

    /// An empty registry.
    pub fn new() -> (r: ExchangeRegistry)
        ensures
            r.wf(),
            r.exchanges() == Seq::<Exchange>::empty(),
    {
        ExchangeRegistry { exchanges: Vec::new() }
    }

    /// Find the position of the exchange carrying a code.
    #[verifier::loop_isolation(false)]
    fn find_exchange_index(&self, code: &ExchangeCode) -> (r: Option<usize>)
        ensures
            match r {
                Some(k) => k < self.exchanges().len() && exchange_index(self.exchanges(), code@)
                    == k as int,
                None => exchange_index(self.exchanges(), code@) == -1,
            },
    {
        let n = self.exchanges.len();
        let mut k: usize = 0;
        while k < n
            invariant
                k <= n,
                forall|j: int|
                    0 <= j < k ==> (#[trigger] self.exchanges()[j]).spec_code()@ != code@,
            decreases n - k,
        {
            let e = &self.exchanges[k];
            if e.exchange_code().eq(code) {
                proof {
                    crate::exchanges::lemma_exchange_index_first(self.exchanges(), code@, k as int);
                }
                return Some(k);
            }
            k += 1;
        }
        proof {
            lemma_exchange_index(self.exchanges(), code@);
            if exchange_index(self.exchanges(), code@) >= 0 {
                assert(false);
            }
        }
        None
    }

    /// Register an exchange: a code already present is replaced, a new
    /// code is appended.
    pub fn add_exchange(&mut self, exchange: Exchange)
        requires
            old(self).wf(),
            exchange.wf(),
        ensures
            final(self).wf(),
            ({
                let ei = exchange_index(old(self).exchanges(), exchange.spec_code()@);
                &&& (ei >= 0 ==> final(self).exchanges() == old(self).exchanges().update(
                    ei,
                    exchange,
                ))
                &&& (ei == -1 ==> final(self).exchanges() == old(self).exchanges().push(exchange))
            }),
    {
        proof {
            lemma_exchange_index(old(self).exchanges(), exchange.spec_code()@);
        }
        let found = self.find_exchange_index(exchange.exchange_code());
        match found {
            Some(ei) => {
                let ghost pre = self.exchanges@;
                self.exchanges.remove(ei);
                self.exchanges.insert(ei, exchange);
                proof {
                    assert(self.exchanges@ =~= pre.update(ei as int, self.exchanges@[ei as int]));
                }
            },
            None => {
                self.exchanges.push(exchange);
            },
        }
    }

    /// Route one submission to the exchange carrying a code; an unknown
    /// code yields the typed not-found response and changes nothing.
    pub fn submit_by_exchange_code(&mut self, code: &ExchangeCode, order: Order) -> (r:
        ActionResponse)
        requires
            old(self).wf(),
            old(self).spec_can_accept_orders(),
        ensures
            final(self).wf(),
            registry_submit_effect(*old(self), *final(self), *code, order, r),
    {
        proof {
            lemma_exchange_index(old(self).exchanges(), code@);
        }
        match self.find_exchange_index(code) {
            Some(ei) => {
                let ghost pre = self.exchanges@;
                let mut exchange = self.exchanges.remove(ei);
                let response = exchange.submit_order(order);
                self.exchanges.insert(ei, exchange);
                proof {
                    assert(self.exchanges@ =~= pre.update(ei as int, self.exchanges@[ei as int]));
                }
                response
            },
            None => ActionResponse::ExchangeCodeNotFound,
        }
    }

    /// Route one retraction to the exchange carrying a code; an unknown
    /// code yields the typed not-found response and changes nothing.
    pub fn retract_by_exchange_code(&mut self, code: &ExchangeCode, composite: &CompositeOrderId)
        -> (r: ActionResponse)
        requires
            old(self).wf(),
        ensures
            final(self).wf(),
            registry_retract_effect(*old(self), *final(self), *code, *composite, r),
    {
        proof {
            lemma_exchange_index(old(self).exchanges(), code@);
        }
        match self.find_exchange_index(code) {
            Some(ei) => {
                let ghost pre = self.exchanges@;
                let mut exchange = self.exchanges.remove(ei);
                let response = exchange.retract_order(composite);
                self.exchanges.insert(ei, exchange);
                proof {
                    assert(self.exchanges@ =~= pre.update(ei as int, self.exchanges@[ei as int]));
                }
                response
            },
            None => ActionResponse::ExchangeCodeNotFound,
        }
    }

    /// Run one matching pass over every exchange, collecting each
    /// exchange's per-instrument trades under its code.
    #[verifier::loop_isolation(false)]
    pub fn match_orders(&mut self) -> (result: Vec<
        (ExchangeCode, Vec<(Ticker, Vec<(TradeId, Trade)>)>),
    >)
        requires
            old(self).wf(),
            old(self).spec_can_match_orders(),
        ensures
            final(self).wf(),
            final(self).exchanges().len() == old(self).exchanges().len(),
            result@.len() == old(self).exchanges().len(),
            forall|k: int|
                0 <= k < old(self).exchanges().len() ==> (#[trigger] result@[k]).0 == old(
                    self,
                ).exchanges()[k].spec_code() && exchange_pass_effect(
                    old(self).exchanges()[k],
                    final(self).exchanges()[k],
                    result@[k].1@,
                ),
    {
        let ghost exchanges0 = self.exchanges@;
        let mut result: Vec<(ExchangeCode, Vec<(Ticker, Vec<(TradeId, Trade)>)>)> = Vec::new();
        let n = self.exchanges.len();
        let mut k: usize = 0;
        while k < n
            invariant
                k <= n,
                self.exchanges@.len() == n,
                forall|j: int| k <= j < n ==> #[trigger] self.exchanges()[j] == exchanges0[j],
                forall|j: int| 0 <= j < k ==> (#[trigger] self.exchanges()[j]).wf(),
                result@.len() == k,
                forall|j: int|
                    0 <= j < k ==> (#[trigger] result@[j]).0 == exchanges0[j].spec_code()
                        && exchange_pass_effect(
                        exchanges0[j],
                        self.exchanges()[j],
                        result@[j].1@,
                    ),
            decreases n - k,
        {
            let ghost pre = self.exchanges@;
            proof {
                assert(self.exchanges()[k as int] == exchanges0[k as int]);
            }
            let mut exchange = self.exchanges.remove(k);
            let trades = exchange.match_orders();
            let exchange_code = exchange.exchange_code().clone();
            self.exchanges.insert(k, exchange);
            proof {
                assert(self.exchanges@ =~= pre.update(k as int, self.exchanges@[k as int]));
            }
            result.push((exchange_code, trades));
            k += 1;
        }
        proof {
            assert forall|k1: int, k2: int|
                0 <= k1 < k2 < self.exchanges().len() implies (
            #[trigger] self.exchanges()[k1]).spec_code()@ != (
            #[trigger] self.exchanges()[k2]).spec_code()@ by {
                assert(exchange_pass_effect(exchanges0[k1], self.exchanges()[k1], result@[k1].1@));
                assert(exchange_pass_effect(exchanges0[k2], self.exchanges()[k2], result@[k2].1@));
            }
        }
        result
    }

    /// Drain every exchange's notification queue into one sequence, in
    /// registry order, leaving all queues empty. The caller delivers each
    /// row to its named counterparty before the step is finished.
    #[verifier::loop_isolation(false)]
    pub fn drain_notifications(&mut self) -> (r: Vec<(CounterpartyCode, Trade)>)
        requires
            old(self).wf(),
        ensures
            final(self).wf(),
            r@ == all_notifications(old(self).exchanges()),
            final(self).exchanges().len() == old(self).exchanges().len(),
            forall|k: int|
                0 <= k < old(self).exchanges().len() ==> {
                    &&& (#[trigger] final(self).exchanges()[k]).books() == old(
                        self,
                    ).exchanges()[k].books()
                    &&& final(self).exchanges()[k].ledger_entries() == old(
                        self,
                    ).exchanges()[k].ledger_entries()
                    &&& final(self).exchanges()[k].spec_code() == old(
                        self,
                    ).exchanges()[k].spec_code()
                    &&& final(self).exchanges()[k].notifications() == Seq::<
                        (CounterpartyCode, Trade),
                    >::empty()
                },
    {
        let ghost exchanges0 = self.exchanges@;
        proof {
            assert(exchanges0.skip(0) =~= exchanges0);
        }
        let mut out: Vec<(CounterpartyCode, Trade)> = Vec::new();
        let n = self.exchanges.len();
        let mut k: usize = 0;
        while k < n
            invariant
                k <= n,
                self.exchanges@.len() == n,
                forall|j: int| k <= j < n ==> #[trigger] self.exchanges()[j] == exchanges0[j],
                forall|j: int|
                    0 <= j < k ==> {
                        &&& (#[trigger] self.exchanges()[j]).books() == exchanges0[j].books()
                        &&& self.exchanges()[j].ledger_entries()
                            == exchanges0[j].ledger_entries()
                        &&& self.exchanges()[j].spec_code() == exchanges0[j].spec_code()
                        &&& self.exchanges()[j].notifications() == Seq::<
                            (CounterpartyCode, Trade),
                        >::empty()
                        &&& self.exchanges()[j].wf()
                    },
                out@ + all_notifications(exchanges0.skip(k as int)) == all_notifications(
                    exchanges0,
                ),
            decreases n - k,
        {
            let ghost pre = self.exchanges@;
            proof {
                assert(self.exchanges()[k as int] == exchanges0[k as int]);
                assert(exchanges0.skip(k as int)[0] == exchanges0[k as int]);
                assert(exchanges0.skip(k as int).drop_first() =~= exchanges0.skip(k as int + 1));
            }
            let mut exchange = self.exchanges.remove(k);
            let mut taken = exchange.take_notifications();
            self.exchanges.insert(k, exchange);
            proof {
                assert(self.exchanges@ =~= pre.update(k as int, self.exchanges@[k as int]));
            }
            out.append(&mut taken);
            k += 1;
        }
        proof {
            assert(exchanges0.skip(n as int) =~= Seq::<Exchange>::empty());
            assert(all_notifications(exchanges0.skip(n as int)) =~= Seq::<
                (CounterpartyCode, Trade),
            >::empty());
            assert(out@ + Seq::<(CounterpartyCode, Trade)>::empty() =~= out@);
        }
        out
    }

    /// Whether every book of every exchange can still allocate an order
    /// id; callers test this before submitting.
    #[verifier::loop_isolation(false)]
    pub fn can_accept_orders(&self) -> (r: bool)
        ensures
            r == self.spec_can_accept_orders(),
    {
        let n = self.exchanges.len();
        let mut k: usize = 0;
        while k < n
            invariant
                k <= n,
                forall|e: int, b: int|
                    0 <= e < k && 0 <= b < self.exchanges()[e].books().len() ==> (
                    #[trigger] self.exchanges()[e].books()[b]).order_counter() < u32::MAX,
            decreases n - k,
        {
            let e = &self.exchanges[k];
            if !e.can_accept_orders() {
                proof {
                    if self.spec_can_accept_orders() {
                        assert(forall|b: int|
                            0 <= b < self.exchanges()[k as int].books().len() ==> (
                            #[trigger] self.exchanges()[k as int].books()[b]).order_counter()
                                < u32::MAX);
                        assert(*e == self.exchanges()[k as int]);
                        assert(forall|b: int|
                            0 <= b < e.books().len() ==> (
                            #[trigger] e.books()[b]).order_counter() < u32::MAX);
                        assert(false);
                    }
                }
                return false;
            }
            k += 1;
        }
        true
    }

    /// Whether every book of every exchange has trade-id headroom for one
    /// full matching pass; callers test this before a pass.
    #[verifier::loop_isolation(false)]
    pub fn can_match_orders(&self) -> (r: bool)
        ensures
            r == self.spec_can_match_orders(),
    {
        let n = self.exchanges.len();
        let mut k: usize = 0;
        while k < n
            invariant
                k <= n,
                forall|e: int, b: int|
                    0 <= e < k && 0 <= b < self.exchanges()[e].books().len() ==> (
                    #[trigger] self.exchanges()[e].books()[b]).trade_counter()
                        + self.exchanges()[e].books()[b].bids().len() <= u32::MAX,
            decreases n - k,
        {
            let e = &self.exchanges[k];
            if !e.can_match_orders() {
                proof {
                    if self.spec_can_match_orders() {
                        assert(forall|b: int|
                            0 <= b < self.exchanges()[k as int].books().len() ==> (
                            #[trigger] self.exchanges()[k as int].books()[b]).trade_counter()
                                + self.exchanges()[k as int].books()[b].bids().len()
                                <= u32::MAX);
                        assert(*e == self.exchanges()[k as int]);
                        assert(forall|b: int|
                            0 <= b < e.books().len() ==> (
                            #[trigger] e.books()[b]).trade_counter()
                                + e.books()[b].bids().len() <= u32::MAX);
                        assert(false);
                    }
                }
                return false;
            }
            k += 1;
        }
        true
    }

    /// How many exchanges are registered.
    pub fn exchange_count(&self) -> (r: usize)
        ensures
            r == self.exchanges().len(),
    {
        self.exchanges.len()
    }
}

/// Dispatch one decision-layer action onto the registry and answer it
/// with the typed response: submissions and retractions are routed by
/// exchange code, a no-op changes nothing.
pub fn apply_action(registry: &mut ExchangeRegistry, action: Action) -> (r: ActionResponse)
    requires
        old(registry).wf(),
        old(registry).spec_can_accept_orders(),
    ensures
        final(registry).wf(),
        match action {
            Action::Noop => *final(registry) == *old(registry) && r == ActionResponse::Noop,
            Action::SubmitOrder(code, order) => registry_submit_effect(
                *old(registry),
                *final(registry),
                code,
                order,
                r,
            ),
            Action::RetractOrder(code, composite) => registry_retract_effect(
                *old(registry),
                *final(registry),
                code,
                composite,
                r,
            ),
        },
{
    match action {
        Action::Noop => ActionResponse::Noop,
        Action::SubmitOrder(exchange_code, order) => registry.submit_by_exchange_code(
            &exchange_code,
            order,
        ),
        Action::RetractOrder(exchange_code, composite) => registry.retract_by_exchange_code(
            &exchange_code,
            &composite,
        ),
    }
}

} // verus!
