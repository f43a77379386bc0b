//! The decision layer's interface: a party that chooses one action per
//! simulated step, and two reference parties. The loop that drives actors
//! is orchestration and lives outside the matching core; the core only
//! consumes the submissions that result.

use vstd::prelude::*;
use crate::engine::ActionResponse;
use crate::exchanges::ExchangeCode;
use crate::orders::{CompositeOrderId, CounterpartyCode, Order, OrderDirection, Price, Ticker};
use crate::trades::Trade;

verus! {

/// What a party decides to do on one step.
#[derive(Debug)]
pub enum Action {
    Noop,
    SubmitOrder(ExchangeCode, Order),
    RetractOrder(ExchangeCode, CompositeOrderId),
}

/// A party in the simulation: it names its counterparty code, decides one
/// action per step, and is told the outcome of its action and of every
/// trade it took part in.
pub trait Actor {
    fn counterparty_code(self) -> CounterpartyCode where Self: Sized;

    fn counterparty_code_as_ref(&self) -> &CounterpartyCode;

    fn act(&self) -> Action;

    fn register_action_response(&mut self, action_response: ActionResponse);

    fn register_trade(&mut self, trade: &Trade);
}

/// A party that never trades.
pub struct NoopActor {
    counterparty_code: CounterpartyCode,
}

impl NoopActor {
    /// The code this party trades under.
    pub closed spec fn spec_counterparty_code(self) -> CounterpartyCode {
        self.counterparty_code
    }
}

impl From<CounterpartyCode> for NoopActor {
    fn from(counterparty_code: CounterpartyCode) -> Self {
        Self { counterparty_code }
    }
}

impl vstd::std_specs::convert::FromSpecImpl<CounterpartyCode> for NoopActor {
    open spec fn obeys_from_spec() -> bool {
        false
    }

    closed spec fn from_spec(counterparty_code: CounterpartyCode) -> Self {
        NoopActor { counterparty_code }
    }
}

impl Actor for NoopActor {
    fn counterparty_code(self) -> (r: CounterpartyCode)
        ensures
            r == self.spec_counterparty_code(),
    {
        self.counterparty_code
    }

    fn counterparty_code_as_ref(&self) -> (r: &CounterpartyCode)
        ensures
            r == self.spec_counterparty_code(),
    {
        &self.counterparty_code
    }

    fn act(&self) -> (r: Action)
        ensures
            r == Action::Noop,
    {
        Action::Noop
    }

    fn register_action_response(&mut self, _action_response: ActionResponse) {
    }

    fn register_trade(&mut self, _trade: &Trade) {
    }
}

/// A party that submits the same order on every step.
pub struct SimpleActor {
    pub exchange_code: ExchangeCode,
    pub counterparty_code: CounterpartyCode,
    pub ticker: Ticker,
    pub direction: OrderDirection,
    pub price: Price,
}

impl From<(ExchangeCode, Order)> for SimpleActor {
    fn from(exchange_code_order: (ExchangeCode, Order)) -> Self {
        Self {
            exchange_code: exchange_code_order.0,
            counterparty_code: exchange_code_order.1.counterparty_code,
            ticker: exchange_code_order.1.ticker,
            direction: exchange_code_order.1.direction,
            price: exchange_code_order.1.price,
        }
    }
}

impl vstd::std_specs::convert::FromSpecImpl<(ExchangeCode, Order)> for SimpleActor {
    open spec fn obeys_from_spec() -> bool {
        false
    }

    closed spec fn from_spec(exchange_code_order: (ExchangeCode, Order)) -> Self {
        SimpleActor {
            exchange_code: exchange_code_order.0,
            counterparty_code: exchange_code_order.1.counterparty_code,
            ticker: exchange_code_order.1.ticker,
            direction: exchange_code_order.1.direction,
            price: exchange_code_order.1.price,
        }
    }
}

impl Actor for SimpleActor {
    fn counterparty_code(self) -> (r: CounterpartyCode)
        ensures
            r == self.counterparty_code,
    {
        self.counterparty_code
    }

    fn counterparty_code_as_ref(&self) -> (r: &CounterpartyCode)
        ensures
            r == self.counterparty_code,
    {
        &self.counterparty_code
    }

    fn act(&self) -> (r: Action)
        ensures
            r == (Action::SubmitOrder(
                self.exchange_code,
                Order {
                    counterparty_code: self.counterparty_code,
                    ticker: self.ticker,
                    direction: self.direction,
                    price: self.price,
                },
            )),
    {
        // Every time the simple actor acts, it just submits a new order.
        Action::SubmitOrder(
            self.exchange_code.clone(),
            Order {
                counterparty_code: self.counterparty_code.clone(),
                ticker: self.ticker.clone(),
                direction: self.direction,
                price: self.price,
            },
        )
    }

    fn register_action_response(&mut self, _action_response: ActionResponse) {
    }

    fn register_trade(&mut self, _trade: &Trade) {
    }
}

} // verus!
