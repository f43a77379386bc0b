use matching_engine::actors::{Action, Actor, NoopActor, SimpleActor};
use matching_engine::engine::{apply_action, ActionResponse, ExchangeRegistry};
use matching_engine::exchanges::{Exchange, ExchangeCode};
use matching_engine::orders::{
    CompositeOrderId, CounterpartyCode, Order, OrderDirection, OrderId, Price, Ticker,
};

fn order(ticker: &str, direction: OrderDirection, price: u64, party: &str) -> Order {
    Order {
        price: Price(price),
        ticker: Ticker(String::from(ticker)),
        counterparty_code: CounterpartyCode(String::from(party)),
        direction,
    }
}

#[test]
fn submitted_orders_match_into_one_trade() {
    let mut exchange = Exchange::from_exchange_code(ExchangeCode(String::from("NYSE")));
    let first = exchange.submit_order(order("AAPL", OrderDirection::Bid, 100, "ABCD"));
    let second = exchange.submit_order(order("AAPL", OrderDirection::Ask, 100, "EFGH"));
    match first {
        ActionResponse::OrderSubmitted(cid) => {
            assert_eq!(cid.exchange_code, ExchangeCode(String::from("NYSE")));
            assert_eq!(cid.ticker, Ticker(String::from("AAPL")));
            assert_eq!(cid.order_id, OrderId(1));
        },
        _ => panic!("submission must be acknowledged"),
    }
    assert!(matches!(second, ActionResponse::OrderSubmitted(_)));

    let result = exchange.match_orders();
    assert_eq!(result.len(), 1);
    assert_eq!(result[0].0, Ticker(String::from("AAPL")));
    let trades = &result[0].1;
    assert_eq!(trades.len(), 1);
    let trade = &trades[0].1;
    assert_eq!(trade.buyer, CounterpartyCode(String::from("ABCD")));
    assert_eq!(trade.seller, CounterpartyCode(String::from("EFGH")));
    assert_eq!(trade.ticker, Ticker(String::from("AAPL")));
    assert_eq!(trade.price, Price(100));

    let aapl = Ticker(String::from("AAPL"));
    assert_eq!(exchange.order_count(&aapl), 0);
    assert_eq!(exchange.bid_count(&aapl), 0);
    assert_eq!(exchange.ask_count(&aapl), 0);
}

#[test]
fn books_are_created_per_ticker_on_demand() {
    let mut exchange = Exchange::from_exchange_code(ExchangeCode(String::from("NYSE")));
    assert_eq!(exchange.book_count(), 0);
    exchange.submit_order(order("AAPL", OrderDirection::Bid, 100, "ABCD"));
    exchange.submit_order(order("MSFT", OrderDirection::Bid, 200, "ABCD"));
    exchange.submit_order(order("AAPL", OrderDirection::Bid, 300, "EFGH"));
    assert_eq!(exchange.book_count(), 2);
    assert_eq!(exchange.order_count(&Ticker(String::from("AAPL"))), 2);
    assert_eq!(exchange.order_count(&Ticker(String::from("MSFT"))), 1);
    assert_eq!(exchange.order_count(&Ticker(String::from("GOOG"))), 0);
}

#[test]
fn ledger_records_every_trade() {
    let mut exchange = Exchange::from_exchange_code(ExchangeCode(String::from("NYSE")));
    exchange.submit_order(order("AAPL", OrderDirection::Bid, 100, "ABCD"));
    exchange.submit_order(order("AAPL", OrderDirection::Ask, 100, "EFGH"));
    assert_eq!(exchange.ledger_len(), 0);
    exchange.match_orders();
    assert_eq!(exchange.ledger_len(), 1);
    let row = exchange.ledger_at(0);
    assert_eq!(row.0, Ticker(String::from("AAPL")));
    assert_eq!(row.1 .0, 1);
    assert_eq!(row.2.price, Price(100));
    // The ledger is append-only: a later pass with no match adds nothing.
    exchange.match_orders();
    assert_eq!(exchange.ledger_len(), 1);
}

#[test]
fn both_counterparties_are_notified() {
    let mut exchange = Exchange::from_exchange_code(ExchangeCode(String::from("NYSE")));
    exchange.submit_order(order("AAPL", OrderDirection::Bid, 100, "ABCD"));
    exchange.submit_order(order("AAPL", OrderDirection::Ask, 100, "EFGH"));
    exchange.match_orders();
    let notifications = exchange.take_notifications();
    assert_eq!(notifications.len(), 2);
    assert_eq!(notifications[0].0, CounterpartyCode(String::from("ABCD")));
    assert_eq!(notifications[1].0, CounterpartyCode(String::from("EFGH")));
    assert_eq!(notifications[0].1.price, Price(100));
    // Draining empties the queue.
    assert!(exchange.take_notifications().is_empty());
}

#[test]
fn retraction_routes_through_the_exchange() {
    let mut exchange = Exchange::from_exchange_code(ExchangeCode(String::from("NYSE")));
    let submitted = exchange.submit_order(order("AAPL", OrderDirection::Bid, 100, "ABCD"));
    let composite = match submitted {
        ActionResponse::OrderSubmitted(cid) => CompositeOrderId {
            ticker: cid.ticker,
            order_id: cid.order_id,
        },
        _ => panic!("submission must be acknowledged"),
    };
    let retracted = exchange.retract_order(&composite);
    assert!(matches!(retracted, ActionResponse::OrderRetracted(_)));
    assert_eq!(exchange.order_count(&Ticker(String::from("AAPL"))), 0);
    let again = exchange.retract_order(&composite);
    assert!(matches!(again, ActionResponse::OrderNotFound));
    let unknown = exchange.retract_order(
        &CompositeOrderId { ticker: Ticker(String::from("GOOG")), order_id: OrderId(1) },
    );
    assert!(matches!(unknown, ActionResponse::OrderNotFound));
}

#[test]
fn unknown_exchange_code_is_reported() {
    let mut registry = ExchangeRegistry::new();
    registry.add_exchange(Exchange::from_exchange_code(ExchangeCode(String::from("NYSE"))));
    let response = registry.submit_by_exchange_code(
        &ExchangeCode(String::from("LSE")),
        order("AAPL", OrderDirection::Bid, 100, "ABCD"),
    );
    assert!(matches!(response, ActionResponse::ExchangeCodeNotFound));
    let accepted = registry.submit_by_exchange_code(
        &ExchangeCode(String::from("NYSE")),
        order("AAPL", OrderDirection::Bid, 100, "ABCD"),
    );
    assert!(matches!(accepted, ActionResponse::OrderSubmitted(_)));
}

#[test]
fn actions_dispatch_onto_the_registry() {
    let mut registry = ExchangeRegistry::new();
    registry.add_exchange(Exchange::from_exchange_code(ExchangeCode(String::from("NYSE"))));
    assert!(registry.can_accept_orders());

    let noop = apply_action(&mut registry, Action::Noop);
    assert!(matches!(noop, ActionResponse::Noop));

    let submitted = apply_action(
        &mut registry,
        Action::SubmitOrder(
            ExchangeCode(String::from("NYSE")),
            order("AAPL", OrderDirection::Bid, 100, "ABCD"),
        ),
    );
    let composite = match submitted {
        ActionResponse::OrderSubmitted(cid) => CompositeOrderId {
            ticker: cid.ticker,
            order_id: cid.order_id,
        },
        _ => panic!("submission must be acknowledged"),
    };

    let retracted = apply_action(
        &mut registry,
        Action::RetractOrder(ExchangeCode(String::from("NYSE")), composite),
    );
    assert!(matches!(retracted, ActionResponse::OrderRetracted(_)));

    let missing = apply_action(
        &mut registry,
        Action::RetractOrder(
            ExchangeCode(String::from("LSE")),
            CompositeOrderId { ticker: Ticker(String::from("AAPL")), order_id: OrderId(1) },
        ),
    );
    assert!(matches!(missing, ActionResponse::ExchangeCodeNotFound));
}

#[test]
fn registry_runs_one_pass_over_every_exchange() {
    let mut registry = ExchangeRegistry::new();
    registry.add_exchange(Exchange::from_exchange_code(ExchangeCode(String::from("NYSE"))));
    registry.add_exchange(Exchange::from_exchange_code(ExchangeCode(String::from("LSE"))));
    registry.submit_by_exchange_code(
        &ExchangeCode(String::from("NYSE")),
        order("AAPL", OrderDirection::Bid, 100, "ABCD"),
    );
    registry.submit_by_exchange_code(
        &ExchangeCode(String::from("NYSE")),
        order("AAPL", OrderDirection::Ask, 100, "EFGH"),
    );
    assert!(registry.can_match_orders());
    let result = registry.match_orders();
    assert_eq!(result.len(), 2);
    assert_eq!(result[0].0, ExchangeCode(String::from("NYSE")));
    assert_eq!(result[1].0, ExchangeCode(String::from("LSE")));
    assert_eq!(result[0].1[0].1.len(), 1);
    assert!(result[1].1.is_empty());

    let notifications = registry.drain_notifications();
    assert_eq!(notifications.len(), 2);
    assert_eq!(notifications[0].0, CounterpartyCode(String::from("ABCD")));
    assert_eq!(notifications[1].0, CounterpartyCode(String::from("EFGH")));
}

#[test]
fn actors_decide_their_actions() {
    let noop = NoopActor::from(CounterpartyCode(String::from("PQRS")));
    assert!(matches!(noop.act(), Action::Noop));
    assert_eq!(*noop.counterparty_code_as_ref(), CounterpartyCode(String::from("PQRS")));

    let simple = SimpleActor::from((
        ExchangeCode(String::from("NYSE")),
        order("AAPL", OrderDirection::Bid, 100, "ABCD"),
    ));
    match simple.act() {
        Action::SubmitOrder(code, submitted) => {
            assert_eq!(code, ExchangeCode(String::from("NYSE")));
            assert_eq!(submitted.ticker, Ticker(String::from("AAPL")));
            assert_eq!(submitted.price, Price(100));
            assert_eq!(submitted.counterparty_code, CounterpartyCode(String::from("ABCD")));
        },
        _ => panic!("the simple actor always submits"),
    }
    assert_eq!(simple.counterparty_code(), CounterpartyCode(String::from("ABCD")));
}
