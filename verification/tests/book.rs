use matching_engine::order_collections::OrderCollection;
use matching_engine::orders::{
    CounterpartyCode, Order, OrderBook, OrderDirection, OrderId, Price, Ticker,
};
use matching_engine::exchanges::ExchangeOrder;

fn order(ticker: &str, direction: OrderDirection, price: u64, party: &str) -> Order {
    Order {
        price: Price(price),
        ticker: Ticker(String::from(ticker)),
        counterparty_code: CounterpartyCode(String::from(party)),
        direction,
    }
}

fn exchange_order(id: u32, ticker: &str, direction: OrderDirection, price: u64) -> ExchangeOrder {
    ExchangeOrder { order_id: OrderId(id), order: order(ticker, direction, price, "ABCD") }
}

#[test]
fn order_ids_strictly_increase() {
    let mut book = OrderBook::new(Ticker(String::from("AAPL")));
    let id1 = book.add_order(order("AAPL", OrderDirection::Bid, 100, "ABCD"));
    let id2 = book.add_order(order("AAPL", OrderDirection::Ask, 200, "EFGH"));
    let id3 = book.add_order(order("AAPL", OrderDirection::Bid, 300, "IJKL"));
    assert_eq!(id1.order_id, OrderId(1));
    assert_eq!(id2.order_id, OrderId(2));
    assert_eq!(id3.order_id, OrderId(3));
    assert!(id1.order_id.0 < id2.order_id.0 && id2.order_id.0 < id3.order_id.0);
}

#[test]
fn bid_add_touches_only_bid_index() {
    let mut book = OrderBook::new(Ticker(String::from("AAPL")));
    let composite = book.add_order(order("AAPL", OrderDirection::Bid, 150, "ABCD"));
    assert_eq!(book.bid_count(), 1);
    assert_eq!(book.ask_count(), 0);
    assert_eq!(book.order_count(), 1);
    let stored = book.get_order(composite.order_id).expect("order should be registered");
    assert_eq!(stored.order_id, composite.order_id);
    assert_eq!(stored.order.price, Price(150));
}

#[test]
fn remove_after_insert_round_trip() {
    let mut side = OrderCollection::new(OrderDirection::Ask);
    side.insert(exchange_order(7, "AAPL", OrderDirection::Ask, 250));
    let removed = side.remove(OrderId(7)).expect("id 7 was just inserted");
    assert_eq!(removed.price, Price(250));
    assert_eq!(removed.id, OrderId(7));
    assert!(side.remove(OrderId(7)).is_none());
}

#[test]
fn equal_prices_match_once() {
    let mut book = OrderBook::new(Ticker(String::from("AAPL")));
    let bid = book.add_order(order("AAPL", OrderDirection::Bid, 100, "ABCD"));
    let ask = book.add_order(order("AAPL", OrderDirection::Ask, 100, "EFGH"));
    let trades = book.match_orders();
    assert_eq!(trades.len(), 1);
    assert_eq!(trades[0].1.price, Price(100));
    assert_eq!(trades[0].1.buyer, CounterpartyCode(String::from("ABCD")));
    assert_eq!(trades[0].1.seller, CounterpartyCode(String::from("EFGH")));
    assert_eq!(book.order_count(), 0);
    assert_eq!(book.bid_count(), 0);
    assert_eq!(book.ask_count(), 0);
    assert!(book.get_order(bid.order_id).is_none());
    assert!(book.get_order(ask.order_id).is_none());
}

#[test]
fn unequal_prices_do_not_match() {
    let mut book = OrderBook::new(Ticker(String::from("AAPL")));
    let bid = book.add_order(order("AAPL", OrderDirection::Bid, 100, "ABCD"));
    let ask = book.add_order(order("AAPL", OrderDirection::Ask, 200, "EFGH"));
    let trades = book.match_orders();
    assert!(trades.is_empty());
    assert_eq!(book.order_count(), 2);
    assert_eq!(book.bid_count(), 1);
    assert_eq!(book.ask_count(), 1);
    assert!(book.get_order(bid.order_id).is_some());
    assert!(book.get_order(ask.order_id).is_some());
}

#[test]
fn matching_is_deterministic() {
    let build = || {
        let mut book = OrderBook::new(Ticker(String::from("AAPL")));
        book.add_order(order("AAPL", OrderDirection::Bid, 100, "ABCD"));
        book.add_order(order("AAPL", OrderDirection::Bid, 300, "MNOP"));
        book.add_order(order("AAPL", OrderDirection::Ask, 100, "EFGH"));
        book.add_order(order("AAPL", OrderDirection::Ask, 300, "QRST"));
        book.add_order(order("AAPL", OrderDirection::Ask, 300, "UVWX"));
        book
    };
    let mut book1 = build();
    let mut book2 = build();
    let trades1 = book1.match_orders();
    let trades2 = book2.match_orders();
    assert_eq!(trades1, trades2);
    assert_eq!(trades1.len(), 2);
}

#[test]
fn empty_book_matches_nothing() {
    let mut book = OrderBook::new(Ticker(String::from("AAPL")));
    assert!(book.match_orders().is_empty());
    assert_eq!(book.order_count(), 0);
}

#[test]
fn ask_side_keeps_ascending_price_order() {
    let mut side = OrderCollection::new(OrderDirection::Ask);
    side.insert(exchange_order(1, "AAPL", OrderDirection::Ask, 100));
    side.insert(exchange_order(2, "AAPL", OrderDirection::Ask, 350));
    side.insert(exchange_order(3, "AAPL", OrderDirection::Ask, 200));
    side.insert(exchange_order(4, "AAPL", OrderDirection::Ask, 300));
    assert_eq!(side.len(), 4);
    let mut prices: Vec<u64> = Vec::new();
    for k in 0..side.len() {
        prices.push(side.get(k).price.0);
    }
    assert_eq!(prices, vec![100, 200, 300, 350]);
}

#[test]
fn price_ties_keep_id_order() {
    let mut side = OrderCollection::new(OrderDirection::Bid);
    side.insert(exchange_order(5, "AAPL", OrderDirection::Bid, 200));
    side.insert(exchange_order(2, "AAPL", OrderDirection::Bid, 200));
    side.insert(exchange_order(9, "AAPL", OrderDirection::Bid, 100));
    let mut ids: Vec<u32> = Vec::new();
    for k in 0..side.len() {
        ids.push(side.get(k).id.0);
    }
    assert_eq!(ids, vec![9, 2, 5]);
}

#[test]
fn equal_priced_asks_match_highest_id_first() {
    let mut book = OrderBook::new(Ticker(String::from("AAPL")));
    book.add_order(order("AAPL", OrderDirection::Ask, 100, "EFGH"));
    book.add_order(order("AAPL", OrderDirection::Ask, 100, "IJKL"));
    book.add_order(order("AAPL", OrderDirection::Bid, 100, "ABCD"));
    let trades = book.match_orders();
    assert_eq!(trades.len(), 1);
    // The ask side is scanned from the top down, so among equally priced
    // asks the one with the larger id is taken.
    assert_eq!(trades[0].1.seller, CounterpartyCode(String::from("IJKL")));
    assert_eq!(book.ask_count(), 1);
    assert_eq!(book.bid_count(), 0);
}

#[test]
fn trade_ids_increase_across_passes() {
    let mut book = OrderBook::new(Ticker(String::from("AAPL")));
    book.add_order(order("AAPL", OrderDirection::Bid, 100, "ABCD"));
    book.add_order(order("AAPL", OrderDirection::Ask, 100, "EFGH"));
    let first = book.match_orders();
    book.add_order(order("AAPL", OrderDirection::Bid, 100, "ABCD"));
    book.add_order(order("AAPL", OrderDirection::Ask, 100, "EFGH"));
    let second = book.match_orders();
    assert_eq!(first[0].0 .0, 1);
    assert_eq!(second[0].0 .0, 2);
}

#[test]
fn remove_order_cancels_one_resting_order() {
    let mut book = OrderBook::new(Ticker(String::from("AAPL")));
    let bid = book.add_order(order("AAPL", OrderDirection::Bid, 100, "ABCD"));
    book.add_order(order("AAPL", OrderDirection::Ask, 200, "EFGH"));
    let removed = book.remove_order(bid.order_id).expect("the bid is resting");
    assert_eq!(removed.order_id, bid.order_id);
    assert_eq!(removed.order.price, Price(100));
    assert!(book.remove_order(bid.order_id).is_none());
    assert_eq!(book.order_count(), 1);
    assert_eq!(book.bid_count(), 0);
    assert_eq!(book.ask_count(), 1);
}
