//! The exchange: router that owns one order book per instrument, routes
//! submissions, runs matching passes, and keeps the trade ledger and the
//! per-step notification queue.

use vstd::prelude::*;
use crate::engine::ActionResponse;
use crate::orders::{
    add_effect, is_empty_book, match_effect, pass_trades, remove_effect, CompositeOrderId,
    CounterpartyCode, Order, OrderBook, OrderId, Ticker,
};
use crate::trades::{Trade, TradeId};

verus! {

/// Identifier of one exchange within a registry of named exchanges.
#[derive(Debug, Hash)]
pub struct ExchangeCode(pub String);

impl View for ExchangeCode {
    type V = Seq<char>;

    open spec fn view(&self) -> Seq<char> {
        self.0@
    }
}

impl Clone for ExchangeCode {
    fn clone(&self) -> (r: Self)
        ensures
            r == *self,
    {
        ExchangeCode(self.0.clone())
    }
}

impl PartialEq for ExchangeCode {
    fn eq(&self, other: &Self) -> (r: bool) {
        self.0 == other.0
    }
}

impl vstd::std_specs::cmp::PartialEqSpecImpl for ExchangeCode {
    open spec fn obeys_eq_spec() -> bool {
        true
    }

    open spec fn eq_spec(&self, other: &Self) -> bool {
        self.0@ == other.0@
    }
}

/// An order as registered inside a book: the submitted record together with
/// the id the book allocated for it.
#[derive(Debug)]
pub struct ExchangeOrder {
    pub order_id: OrderId,
    pub order: Order,
}

impl Clone for ExchangeOrder {
    fn clone(&self) -> (r: Self)
        ensures
            r == *self,
    {
        ExchangeOrder { order_id: self.order_id, order: self.order.clone() }
    }
}

/// The address of an order across a registry of exchanges: which exchange,
/// which instrument, which per-book order id.
#[derive(Debug)]
pub struct ExchangeCompositeOrderId {
    pub exchange_code: ExchangeCode,
    pub ticker: Ticker,
    pub order_id: OrderId,
}

/// The position of the book for an instrument in an exchange's book list,
/// searching from the front, or -1 when the exchange has no such book yet.
pub open spec fn book_index(books: Seq<OrderBook>, ticker: Seq<char>) -> int
    decreases books.len(),
{
    if books.len() == 0 {
        -1
    } else if books[0].spec_ticker()@ == ticker {
        0
    } else {
        let r = book_index(books.drop_first(), ticker);
        if r == -1 {
            -1
        } else {
            r + 1
        }
    }
}

pub proof fn lemma_book_index(books: Seq<OrderBook>, ticker: Seq<char>)
    ensures
        ({
            let r = book_index(books, ticker);
            &&& -1 <= r < books.len()
            &&& r >= 0 ==> books[r].spec_ticker()@ == ticker
            &&& r == -1 ==> forall|k: int|
                0 <= k < books.len() ==> (#[trigger] books[k]).spec_ticker()@ != ticker
        }),
    decreases books.len(),
{
    if books.len() > 0 {
        lemma_book_index(books.drop_first(), ticker);
        assert(forall|i: int|
            0 <= i < books.len() - 1 ==> #[trigger] books.drop_first()[i] == books[i + 1]);
        let r = book_index(books, ticker);
        if books[0].spec_ticker()@ == ticker {
            assert(r == 0);
        } else {
            let r2 = book_index(books.drop_first(), ticker);
            if r2 == -1 {
                assert(r == -1);
                assert forall|k: int|
                    0 <= k < books.len() implies (#[trigger] books[k]).spec_ticker()@
                    != ticker by {
                    if k > 0 {
                        assert(books.drop_first()[k - 1] == books[k]);
                    }
                }
            } else {
                assert(r == r2 + 1);
                assert(books.drop_first()[r2] == books[r]);
            }
        }
    }
}

pub proof fn lemma_book_index_first(books: Seq<OrderBook>, ticker: Seq<char>, k: int)
    requires
        0 <= k < books.len(),
        books[k].spec_ticker()@ == ticker,
        forall|j: int| 0 <= j < k ==> (#[trigger] books[j]).spec_ticker()@ != ticker,
    ensures
        book_index(books, ticker) == k,
    decreases books.len(),
{
    if k > 0 {
        assert(forall|i: int|
            0 <= i < books.len() - 1 ==> #[trigger] books.drop_first()[i] == books[i + 1]);
        lemma_book_index_first(books.drop_first(), ticker, k - 1);
    }
}

/// The position of the exchange carrying a code in a registry's list,
/// searching from the front, or -1 when no exchange carries it.
pub open spec fn exchange_index(exchanges: Seq<Exchange>, code: Seq<char>) -> int
    decreases exchanges.len(),
{
    if exchanges.len() == 0 {
        -1
    } else if exchanges[0].spec_code()@ == code {
        0
    } else {
        let r = exchange_index(exchanges.drop_first(), code);
        if r == -1 {
            -1
        } else {
            r + 1
        }
    }
}

pub proof fn lemma_exchange_index(exchanges: Seq<Exchange>, code: Seq<char>)
    ensures
        ({
            let r = exchange_index(exchanges, code);
            &&& -1 <= r < exchanges.len()
            &&& r >= 0 ==> exchanges[r].spec_code()@ == code
            &&& r == -1 ==> forall|k: int|
                0 <= k < exchanges.len() ==> (#[trigger] exchanges[k]).spec_code()@ != code
        }),
    decreases exchanges.len(),
{
    if exchanges.len() > 0 {
        lemma_exchange_index(exchanges.drop_first(), code);
        assert(forall|i: int|
            0 <= i < exchanges.len() - 1 ==> #[trigger] exchanges.drop_first()[i] == exchanges[i
                + 1]);
        let r = exchange_index(exchanges, code);
        if exchanges[0].spec_code()@ == code {
            assert(r == 0);
        } else {
            let r2 = exchange_index(exchanges.drop_first(), code);
            if r2 == -1 {
                assert(r == -1);
                assert forall|k: int|
                    0 <= k < exchanges.len() implies (#[trigger] exchanges[k]).spec_code()@
                    != code by {
                    if k > 0 {
                        assert(exchanges.drop_first()[k - 1] == exchanges[k]);
                    }
                }
            } else {
                assert(r == r2 + 1);
                assert(exchanges.drop_first()[r2] == exchanges[r]);
            }
        }
    }
}

pub proof fn lemma_exchange_index_first(exchanges: Seq<Exchange>, code: Seq<char>, k: int)
    requires
        0 <= k < exchanges.len(),
        exchanges[k].spec_code()@ == code,
        forall|j: int| 0 <= j < k ==> (#[trigger] exchanges[j]).spec_code()@ != code,
    ensures
        exchange_index(exchanges, code) == k,
    decreases exchanges.len(),
{
    if k > 0 {
        assert(forall|i: int|
            0 <= i < exchanges.len() - 1 ==> #[trigger] exchanges.drop_first()[i] == exchanges[i
                + 1]);
        lemma_exchange_index_first(exchanges.drop_first(), code, k - 1);
    }
}

/// The ledger rows one book's pass appends: the book's instrument beside
/// each emitted trade, in emission order.
pub open spec fn ledger_rows(ticker: Ticker, trades: Seq<(TradeId, Trade)>) -> Seq<
    (Ticker, TradeId, Trade),
> {
    trades.map(|k: int, tt: (TradeId, Trade)| (ticker, tt.0, tt.1))
}

/// The notification rows one book's pass appends: each trade addressed to
/// its buyer and then to its seller.
pub open spec fn notification_rows(trades: Seq<(TradeId, Trade)>) -> Seq<
    (CounterpartyCode, Trade),
> {
    Seq::new(
        2 * trades.len(),
        |i: int|
            if i % 2 == 0 {
                (trades[i / 2].1.buyer, trades[i / 2].1)
            } else {
                (trades[i / 2].1.seller, trades[i / 2].1)
            },
    )
}

/// All ledger rows a full pass over these books appends, in book order.
pub open spec fn pass_ledger_rows(books: Seq<OrderBook>) -> Seq<(Ticker, TradeId, Trade)>
    decreases books.len(),
{
    if books.len() == 0 {
        Seq::empty()
    } else {
        ledger_rows(books[0].spec_ticker(), pass_trades(books[0])) + pass_ledger_rows(
            books.drop_first(),
        )
    }
}

/// All notification rows a full pass over these books appends.
pub open spec fn pass_notification_rows(books: Seq<OrderBook>) -> Seq<(CounterpartyCode, Trade)>
    decreases books.len(),
{
    if books.len() == 0 {
        Seq::empty()
    } else {
        notification_rows(pass_trades(books[0])) + pass_notification_rows(books.drop_first())
    }
}

/// An exchange: the router owning one order book per instrument, the
/// append-only trade ledger of every pass it ever ran, and the queue of
/// trade notifications not yet drained by the decision layer.
pub struct Exchange {
    #[allow(dead_code)]
    name: String,
    pub code: ExchangeCode,
    /// One order book per ticker.
    order_books: Vec<OrderBook>,
    ledger: Vec<(Ticker, TradeId, Trade)>,
    pending_notifications: Vec<(CounterpartyCode, Trade)>,
}

/// The effect of routing one submission: the book for the order's
/// instrument (created first if absent) stores the order under its next
/// id, and the response addresses the stored order.
pub open spec fn submit_effect(pre: Exchange, post: Exchange, order: Order, r: ActionResponse) -> bool {
    let bi = book_index(pre.books(), order.ticker@);
    &&& post.spec_code() == pre.spec_code()
    &&& post.ledger_entries() == pre.ledger_entries()
    &&& post.notifications() == pre.notifications()
    &&& (bi >= 0 ==> {
        &&& post.books().len() == pre.books().len()
        &&& (forall|k: int|
            0 <= k < pre.books().len() && k != bi ==> post.books()[k] == #[trigger] pre.books()[k])
        &&& add_effect(
            pre.books()[bi],
            post.books()[bi],
            order,
            OrderId((pre.books()[bi].order_counter() + 1) as u32),
        )
        &&& r == (ActionResponse::OrderSubmitted(
            ExchangeCompositeOrderId {
                exchange_code: pre.spec_code(),
                ticker: pre.books()[bi].spec_ticker(),
                order_id: OrderId((pre.books()[bi].order_counter() + 1) as u32),
            },
        ))
    })
    &&& (bi == -1 ==> {
        &&& post.books().len() == pre.books().len() + 1
        &&& (forall|k: int|
            0 <= k < pre.books().len() ==> post.books()[k] == #[trigger] pre.books()[k])
        &&& (exists|b0: OrderBook|
            is_empty_book(b0, order.ticker) && add_effect(
                b0,
                post.books()[pre.books().len() as int],
                order,
                OrderId(1),
            ))
        &&& r == (ActionResponse::OrderSubmitted(
            ExchangeCompositeOrderId {
                exchange_code: pre.spec_code(),
                ticker: order.ticker,
                order_id: OrderId(1),
            },
        ))
    })
}

/// The effect of one full matching pass over an exchange: every book runs
/// one pass; the result lists each book's instrument with its trades; the
/// ledger and the notification queue are extended accordingly.
pub open spec fn exchange_pass_effect(
    pre: Exchange,
    post: Exchange,
    result: Seq<(Ticker, Vec<(TradeId, Trade)>)>,
) -> bool {
    &&& post.spec_code() == pre.spec_code()
    &&& post.books().len() == pre.books().len()
    &&& (forall|k: int|
        0 <= k < pre.books().len() ==> match_effect(
            #[trigger] pre.books()[k],
            post.books()[k],
            pass_trades(pre.books()[k]),
        ))
    &&& result.len() == pre.books().len()
    &&& (forall|k: int|
        0 <= k < pre.books().len() ==> (#[trigger] result[k]).0 == pre.books()[k].spec_ticker()
            && result[k].1@ == pass_trades(pre.books()[k]))
    &&& post.ledger_entries() == pre.ledger_entries() + pass_ledger_rows(pre.books())
    &&& post.notifications() == pre.notifications() + pass_notification_rows(pre.books())
}

/// The effect of routing one retraction: when the instrument has a book
/// and the id rests in it, the order leaves the book and the response
/// addresses it; otherwise nothing changes and the response is the typed
/// not-found answer.
pub open spec fn retract_effect(
    pre: Exchange,
    post: Exchange,
    composite: CompositeOrderId,
    r: ActionResponse,
) -> bool {
    let bi = book_index(pre.books(), composite.ticker@);
    &&& post.spec_code() == pre.spec_code()
    &&& post.ledger_entries() == pre.ledger_entries()
    &&& post.notifications() == pre.notifications()
    &&& (bi == -1 ==> post.books() == pre.books() && r == ActionResponse::OrderNotFound)
    &&& (bi >= 0 ==> {
        let found = pre.books()[bi].registry().contains_key(composite.order_id.0);
        &&& post.books().len() == pre.books().len()
        &&& (forall|k: int|
            0 <= k < pre.books().len() && k != bi ==> post.books()[k] == #[trigger] pre.books()[k])
        &&& remove_effect(
            pre.books()[bi],
            post.books()[bi],
            composite.order_id,
            if found {
                Some(pre.books()[bi].registry()[composite.order_id.0])
            } else {
                None
            },
        )
        &&& (found ==> r == (ActionResponse::OrderRetracted(
            ExchangeCompositeOrderId {
                exchange_code: pre.spec_code(),
                ticker: pre.books()[bi].spec_ticker(),
                order_id: composite.order_id,
            },
        )))
        &&& (!found ==> r == ActionResponse::OrderNotFound)
    })
}

impl Exchange {
    /// The exchange's books, in creation order.
    pub closed spec fn books(self) -> Seq<OrderBook> {
        self.order_books@
    }

    /// The exchange's own identity.
    pub closed spec fn spec_code(self) -> ExchangeCode {
        self.code
    }

    /// The append-only trade ledger: instrument, trade id, trade.
    pub closed spec fn ledger_entries(self) -> Seq<(Ticker, TradeId, Trade)> {
        self.ledger@
    }

    /// Notifications queued for the decision layer and not yet drained.
    pub closed spec fn notifications(self) -> Seq<(CounterpartyCode, Trade)> {
        self.pending_notifications@
    }

    /// Every book is well formed and no two books share an instrument.
    pub open spec fn wf(self) -> bool {
        &&& forall|k: int| 0 <= k < self.books().len() ==> (#[trigger] self.books()[k]).wf()
        &&& forall|k1: int, k2: int|
            0 <= k1 < k2 < self.books().len() ==> (#[trigger] self.books()[k1]).spec_ticker()@
                != (#[trigger] self.books()[k2]).spec_ticker()@
    }

    /// An exchange with no books, no ledger rows and no pending
    /// notifications, named after its code.
    pub fn from_exchange_code(code: ExchangeCode) -> (r: Self)
        ensures
            r.wf(),
            r.spec_code() == code,
            r.books() == Seq::<OrderBook>::empty(),
            r.ledger_entries() == Seq::<(Ticker, TradeId, Trade)>::empty(),
            r.notifications() == Seq::<(CounterpartyCode, Trade)>::empty(),
    {
        Self {
            name: code.0.clone(),
            code,
            order_books: Vec::new(),
            ledger: Vec::new(),
            pending_notifications: Vec::new(),
        }
    }

    /// Find the position of the book for an instrument.
    #[verifier::loop_isolation(false)]
    fn find_book_index(&self, ticker: &Ticker) -> (r: Option<usize>)
        ensures
            match r {
                Some(k) => k < self.books().len() && book_index(self.books(), ticker@) == k as int,
                None => book_index(self.books(), ticker@) == -1,
            },
    {
        let n = self.order_books.len();
        let mut k: usize = 0;
        while k < n
            invariant
                k <= n,
                forall|j: int|
                    0 <= j < k ==> (#[trigger] self.books()[j]).spec_ticker()@ != ticker@,
            decreases n - k,
        {
            let b = &self.order_books[k];
            if b.ticker().eq(ticker) {
                proof {
                    lemma_book_index_first(self.books(), ticker@, k as int);
                }
                return Some(k);
            }
            k += 1;
        }
        proof {
            lemma_book_index(self.books(), ticker@);
            if book_index(self.books(), ticker@) >= 0 {
                assert(false);
            }
        }
        None
    }

    /// Route one submission: find the book for the order's instrument,
    /// creating it on first reference, and store the order there. Cannot
    /// fail on an unknown ticker.
    pub fn submit_order(&mut self, order: Order) -> (r: ActionResponse)
        requires
            old(self).wf(),
            forall|k: int|
                0 <= k < old(self).books().len() ==> (#[trigger] old(
                    self,
                ).books()[k]).order_counter() < u32::MAX,
        ensures
            final(self).wf(),
            submit_effect(*old(self), *final(self), order, r),
    {
        proof {
            lemma_book_index(old(self).books(), order.ticker@);
        }
        match self.find_book_index(&order.ticker) {
            Some(bi) => {
                let ghost books0 = self.order_books@;
                let mut book = self.order_books.remove(bi);
                let composite_id = book.add_order(order);
                self.order_books.insert(bi, book);
                proof {
                    assert(self.order_books@ =~= books0.update(bi as int, self.order_books@[bi as int]));
                }
                ActionResponse::OrderSubmitted(
                    ExchangeCompositeOrderId {
                        exchange_code: self.code.clone(),
                        ticker: composite_id.ticker,
                        order_id: composite_id.order_id,
                    },
                )
            },
            None => {
                let new_book = OrderBook::new(order.ticker.clone());
                let ghost b0 = new_book;
                let mut book = new_book;
                let composite_id = book.add_order(order);
                self.order_books.push(book);
                proof {
                    assert(is_empty_book(b0, order.ticker));
                    assert(add_effect(
                        b0,
                        self.books()[old(self).books().len() as int],
                        order,
                        OrderId(1),
                    ));
                }
                ActionResponse::OrderSubmitted(
                    ExchangeCompositeOrderId {
                        exchange_code: self.code.clone(),
                        ticker: composite_id.ticker,
                        order_id: composite_id.order_id,
                    },
                )
            },
        }
    }

    /// Run one matching pass over every book. Each book's trades are
    /// returned under its instrument, appended to the exchange's ledger,
    /// and queued for delivery to both counterparties of every trade.
    #[verifier::loop_isolation(false)]
    pub fn match_orders(&mut self) -> (result: Vec<(Ticker, Vec<(TradeId, Trade)>)>)
        requires
            old(self).wf(),
            forall|k: int|
                0 <= k < old(self).books().len() ==> (#[trigger] old(
                    self,
                ).books()[k]).trade_counter() + old(self).books()[k].bids().len() <= u32::MAX,
        ensures
            final(self).wf(),
            exchange_pass_effect(*old(self), *final(self), result@),
    {
        let ghost books0 = self.books();
        let ghost led0 = self.ledger_entries();
        let ghost not0 = self.notifications();
        proof {
            assert(books0.skip(0) =~= books0);
        }
        let mut result: Vec<(Ticker, Vec<(TradeId, Trade)>)> = Vec::new();
        let n_books = self.order_books.len();
        let mut k: usize = 0;
        while k < n_books
            invariant
                k <= n_books,
                self.order_books@.len() == n_books,
                forall|j: int| k <= j < n_books ==> #[trigger] self.books()[j] == books0[j],
                forall|j: int|
                    0 <= j < k ==> match_effect(
                        #[trigger] books0[j],
                        self.books()[j],
                        pass_trades(books0[j]),
                    ),
                forall|j: int| 0 <= j < k ==> (#[trigger] self.books()[j]).wf(),
                result@.len() == k,
                forall|j: int|
                    0 <= j < k ==> (#[trigger] result@[j]).0 == books0[j].spec_ticker()
                        && result@[j].1@ == pass_trades(books0[j]),
                self.ledger_entries() + pass_ledger_rows(books0.skip(k as int)) == led0
                    + pass_ledger_rows(books0),
                self.notifications() + pass_notification_rows(books0.skip(k as int)) == not0
                    + pass_notification_rows(books0),
                self.spec_code() == old(self).spec_code(),
            decreases n_books - k,
        {
            let ghost books_pre = self.order_books@;
            proof {
                assert(self.books()[k as int] == books0[k as int]);
            }
            let mut book = self.order_books.remove(k);
            proof {
                assert(book == books0[k as int]);
            }
            let trades = book.match_orders();
            let tkr = book.ticker().clone();
            self.order_books.insert(k, book);
            let ghost books_mid = self.order_books@;
            proof {
                assert(books_mid =~= books_pre.update(k as int, books_mid[k as int]));
                assert(books0.skip(k as int)[0] == books0[k as int]);
                assert(books0.skip(k as int).drop_first() =~= books0.skip(k as int + 1));
            }

            let ghost led_base = self.ledger_entries();
            let ghost not_base = self.notifications();
            let ghost row_src = trades@;
            proof {
                assert(ledger_rows(books0[k as int].spec_ticker(), row_src).take(0)
                    =~= Seq::<(Ticker, TradeId, Trade)>::empty());
                assert(notification_rows(row_src).take(0)
                    =~= Seq::<(CounterpartyCode, Trade)>::empty());
                assert(led_base + ledger_rows(books0[k as int].spec_ticker(), row_src).take(0)
                    =~= led_base);
                assert(not_base + notification_rows(row_src).take(0) =~= not_base);
            }
            let n_tr = trades.len();
            let mut m: usize = 0;
            while m < n_tr
                invariant
                    m <= n_tr,
                    n_tr == row_src.len(),
                    trades@ == row_src,
                    self.order_books@ == books_mid,
                    self.spec_code() == old(self).spec_code(),
                    self.ledger_entries() == led_base + ledger_rows(
                        books0[k as int].spec_ticker(),
                        row_src,
                    ).take(m as int),
                    self.notifications() == not_base + notification_rows(row_src).take(
                        2 * m as int,
                    ),
                decreases n_tr - m,
            {
                let e = &trades[m];
                let tid = e.0;
                self.ledger.push((tkr.clone(), tid, e.1.clone()));
                self.pending_notifications.push((e.1.buyer.clone(), e.1.clone()));
                self.pending_notifications.push((e.1.seller.clone(), e.1.clone()));
                proof {
                    let t_val = books0[k as int].spec_ticker();
                    assert(tkr == t_val);
                    assert(ledger_rows(t_val, row_src)[m as int] == (t_val, row_src[m as int].0,
                        row_src[m as int].1));
                    assert(ledger_rows(t_val, row_src).take(m as int + 1) =~= ledger_rows(
                        t_val,
                        row_src,
                    ).take(m as int).push(ledger_rows(t_val, row_src)[m as int]));
                    assert(self.ledger_entries() =~= led_base + ledger_rows(t_val, row_src).take(
                        m as int + 1,
                    ));
                    assert(notification_rows(row_src)[2 * m as int] == (row_src[m as int].1.buyer,
                        row_src[m as int].1));
                    assert(notification_rows(row_src)[2 * m as int + 1] == (
                        row_src[m as int].1.seller,
                        row_src[m as int].1,
                    ));
                    assert(notification_rows(row_src).take(2 * (m as int + 1))
                        =~= notification_rows(row_src).take(2 * m as int).push(
                        notification_rows(row_src)[2 * m as int],
                    ).push(notification_rows(row_src)[2 * m as int + 1]));
                    assert(self.notifications() =~= not_base + notification_rows(row_src).take(
                        2 * (m as int + 1),
                    ));
                }
                m += 1;
            }
            result.push((tkr, trades));
            proof {
                let t_val = books0[k as int].spec_ticker();
                assert(ledger_rows(t_val, row_src).take(n_tr as int) =~= ledger_rows(
                    t_val,
                    row_src,
                ));
                assert(notification_rows(row_src).take(2 * n_tr as int) =~= notification_rows(
                    row_src,
                ));
                assert(row_src == pass_trades(books0[k as int]));
                // One unfolding of the whole-pass rows at this book.
                assert(pass_ledger_rows(books0.skip(k as int)) == ledger_rows(t_val, row_src)
                    + pass_ledger_rows(books0.skip(k as int + 1)));
                assert(pass_notification_rows(books0.skip(k as int)) == notification_rows(row_src)
                    + pass_notification_rows(books0.skip(k as int + 1)));
                assert((led_base + ledger_rows(t_val, row_src)) + pass_ledger_rows(
                    books0.skip(k as int + 1),
                ) =~= led_base + (ledger_rows(t_val, row_src) + pass_ledger_rows(
                    books0.skip(k as int + 1),
                )));
                assert((not_base + notification_rows(row_src)) + pass_notification_rows(
                    books0.skip(k as int + 1),
                ) =~= not_base + (notification_rows(row_src) + pass_notification_rows(
                    books0.skip(k as int + 1),
                )));
            }
            k += 1;
        }
        proof {
            assert(books0.skip(n_books as int) =~= Seq::<OrderBook>::empty());
            assert(pass_ledger_rows(books0.skip(n_books as int)) =~= Seq::<
                (Ticker, TradeId, Trade),
            >::empty());
            assert(pass_notification_rows(books0.skip(n_books as int)) =~= Seq::<
                (CounterpartyCode, Trade),
            >::empty());
            assert(self.ledger_entries() + Seq::<(Ticker, TradeId, Trade)>::empty()
                =~= self.ledger_entries());
            assert(self.notifications() + Seq::<(CounterpartyCode, Trade)>::empty()
                =~= self.notifications());
            assert forall|k1: int, k2: int|
                0 <= k1 < k2 < self.books().len() implies (
            #[trigger] self.books()[k1]).spec_ticker()@ != (
            #[trigger] self.books()[k2]).spec_ticker()@ by {
                assert(match_effect(books0[k1], self.books()[k1], pass_trades(books0[k1])));
                assert(match_effect(books0[k2], self.books()[k2], pass_trades(books0[k2])));
            }
        }
        result
    }

    /// Route one retraction through the same atomic removal path matching
    /// uses. Unknown instruments and absent ids are normal outcomes,
    /// answered with the typed not-found response.
    pub fn retract_order(&mut self, composite: &CompositeOrderId) -> (r: ActionResponse)
        requires
            old(self).wf(),
        ensures
            final(self).wf(),
            retract_effect(*old(self), *final(self), *composite, r),
    {
        proof {
            lemma_book_index(old(self).books(), composite.ticker@);
        }
        match self.find_book_index(&composite.ticker) {
            Some(bi) => {
                let ghost books0 = self.order_books@;
                let mut book = self.order_books.remove(bi);
                let removed = book.remove_order(composite.order_id);
                let response = match removed {
                    Some(_eo) => ActionResponse::OrderRetracted(
                        ExchangeCompositeOrderId {
                            exchange_code: self.code.clone(),
                            ticker: book.ticker().clone(),
                            order_id: composite.order_id,
                        },
                    ),
                    None => ActionResponse::OrderNotFound,
                };
                self.order_books.insert(bi, book);
                proof {
                    assert(self.order_books@ =~= books0.update(
                        bi as int,
                        self.order_books@[bi as int],
                    ));
                }
                response
            },
            None => {
                ActionResponse::OrderNotFound
            },
        }
    }

    /// Hand over every queued trade notification, leaving the queue empty.
    /// The caller is responsible for delivering each row to its named
    /// counterparty before the step is considered finished.
    pub fn take_notifications(&mut self) -> (r: Vec<(CounterpartyCode, Trade)>)
        ensures
            r@ == old(self).notifications(),
            final(self).notifications() == Seq::<(CounterpartyCode, Trade)>::empty(),
            final(self).books() == old(self).books(),
            final(self).ledger_entries() == old(self).ledger_entries(),
            final(self).spec_code() == old(self).spec_code(),
    {
        let mut out: Vec<(CounterpartyCode, Trade)> = Vec::new();
        std::mem::swap(&mut out, &mut self.pending_notifications);
        out
    }

    /// The exchange's identity code.
    pub fn exchange_code(&self) -> (r: &ExchangeCode)
        ensures
            *r == self.spec_code(),
    {
        &self.code
    }

    /// How many books the exchange has created.
    pub fn book_count(&self) -> (r: usize)
        ensures
            r == self.books().len(),
    {
        self.order_books.len()
    }

    /// How many orders rest in the registry of one instrument's book.
    pub fn order_count(&self, ticker: &Ticker) -> (r: usize)
        ensures
            book_index(self.books(), ticker@) >= 0 ==> r == self.books()[book_index(
                self.books(),
                ticker@,
            )].registry().len(),
            book_index(self.books(), ticker@) == -1 ==> r == 0,
    {
        match self.find_book_index(ticker) {
            Some(bi) => {
                let b = &self.order_books[bi];
                b.order_count()
            },
            None => 0,
        }
    }

    /// How many orders rest on one instrument's bid side.
    pub fn bid_count(&self, ticker: &Ticker) -> (r: usize)
        ensures
            book_index(self.books(), ticker@) >= 0 ==> r == self.books()[book_index(
                self.books(),
                ticker@,
            )].bids().len(),
            book_index(self.books(), ticker@) == -1 ==> r == 0,
    {
        match self.find_book_index(ticker) {
            Some(bi) => {
                let b = &self.order_books[bi];
                b.bid_count()
            },
            None => 0,
        }
    }

    /// How many orders rest on one instrument's ask side.
    pub fn ask_count(&self, ticker: &Ticker) -> (r: usize)
        ensures
            book_index(self.books(), ticker@) >= 0 ==> r == self.books()[book_index(
                self.books(),
                ticker@,
            )].asks().len(),
            book_index(self.books(), ticker@) == -1 ==> r == 0,
    {
        match self.find_book_index(ticker) {
            Some(bi) => {
                let b = &self.order_books[bi];
                b.ask_count()
            },
            None => 0,
        }
    }

    /// How many rows the trade ledger holds.
    pub fn ledger_len(&self) -> (r: usize)
        ensures
            r == self.ledger_entries().len(),
    {
        self.ledger.len()
    }

    /// One row of the trade ledger.
    pub fn ledger_at(&self, k: usize) -> (r: &(Ticker, TradeId, Trade))
        requires
            k < self.ledger_entries().len(),
        ensures
            *r == self.ledger_entries()[k as int],
    {
        &self.ledger[k]
    }

    /// Whether every book can still allocate an order id.
    #[verifier::loop_isolation(false)]
    pub fn can_accept_orders(&self) -> (r: bool)
        ensures
            r == (forall|k: int|
                0 <= k < self.books().len() ==> (#[trigger] self.books()[k]).order_counter()
                    < u32::MAX),
    {
        let n = self.order_books.len();
        let mut k: usize = 0;
        while k < n
            invariant
                k <= n,
                forall|j: int|
                    0 <= j < k ==> (#[trigger] self.books()[j]).order_counter() < u32::MAX,
            decreases n - k,
        {
            let b = &self.order_books[k];
            if !b.can_accept_order() {
                proof {
                    if forall|j: int|
                        0 <= j < self.books().len() ==> (#[trigger] self.books()[j]).order_counter()
                            < u32::MAX {
                        assert(self.books()[k as int].order_counter() < u32::MAX);
                        assert(false);
                    }
                }
                return false;
            }
            k += 1;
        }
        true
    }

    /// Whether every book has trade-id headroom for a full matching pass.
    #[verifier::loop_isolation(false)]
    pub fn can_match_orders(&self) -> (r: bool)
        ensures
            r == (forall|k: int|
                0 <= k < self.books().len() ==> (#[trigger] self.books()[k]).trade_counter()
                    + self.books()[k].bids().len() <= u32::MAX),
    {
        let n = self.order_books.len();
        let mut k: usize = 0;
        while k < n
            invariant
                k <= n,
                forall|j: int|
                    0 <= j < k ==> (#[trigger] self.books()[j]).trade_counter()
                        + self.books()[j].bids().len() <= u32::MAX,
            decreases n - k,
        {
            let b = &self.order_books[k];
            if !b.can_match() {
                proof {
                    if forall|j: int|
                        0 <= j < self.books().len() ==> (#[trigger] self.books()[j]).trade_counter()
                            + self.books()[j].bids().len() <= u32::MAX {
                        assert(self.books()[k as int].trade_counter()
                            + self.books()[k as int].bids().len() <= u32::MAX);
                        assert(false);
                    }
                }
                return false;
            }
            k += 1;
        }
        true
    }
}

} // verus!
