//! The market: symbols, one order book per symbol, and the live orders of
//! all symbols. Every operation finds the book of its symbol and runs the
//! engine of that symbol; the other books stay as they are.
use std::collections::HashMap;
use vstd::prelude::*;

use crate::consistency::{
    book_ok, changes_only, engine_ok, lemma_book_ok_frame, lemma_changes_only_agree, orders_live,
    side_ok, placed,
};
use crate::engine::{no_new_orders, only_executed, reduced_by, stops_kept, ExecutionContext};
use crate::operations::{
    limit_added, market_added, order_deleted, order_executed, order_modified, order_reduced,
    market_matched, order_replaced, rested, stop_added, stop_limit_added,
};
use crate::activation::{activated_upto, activation_trace, as_limit, as_market, book_matched, next_trailing_price, stop_rounds, stop_triggered};
use crate::matching::matched;
use crate::engine::{limit_sides_same};
use crate::volumes::stop_volume;
use crate::order::{ErrorCode, Order, OrderType};
use crate::order_book::{kind_of, key_of, BookKind, OrderBook};
use crate::orders::Orders;

verus! {

broadcast use vstd::std_specs::hash::group_hash_axioms;

/// The order books of a market, by symbol.
pub struct OBMap {
    pub books: HashMap<u64, OrderBook>,
}

impl View for OBMap {
    type V = Map<u64, OrderBook>;

    open spec fn view(&self) -> Map<u64, OrderBook> {
        self.books@
    }
}

impl OBMap {
    /// No order books.
    pub fn new() -> (m: OBMap)
        ensures
            m@ == Map::<u64, OrderBook>::empty(),
    {
        OBMap { books: HashMap::new() }
    }

    /// Whether there is an order book for `symbol`.
    pub fn contains(&self, symbol: u64) -> (b: bool)
        ensures
            b == self@.contains_key(symbol),
    {
        self.books.contains_key(&symbol)
    }

    /// Adds `order_book` for `symbol`; fails with `OrderBookDuplicate`,
    /// changing nothing, when the symbol has one.
    pub fn add_order_book(&mut self, symbol: u64, order_book: OrderBook) -> (r: Result<(), ErrorCode>)
        ensures
            old(self)@.contains_key(symbol) ==> r == Err::<(), ErrorCode>(ErrorCode::OrderBookDuplicate)
                && final(self)@ == old(self)@,
            !old(self)@.contains_key(symbol) ==> r is Ok && final(self)@ == old(self)@.insert(
                symbol,
                order_book,
            ),
    {
        if self.books.contains_key(&symbol) {
            Err(ErrorCode::OrderBookDuplicate)
        } else {
            self.books.insert(symbol, order_book);
            Ok(())
        }
    }

    /// The order book of `symbol`.
    pub fn get_order_book(&self, symbol: &u64) -> (r: Result<&OrderBook, ErrorCode>)
        ensures
            match r {
                Ok(b) => self@.contains_key(*symbol) && *b == self@[*symbol],
                Err(e) => !self@.contains_key(*symbol) && e == ErrorCode::OrderBookNotFound,
            },
    {
        match self.books.get(symbol) {
            Some(b) => Ok(b),
            None => Err(ErrorCode::OrderBookNotFound),
        }
    }

    /// Removes and returns the order book of `symbol`.
    pub fn remove_order_book(&mut self, symbol: &u64) -> (r: Result<OrderBook, ErrorCode>)
        ensures
            match r {
                Ok(b) => old(self)@.contains_key(*symbol) && b == old(self)@[*symbol] && final(self)@
                    == old(self)@.remove(*symbol),
                Err(e) => !old(self)@.contains_key(*symbol) && e == ErrorCode::OrderBookNotFound
                    && final(self)@ == old(self)@,
            },
    {
        match self.books.remove(symbol) {
            Some(b) => Ok(b),
            None => Err(ErrorCode::OrderBookNotFound),
        }
    }
}

/// A tradable symbol.
#[derive(Clone, Copy, Debug)]
pub struct Symbol {
    pub id: u64,
    pub name: [char; 8],
}

impl Symbol {
    /// The symbol `id` named `name`.
    pub fn new(id: u64, name: [char; 8]) -> (s: Symbol)
        ensures
            s.id == id,
            s.name == name,
    {
        Symbol { id, name }
    }
}

/// The position of the first symbol with the given id.
pub open spec fn symbol_index(symbols: Seq<Symbol>, id: u64) -> int
    decreases symbols.len(),
{
    if symbols.len() == 0 {
        -1
    } else if symbols.last().id == id && symbol_index(symbols.drop_last(), id) < 0 {
        symbols.len() - 1
    } else {
        symbol_index(symbols.drop_last(), id)
    }
}

/// Whether some symbol has the given id.
pub open spec fn has_symbol(symbols: Seq<Symbol>, id: u64) -> bool {
    exists|i: int| 0 <= i < symbols.len() && (#[trigger] symbols[i]).id == id
}

/// The first symbol with id `id`, if any.
pub fn find_symbol_by_id(symbols: &Vec<Symbol>, id: u64) -> (r: Option<Symbol>)
    ensures
        match r {
            Some(s) => s.id == id && exists|i: int|
                0 <= i < symbols@.len() && symbols@[i] == s && forall|j: int|
                    0 <= j < i ==> (#[trigger] symbols@[j]).id != id,
            None => !has_symbol(symbols@, id),
        },
{
    let mut i: usize = 0;
    while i < symbols.len()
        invariant
            i <= symbols@.len(),
            forall|j: int| 0 <= j < i ==> (#[trigger] symbols@[j]).id != id,
        decreases symbols@.len() - i,
    {
        if symbols[i].id == id {
            return Some(symbols[i]);
        }
        i = i + 1;
    }
    None
}

/// The books agree with the live orders of their symbols, and every live
/// order has the book of its symbol.
pub open spec fn market_ok(books: Map<u64, OrderBook>, orders: Map<u64, Order>) -> bool {
    &&& orders_live(orders)
    &&& forall|s: u64| #[trigger] books.contains_key(s) ==> book_ok(books[s], s, orders)
    &&& forall|id: u64| #[trigger] orders.contains_key(id) ==> books.contains_key(orders[id].symbol_id)
}

/// Putting back the book of `s` after its engine changed only orders of
/// `s` keeps the market in agreement.
pub proof fn lemma_market_restore(
    books: Map<u64, OrderBook>,
    orders1: Map<u64, Order>,
    s: u64,
    book2: OrderBook,
    orders2: Map<u64, Order>,
)
    requires
        market_ok(books, orders1),
        books.contains_key(s),
        engine_ok(book2, s, orders2),
        changes_only(orders1, orders2, s),
    ensures
        market_ok(books.insert(s, book2), orders2),
{
    let b2 = books.insert(s, book2);
    assert forall|t: u64| #[trigger] b2.contains_key(t) implies book_ok(b2[t], t, orders2) by {
        if t != s {
            lemma_changes_only_agree(orders1, orders2, s, t);
            lemma_book_ok_frame(books[t], t, orders1, orders2);
        }
    }
    assert forall|id: u64| #[trigger] orders2.contains_key(id) implies b2.contains_key(
        orders2[id].symbol_id,
    ) by {
        if orders2[id].symbol_id != s {
            assert(orders1.contains_key(id));
        }
    }
}

/// The market: its symbols, the order book of each symbol that has one,
/// and the live orders of all symbols.
pub struct MarketExecutor {
    pub symbols: Vec<Symbol>,
    pub order_books: OBMap,
    pub orders: Orders,
}

impl MarketExecutor {
    /// The books agree with the live orders.
    pub open spec fn wf(&self) -> bool {
        market_ok(self.order_books@, self.orders@)
    }

    /// The engine of symbol `s`.
    pub open spec fn context(&self, s: u64) -> ExecutionContext {
        ExecutionContext { book: self.order_books@[s], orders: self.orders, symbol: s }
    }

    /// Only the book of `s` and the orders differ between `self` and
    /// `other`, and `self`'s engine of `s` is `c`.
    pub open spec fn ran(&self, other: &MarketExecutor, s: u64, c: ExecutionContext) -> bool {
        &&& self.symbols@ == other.symbols@
        &&& self.order_books@ == other.order_books@.insert(s, c.book)
        &&& self.orders@ == c.orders@
    }

    /// `self` and `other` hold the same market.
    pub open spec fn same_market(&self, other: &MarketExecutor) -> bool {
        &&& self.symbols@ == other.symbols@
        &&& self.order_books@ == other.order_books@
        &&& self.orders@ == other.orders@
    }

    /// A market without symbols, books or orders.
    pub fn new() -> (m: MarketExecutor)
        ensures
            m.wf(),
            m.symbols@.len() == 0,
            m.order_books@ == Map::<u64, OrderBook>::empty(),
            m.orders@ == Map::<u64, Order>::empty(),
    {
        MarketExecutor { symbols: Vec::new(), order_books: OBMap::new(), orders: Orders::new() }
    }

    /// Takes out the engine of symbol `s`.
    fn take(&mut self, s: u64) -> (c: ExecutionContext)
        requires
            old(self).wf(),
            old(self).order_books@.contains_key(s),
        ensures
            c == old(self).context(s),
            c.wf(),
            final(self).symbols@ == old(self).symbols@,
            final(self).order_books@ == old(self).order_books@.remove(s),
    {
        let book = self.order_books.books.remove(&s).unwrap();
        let mut orders = Orders::new();
        std::mem::swap(&mut orders, &mut self.orders);
        ExecutionContext { book, orders, symbol: s }
    }

    /// Puts back the engine `c` taken out of `m0`.
    fn restore(&mut self, c: ExecutionContext, Ghost(m0): Ghost<MarketExecutor>)
        requires
            m0.wf(),
            m0.order_books@.contains_key(c.symbol),
            old(self).symbols@ == m0.symbols@,
            old(self).order_books@ == m0.order_books@.remove(c.symbol),
            c.wf(),
            changes_only(m0.orders@, c.orders@, c.symbol),
        ensures
            final(self).wf(),
            final(self).ran(&m0, c.symbol, c),
            final(self).context(c.symbol) == c,
    {
        let s = c.symbol;
        self.order_books.books.insert(s, c.book);
        self.orders = c.orders;
        proof {
            assert(self.order_books@ =~= m0.order_books@.insert(s, c.book));
            lemma_market_restore(m0.order_books@, m0.orders@, s, c.book, self.orders@);
        }
    }
}


/// Adds limit order `order` to the book of its symbol; see
/// `ExecutionContext::add_limit_order`. Fails with `OrderBookNotFound`
/// when the symbol has no book.
pub fn add_limit_order(market: &mut MarketExecutor, order: Order, matching: bool, recursive: bool) -> (r: Result<(), ErrorCode>)
    requires
        old(market).wf(),
        order.order_type == OrderType::Limit,
        order.executed_quantity + order.leaves_quantity <= u64::MAX,
    ensures
        final(market).wf(),
        !old(market).order_books@.contains_key(order.symbol_id) ==> r == Err::<(), ErrorCode>(ErrorCode::OrderBookNotFound) && final(market).same_market(
            old(market),
        ),
        old(market).order_books@.contains_key(order.symbol_id) ==> final(market).ran(
            old(market),
            order.symbol_id,
            final(market).context(order.symbol_id),
        ) && limit_added(old(market).context(order.symbol_id), final(market).context(order.symbol_id), order, matching, recursive, r),
{
    let s = order.symbol_id;
    if !market.order_books.contains(s) {
        return Err(ErrorCode::OrderBookNotFound);
    }
    let ghost m0 = *market;
    let mut c = market.take(s);
    let r = c.add_limit_order(order, matching, recursive);
    market.restore(c, Ghost(m0));
    r
}

/// Adds market order `order` to the book of its symbol; see
/// `ExecutionContext::add_market_order`. Fails with `OrderBookNotFound`
/// when the symbol has no book.
pub fn add_market_order(market: &mut MarketExecutor, order: Order, matching: bool, recursive: bool) -> (r: Result<(), ErrorCode>)
    requires
        old(market).wf(),
        order.order_type == OrderType::Market,
        order.executed_quantity + order.leaves_quantity <= u64::MAX,
    ensures
        final(market).wf(),
        !old(market).order_books@.contains_key(order.symbol_id) ==> r == Err::<(), ErrorCode>(ErrorCode::OrderBookNotFound) && final(market).same_market(
            old(market),
        ),
        old(market).order_books@.contains_key(order.symbol_id) ==> final(market).ran(
            old(market),
            order.symbol_id,
            final(market).context(order.symbol_id),
        ) && market_added(old(market).context(order.symbol_id), final(market).context(order.symbol_id), order, matching, recursive, r),
{
    let s = order.symbol_id;
    if !market.order_books.contains(s) {
        return Err(ErrorCode::OrderBookNotFound);
    }
    let ghost m0 = *market;
    let mut c = market.take(s);
    let r = c.add_market_order(order, matching, recursive);
    market.restore(c, Ghost(m0));
    r
}

/// Adds stop or trailing stop order `order` to the book of its symbol;
/// see `ExecutionContext::add_stop_order`. Fails with `OrderBookNotFound`
/// when the symbol has no book.
pub fn add_stop_order(market: &mut MarketExecutor, order: Order, matching: bool, recursive: bool) -> (r: Result<(), ErrorCode>)
    requires
        old(market).wf(),
        order.order_type == OrderType::Stop || order.order_type == OrderType::TrailingStop,
        order.executed_quantity + order.leaves_quantity <= u64::MAX,
    ensures
        final(market).wf(),
        !old(market).order_books@.contains_key(order.symbol_id) ==> r == Err::<(), ErrorCode>(ErrorCode::OrderBookNotFound) && final(market).same_market(
            old(market),
        ),
        old(market).order_books@.contains_key(order.symbol_id) ==> final(market).ran(
            old(market),
            order.symbol_id,
            final(market).context(order.symbol_id),
        ) && stop_added(old(market).context(order.symbol_id), final(market).context(order.symbol_id), order, matching, recursive, r),
{
    let s = order.symbol_id;
    if !market.order_books.contains(s) {
        return Err(ErrorCode::OrderBookNotFound);
    }
    let ghost m0 = *market;
    let mut c = market.take(s);
    let r = c.add_stop_order(order, matching, recursive);
    market.restore(c, Ghost(m0));
    r
}

/// Adds stop-limit or trailing stop-limit order `order` to the book of
/// its symbol; see `ExecutionContext::add_stop_limit_order`. Fails with
/// `OrderBookNotFound` when the symbol has no book.
pub fn add_stop_limit_order(market: &mut MarketExecutor, order: Order, matching: bool, recursive: bool) -> (r: Result<(), ErrorCode>)
    requires
        old(market).wf(),
        order.order_type == OrderType::StopLimit || order.order_type == OrderType::TrailingStopLimit,
        order.executed_quantity + order.leaves_quantity <= u64::MAX,
    ensures
        final(market).wf(),
        !old(market).order_books@.contains_key(order.symbol_id) ==> r == Err::<(), ErrorCode>(ErrorCode::OrderBookNotFound) && final(market).same_market(
            old(market),
        ),
        old(market).order_books@.contains_key(order.symbol_id) ==> final(market).ran(
            old(market),
            order.symbol_id,
            final(market).context(order.symbol_id),
        ) && stop_limit_added(old(market).context(order.symbol_id), final(market).context(order.symbol_id), order, matching, recursive, r),
{
    let s = order.symbol_id;
    if !market.order_books.contains(s) {
        return Err(ErrorCode::OrderBookNotFound);
    }
    let ghost m0 = *market;
    let mut c = market.take(s);
    let r = c.add_stop_limit_order(order, matching, recursive);
    market.restore(c, Ghost(m0));
    r
}


/// Reduces order `id` by `quantity`; see `ExecutionContext::reduce_order`.
/// Fails with `OrderNotFound` when there is no such order.
pub fn reduce_order(market: &mut MarketExecutor, id: u64, quantity: u64, matching: bool, recursive: bool) -> (r: Result<(), ErrorCode>)
    requires
        old(market).wf(),
    ensures
        final(market).wf(),
        id == 0 ==> r == Err::<(), ErrorCode>(ErrorCode::OrderIdInvalid) && final(market).same_market(old(market)),
        !(id == 0) && quantity == 0 ==> r == Err::<(), ErrorCode>(ErrorCode::OrderQuantityInvalid) && final(market).same_market(old(market)),
        !(id == 0) && !(quantity == 0) && !old(market).orders@.contains_key(id) ==> r == Err::<(), ErrorCode>(ErrorCode::OrderNotFound) && final(market).same_market(old(market)),
        !(id == 0) && !(quantity == 0) && !(!old(market).orders@.contains_key(id)) ==> final(market).ran(
            old(market),
            old(market).orders@[id].symbol_id,
            final(market).context(old(market).orders@[id].symbol_id),
        ) && order_reduced(old(market).context(old(market).orders@[id].symbol_id), final(market).context(old(market).orders@[id].symbol_id), id, quantity, matching, recursive, r),
{
    if id == 0 {
        return Err(ErrorCode::OrderIdInvalid);
    }
    if quantity == 0 {
        return Err(ErrorCode::OrderQuantityInvalid);
    }
    if !market.orders.contains(id) {
        return Err(ErrorCode::OrderNotFound);
    }
    let s = match market.orders.find(id) {
        Some(o) => o.symbol_id,
        None => {
            return Err(ErrorCode::OrderNotFound);
        },
    };
    let ghost m0 = *market;
    let mut c = market.take(s);
    let r = c.reduce_order(id, quantity, matching, recursive);
    market.restore(c, Ghost(m0));
    r
}

/// Modifies order `id`; see `ExecutionContext::modify_order`. Fails with
/// `OrderNotFound` when there is no such order.
pub fn modify_order(market: &mut MarketExecutor, id: u64, new_price: u64, new_quantity: u64, mitigate: bool, matching: bool, recursive: bool) -> (r: Result<(), ErrorCode>)
    requires
        old(market).wf(),
    ensures
        final(market).wf(),
        id == 0 ==> r == Err::<(), ErrorCode>(ErrorCode::OrderIdInvalid) && final(market).same_market(old(market)),
        !(id == 0) && new_quantity == 0 ==> r == Err::<(), ErrorCode>(ErrorCode::OrderQuantityInvalid) && final(market).same_market(old(market)),
        !(id == 0) && !(new_quantity == 0) && !old(market).orders@.contains_key(id) ==> r == Err::<(), ErrorCode>(ErrorCode::OrderNotFound) && final(market).same_market(old(market)),
        !(id == 0) && !(new_quantity == 0) && !(!old(market).orders@.contains_key(id)) ==> final(market).ran(
            old(market),
            old(market).orders@[id].symbol_id,
            final(market).context(old(market).orders@[id].symbol_id),
        ) && order_modified(old(market).context(old(market).orders@[id].symbol_id), final(market).context(old(market).orders@[id].symbol_id), id, new_price, new_quantity, mitigate, matching, recursive, r),
{
    if id == 0 {
        return Err(ErrorCode::OrderIdInvalid);
    }
    if new_quantity == 0 {
        return Err(ErrorCode::OrderQuantityInvalid);
    }
    if !market.orders.contains(id) {
        return Err(ErrorCode::OrderNotFound);
    }
    let s = match market.orders.find(id) {
        Some(o) => o.symbol_id,
        None => {
            return Err(ErrorCode::OrderNotFound);
        },
    };
    let ghost m0 = *market;
    let mut c = market.take(s);
    let r = c.modify_order(id, new_price, new_quantity, mitigate, matching, recursive);
    market.restore(c, Ghost(m0));
    r
}

/// Modifies order `id` with in-flight mitigation and matching; see
/// `ExecutionContext::modify_order`.
pub fn mitigate_order(market: &mut MarketExecutor, id: u64, new_price: u64, new_quantity: u64) -> (r: Result<(), ErrorCode>)
    requires
        old(market).wf(),
    ensures
        final(market).wf(),
        id == 0 ==> r == Err::<(), ErrorCode>(ErrorCode::OrderIdInvalid) && final(market).same_market(old(market)),
        !(id == 0) && new_quantity == 0 ==> r == Err::<(), ErrorCode>(ErrorCode::OrderQuantityInvalid) && final(market).same_market(old(market)),
        !(id == 0) && !(new_quantity == 0) && !old(market).orders@.contains_key(id) ==> r == Err::<(), ErrorCode>(ErrorCode::OrderNotFound) && final(market).same_market(old(market)),
        !(id == 0) && !(new_quantity == 0) && !(!old(market).orders@.contains_key(id)) ==> final(market).ran(
            old(market),
            old(market).orders@[id].symbol_id,
            final(market).context(old(market).orders@[id].symbol_id),
        ) && order_modified(old(market).context(old(market).orders@[id].symbol_id), final(market).context(old(market).orders@[id].symbol_id), id, new_price, new_quantity, true, true, false, r),
{
    if id == 0 {
        return Err(ErrorCode::OrderIdInvalid);
    }
    if new_quantity == 0 {
        return Err(ErrorCode::OrderQuantityInvalid);
    }
    if !market.orders.contains(id) {
        return Err(ErrorCode::OrderNotFound);
    }
    let s = match market.orders.find(id) {
        Some(o) => o.symbol_id,
        None => {
            return Err(ErrorCode::OrderNotFound);
        },
    };
    let ghost m0 = *market;
    let mut c = market.take(s);
    let r = c.mitigate_order(id, new_price, new_quantity);
    market.restore(c, Ghost(m0));
    r
}

/// Replaces limit order `id` by a fresh order `new_id`; see
/// `ExecutionContext::replace_order_internal`.
pub fn replace_order_internal(market: &mut MarketExecutor, id: u64, new_id: u64, new_price: u64, new_quantity: u64, matching: bool, recursive: bool) -> (r: Result<(), ErrorCode>)
    requires
        old(market).wf(),
    ensures
        final(market).wf(),
        id == 0 || new_id == 0 || new_quantity == 0 ==> r == Err::<(), ErrorCode>(ErrorCode::OrderIdInvalid) && final(market).same_market(old(market)),
        !(id == 0 || new_id == 0 || new_quantity == 0) && !old(market).orders@.contains_key(id) ==> r == Err::<(), ErrorCode>(ErrorCode::OrderNotFound) && final(market).same_market(old(market)),
        !(id == 0 || new_id == 0 || new_quantity == 0) && !(!old(market).orders@.contains_key(id)) ==> final(market).ran(
            old(market),
            old(market).orders@[id].symbol_id,
            final(market).context(old(market).orders@[id].symbol_id),
        ) && order_replaced(old(market).context(old(market).orders@[id].symbol_id), final(market).context(old(market).orders@[id].symbol_id), id, new_id, new_price, new_quantity, matching, recursive, r),
{
    if id == 0 || new_id == 0 || new_quantity == 0 {
        return Err(ErrorCode::OrderIdInvalid);
    }
    if !market.orders.contains(id) {
        return Err(ErrorCode::OrderNotFound);
    }
    let s = match market.orders.find(id) {
        Some(o) => o.symbol_id,
        None => {
            return Err(ErrorCode::OrderNotFound);
        },
    };
    let ghost m0 = *market;
    let mut c = market.take(s);
    let r = c.replace_order_internal(id, new_id, new_price, new_quantity, matching, recursive);
    market.restore(c, Ghost(m0));
    r
}

/// Replaces limit order `id` by a fresh order `new_id`, without
/// matching; see `ExecutionContext::replace_order_internal`.
pub fn replace_order_id(market: &mut MarketExecutor, id: u64, new_id: u64, new_price: u64, new_quantity: u64) -> (r: Result<(), ErrorCode>)
    requires
        old(market).wf(),
    ensures
        final(market).wf(),
        id == 0 || new_id == 0 || new_quantity == 0 ==> r == Err::<(), ErrorCode>(ErrorCode::OrderIdInvalid) && final(market).same_market(old(market)),
        !(id == 0 || new_id == 0 || new_quantity == 0) && !old(market).orders@.contains_key(id) ==> r == Err::<(), ErrorCode>(ErrorCode::OrderNotFound) && final(market).same_market(old(market)),
        !(id == 0 || new_id == 0 || new_quantity == 0) && !(!old(market).orders@.contains_key(id)) ==> final(market).ran(
            old(market),
            old(market).orders@[id].symbol_id,
            final(market).context(old(market).orders@[id].symbol_id),
        ) && order_replaced(old(market).context(old(market).orders@[id].symbol_id), final(market).context(old(market).orders@[id].symbol_id), id, new_id, new_price, new_quantity, false, false, r),
{
    if id == 0 || new_id == 0 || new_quantity == 0 {
        return Err(ErrorCode::OrderIdInvalid);
    }
    if !market.orders.contains(id) {
        return Err(ErrorCode::OrderNotFound);
    }
    let s = match market.orders.find(id) {
        Some(o) => o.symbol_id,
        None => {
            return Err(ErrorCode::OrderNotFound);
        },
    };
    let ghost m0 = *market;
    let mut c = market.take(s);
    let r = c.replace_order_internal(id, new_id, new_price, new_quantity, false, false);
    market.restore(c, Ghost(m0));
    r
}

/// Deletes order `id`; see `ExecutionContext::delete_order_recursive`.
/// Fails with `OrderNotFound` when there is no such order.
pub fn delete_order_recursive(market: &mut MarketExecutor, id: u64, matching: bool, recursive: bool) -> (r: Result<(), ErrorCode>)
    requires
        old(market).wf(),
    ensures
        final(market).wf(),
        id == 0 ==> r == Err::<(), ErrorCode>(ErrorCode::OrderIdInvalid) && final(market).same_market(old(market)),
        !(id == 0) && !old(market).orders@.contains_key(id) ==> r == Err::<(), ErrorCode>(ErrorCode::OrderNotFound) && final(market).same_market(old(market)),
        !(id == 0) && !(!old(market).orders@.contains_key(id)) ==> final(market).ran(
            old(market),
            old(market).orders@[id].symbol_id,
            final(market).context(old(market).orders@[id].symbol_id),
        ) && order_deleted(old(market).context(old(market).orders@[id].symbol_id), final(market).context(old(market).orders@[id].symbol_id), id, matching, recursive, r),
{
    if id == 0 {
        return Err(ErrorCode::OrderIdInvalid);
    }
    if !market.orders.contains(id) {
        return Err(ErrorCode::OrderNotFound);
    }
    let s = match market.orders.find(id) {
        Some(o) => o.symbol_id,
        None => {
            return Err(ErrorCode::OrderNotFound);
        },
    };
    let ghost m0 = *market;
    let mut c = market.take(s);
    let r = c.delete_order_recursive(id, matching, recursive);
    market.restore(c, Ghost(m0));
    r
}

/// Deletes order `id`; see `ExecutionContext::delete_order_recursive`.
pub fn delete_order(market: &mut MarketExecutor, id: u64, matching: bool, recursive: bool) -> (r: Result<(), ErrorCode>)
    requires
        old(market).wf(),
    ensures
        final(market).wf(),
        id == 0 ==> r == Err::<(), ErrorCode>(ErrorCode::OrderIdInvalid) && final(market).same_market(old(market)),
        !(id == 0) && !old(market).orders@.contains_key(id) ==> r == Err::<(), ErrorCode>(ErrorCode::OrderNotFound) && final(market).same_market(old(market)),
        !(id == 0) && !(!old(market).orders@.contains_key(id)) ==> final(market).ran(
            old(market),
            old(market).orders@[id].symbol_id,
            final(market).context(old(market).orders@[id].symbol_id),
        ) && order_deleted(old(market).context(old(market).orders@[id].symbol_id), final(market).context(old(market).orders@[id].symbol_id), id, matching, recursive, r),
{
    if id == 0 {
        return Err(ErrorCode::OrderIdInvalid);
    }
    if !market.orders.contains(id) {
        return Err(ErrorCode::OrderNotFound);
    }
    let s = match market.orders.find(id) {
        Some(o) => o.symbol_id,
        None => {
            return Err(ErrorCode::OrderNotFound);
        },
    };
    let ghost m0 = *market;
    let mut c = market.take(s);
    let r = c.delete_order_recursive(id, matching, recursive);
    market.restore(c, Ghost(m0));
    r
}


impl MarketExecutor {
    /// Executes `quantity` of order `id` at its own price; see
    /// `ExecutionContext::execute_order`. Fails with `OrderNotFound` when
    /// there is no such order.
    pub fn execute_order(&mut self, id: u64, price: u64, quantity: u64, matching: bool) -> (r: Result<(), ErrorCode>)
        requires
            old(self).wf(),
        ensures
            final(self).wf(),
            id == 0 ==> r == Err::<(), ErrorCode>(ErrorCode::OrderIdInvalid) && final(self).same_market(old(self)),
            id != 0 && quantity == 0 ==> r == Err::<(), ErrorCode>(ErrorCode::OrderQuantityInvalid)
                && final(self).same_market(old(self)),
            id != 0 && quantity != 0 && !old(self).orders@.contains_key(id) ==> r == Err::<(), ErrorCode>(
                ErrorCode::OrderNotFound,
            ) && final(self).same_market(old(self)),
            id != 0 && quantity != 0 && old(self).orders@.contains_key(id) ==> final(self).ran(
                old(self),
                old(self).orders@[id].symbol_id,
                final(self).context(old(self).orders@[id].symbol_id),
            ) && order_executed(
                old(self).context(old(self).orders@[id].symbol_id),
                final(self).context(old(self).orders@[id].symbol_id),
                id,
                price,
                quantity,
                matching,
                r,
            ),
    {
        if id == 0 {
            return Err(ErrorCode::OrderIdInvalid);
        }
        if quantity == 0 {
            return Err(ErrorCode::OrderQuantityInvalid);
        }
        let s = match self.orders.find(id) {
            Some(o) => o.symbol_id,
            None => {
                return Err(ErrorCode::OrderNotFound);
            },
        };
        let ghost m0 = *self;
        let mut c = self.take(s);
        let r = c.execute_order(id, price, quantity, matching);
        self.restore(c, Ghost(m0));
        r
    }
}

/// Adds `symbol` to the market; fails with `SymbolDuplicate`, changing
/// nothing, when a symbol has its id.
pub fn add_symbol(market: &mut MarketExecutor, symbol: Symbol) -> (r: Result<(), ErrorCode>)
    requires
        old(market).wf(),
    ensures
        final(market).wf(),
        has_symbol(old(market).symbols@, symbol.id) ==> r == Err::<(), ErrorCode>(
            ErrorCode::SymbolDuplicate,
        ) && final(market).same_market(old(market)),
        !has_symbol(old(market).symbols@, symbol.id) ==> r is Ok && final(market).symbols@ == old(market).symbols@.push(symbol) && final(market).order_books@ == old(market).order_books@
            && final(market).orders@ == old(market).orders@,
{
    match find_symbol_by_id(&market.symbols, symbol.id) {
        Some(_) => Err(ErrorCode::SymbolDuplicate),
        None => {
            market.symbols.push(symbol);
            Ok(())
        },
    }
}

/// Adds an empty order book for symbol `symbol`; fails with
/// `SymbolNotFound` when there is no such symbol and with
/// `OrderBookDuplicate` when it has a book, changing nothing.
pub fn add_order_book_handle(market: &mut MarketExecutor, symbol: u64) -> (r: Result<(), ErrorCode>)
    requires
        old(market).wf(),
    ensures
        final(market).wf(),
        !has_symbol(old(market).symbols@, symbol) ==> r == Err::<(), ErrorCode>(
            ErrorCode::SymbolNotFound,
        ) && final(market).same_market(old(market)),
        has_symbol(old(market).symbols@, symbol) && old(market).order_books@.contains_key(symbol) ==> r
            == Err::<(), ErrorCode>(ErrorCode::OrderBookDuplicate) && final(market).same_market(
            old(market),
        ),
        has_symbol(old(market).symbols@, symbol) && !old(market).order_books@.contains_key(symbol) ==> r
            is Ok && final(market).symbols@ == old(market).symbols@ && final(market).orders@ == old(market).orders@ && final(market).order_books@ == old(market).order_books@.insert(
            symbol,
            final(market).order_books@[symbol],
        ) && forall|k: BookKind, b: bool| #[trigger] final(market).order_books@[symbol].side(k, b).len()
            == 0,
{
    if find_symbol_by_id(&market.symbols, symbol).is_none() {
        return Err(ErrorCode::SymbolNotFound);
    }
    let book = OrderBook::new();
    let r = market.order_books.add_order_book(symbol, book);
    proof {
        if r is Ok {
            let books = market.order_books@;
            assert forall|t: u64| #[trigger] books.contains_key(t) implies book_ok(
                books[t],
                t,
                market.orders@,
            ) by {
                if t == symbol {
                    assert forall|k: BookKind, b: bool| side_ok(#[trigger] books[t].side(k, b), k, b, t, market.orders@) by {
                        assert(books[t].side(k, b).len() == 0);
                    }
                    assert forall|id: u64| #[trigger] market.orders@.contains_key(id) && market.orders@[id].symbol_id == t implies placed(
                        books[t].side(kind_of(market.orders@[id]), market.orders@[id].spec_is_buy()),
                        key_of(market.orders@[id]),
                        id,
                    ) by {
                        assert(old(market).order_books@.contains_key(market.orders@[id].symbol_id));
                    }
                }
            }
        }
    }
    r
}

/// The engine of `c0` after `order` was added: by its kind.
pub open spec fn order_added(c0: ExecutionContext, c: ExecutionContext, order: Order, matching: bool, recursive: bool, r: Result<(), ErrorCode>) -> bool {
    match order.order_type {
        OrderType::Market => market_added(c0, c, order, matching, recursive, r),
        OrderType::Limit => limit_added(c0, c, order, matching, recursive, r),
        OrderType::Stop | OrderType::TrailingStop => stop_added(c0, c, order, matching, recursive, r),
        OrderType::StopLimit | OrderType::TrailingStopLimit => stop_limit_added(
            c0,
            c,
            order,
            matching,
            recursive,
            r,
        ),
        OrderType::Buy => false,
    }
}

/// Why an order cannot be added, before its book is looked up: its own
/// validation fails, its kind is not one that can be added, or its
/// executed and remaining quantities cannot be counted together.
pub open spec fn add_check(o: Order) -> Result<(), ErrorCode> {
    if o.validation() is Err {
        o.validation()
    } else if o.order_type == OrderType::Buy {
        Err(ErrorCode::OrderTypeInvalid)
    } else if o.executed_quantity + o.leaves_quantity > u64::MAX {
        Err(ErrorCode::OrderQuantityInvalid)
    } else {
        Ok(())
    }
}

/// The market `m` and result `r` are what adding `order` to `m0` gives.
pub open spec fn market_order_added(m0: MarketExecutor, m: MarketExecutor, order: Order, matching: bool, recursive: bool, r: Result<(), ErrorCode>) -> bool {
    if add_check(order) is Err {
        r == add_check(order) && m.same_market(&m0)
    } else if !m0.order_books@.contains_key(order.symbol_id) {
        r == Err::<(), ErrorCode>(ErrorCode::OrderBookNotFound) && m.same_market(&m0)
    } else {
        m.ran(&m0, order.symbol_id, m.context(order.symbol_id)) && order_added(
            m0.context(order.symbol_id),
            m.context(order.symbol_id),
            order,
            matching,
            recursive,
            r,
        )
    }
}

/// Validates `order` and adds it to the book of its symbol by its kind:
/// market, limit, stop and trailing stop, or stop-limit and trailing
/// stop-limit; see `add_check` and `order_added`.
pub fn add_order(market: &mut MarketExecutor, order: Order, matching: bool, recursive: bool) -> (r: Result<(), ErrorCode>)
    requires
        old(market).wf(),
    ensures
        final(market).wf(),
        market_order_added(*old(market), *final(market), order, matching, recursive, r),
{
    let v = order.validate();
    if v.is_err() {
        return v;
    }
    if order.order_type == OrderType::Buy {
        return Err(ErrorCode::OrderTypeInvalid);
    }
    if order.executed_quantity > u64::MAX - order.leaves_quantity {
        return Err(ErrorCode::OrderQuantityInvalid);
    }
    match order.order_type {
        OrderType::Market => add_market_order(market, order, matching, recursive),
        OrderType::Limit => add_limit_order(market, order, matching, recursive),
        OrderType::Stop | OrderType::TrailingStop => add_stop_order(market, order, matching, recursive),
        OrderType::StopLimit | OrderType::TrailingStopLimit => add_stop_limit_order(
            market,
            order,
            matching,
            recursive,
        ),
        OrderType::Buy => Err(ErrorCode::OrderTypeInvalid),
    }
}

/// Deletes order `id` and adds `order` in its place; fails, without
/// adding, when the deletion fails.
pub fn replace_order(market: &mut MarketExecutor, id: u64, order: Order, matching: bool, recursive: bool) -> (r: Result<(), ErrorCode>)
    requires
        old(market).wf(),
    ensures
        final(market).wf(),
        exists|m1: MarketExecutor, rd: Result<(), ErrorCode>|
            #[trigger] market_order_deleted(*old(market), m1, id, true, false, rd) && (rd is Err ==> r
                == rd && final(market).same_market(&m1)) && (rd is Ok ==> market_order_added(
                m1,
                *final(market),
                order,
                matching,
                recursive,
                r,
            )),
{
    let rd = delete_order(market, id, true, false);
    let ghost m1 = *market;
    proof {
        assert(market_order_deleted(*old(market), m1, id, true, false, rd));
    }
    if rd.is_err() {
        return rd;
    }
    add_order(market, order, matching, recursive)
}

/// The market `m` and result `r` are what deleting order `id` from `m0`
/// gives.
pub open spec fn market_order_deleted(m0: MarketExecutor, m: MarketExecutor, id: u64, matching: bool, recursive: bool, r: Result<(), ErrorCode>) -> bool {
    if id == 0 {
        r == Err::<(), ErrorCode>(ErrorCode::OrderIdInvalid) && m.same_market(&m0)
    } else if !m0.orders@.contains_key(id) {
        r == Err::<(), ErrorCode>(ErrorCode::OrderNotFound) && m.same_market(&m0)
    } else {
        m.ran(&m0, m0.orders@[id].symbol_id, m.context(m0.orders@[id].symbol_id)) && order_deleted(
            m0.context(m0.orders@[id].symbol_id),
            m.context(m0.orders@[id].symbol_id),
            id,
            matching,
            recursive,
            r,
        )
    }
}


/// Matches the book of `symbol` with itself; see
/// `ExecutionContext::match_order_book`. Fails with `OrderBookNotFound`
/// when the symbol has no book.
pub fn match_order_book(market: &mut MarketExecutor, symbol: u64) -> (r: Result<(), ErrorCode>)
    requires
        old(market).wf(),
    ensures
        final(market).wf(),
        !old(market).order_books@.contains_key(symbol) ==> r == Err::<(), ErrorCode>(
            ErrorCode::OrderBookNotFound,
        ) && final(market).same_market(old(market)),
        old(market).order_books@.contains_key(symbol) ==> r is Ok && final(market).ran(
            old(market),
            symbol,
            final(market).context(symbol),
        ) && changes_only(old(market).orders@, final(market).orders@, symbol) && only_executed(
            old(market).orders@,
            final(market).orders@,
        ) && no_new_orders(
            old(market).orders@,
            final(market).orders@,
        ) && book_matched(old(market).context(symbol), final(market).context(symbol)),
{
    if !market.order_books.contains(symbol) {
        return Err(ErrorCode::OrderBookNotFound);
    }
    let ghost m0 = *market;
    let mut c = market.take(symbol);
    c.match_order_book();
    market.restore(c, Ghost(m0));
    Ok(())
}

/// Matches incoming `order` against the book of its symbol; see
/// `ExecutionContext::match_order`. Fails with `OrderBookNotFound` when
/// the symbol has no book.
pub fn match_order(market: &mut MarketExecutor, order: &mut Order) -> (r: Result<(), ErrorCode>)
    requires
        old(market).wf(),
        old(order).executed_quantity + old(order).leaves_quantity <= u64::MAX,
    ensures
        final(market).wf(),
        !old(market).order_books@.contains_key(old(order).symbol_id) ==> r == Err::<(), ErrorCode>(
            ErrorCode::OrderBookNotFound,
        ) && final(market).same_market(old(market)) && *final(order) == *old(order),
        old(market).order_books@.contains_key(old(order).symbol_id) ==> r is Ok && final(market).ran(
            old(market),
            old(order).symbol_id,
            final(market).context(old(order).symbol_id),
        ) && matched(
            old(market).context(old(order).symbol_id),
            final(market).context(old(order).symbol_id),
            *old(order),
            *final(order),
        ),
{
    let s = order.symbol_id;
    if !market.order_books.contains(s) {
        return Err(ErrorCode::OrderBookNotFound);
    }
    let ghost m0 = *market;
    let mut c = market.take(s);
    c.match_order(order);
    market.restore(c, Ghost(m0));
    Ok(())
}

/// Matches incoming limit `order` against the book of its symbol; the
/// same as `match_order`.
pub fn match_limit(market: &mut MarketExecutor, order: &mut Order) -> (r: Result<(), ErrorCode>)
    requires
        old(market).wf(),
        old(order).executed_quantity + old(order).leaves_quantity <= u64::MAX,
    ensures
        final(market).wf(),
        !old(market).order_books@.contains_key(old(order).symbol_id) ==> r == Err::<(), ErrorCode>(
            ErrorCode::OrderBookNotFound,
        ) && final(market).same_market(old(market)) && *final(order) == *old(order),
        old(market).order_books@.contains_key(old(order).symbol_id) ==> r is Ok && final(market).ran(
            old(market),
            old(order).symbol_id,
            final(market).context(old(order).symbol_id),
        ) && matched(
            old(market).context(old(order).symbol_id),
            final(market).context(old(order).symbol_id),
            *old(order),
            *final(order),
        ),
{
    match_order(market, order)
}

/// Matches incoming market `order` against the book of its symbol; see
/// `ExecutionContext::match_market`. Fails with `OrderBookNotFound` when
/// the symbol has no book.
pub fn match_market(market: &mut MarketExecutor, order: &mut Order) -> (r: Result<(), ErrorCode>)
    requires
        old(market).wf(),
        old(order).executed_quantity + old(order).leaves_quantity <= u64::MAX,
    ensures
        final(market).wf(),
        !old(market).order_books@.contains_key(old(order).symbol_id) ==> r == Err::<(), ErrorCode>(
            ErrorCode::OrderBookNotFound,
        ) && final(market).same_market(old(market)) && *final(order) == *old(order),
        old(market).order_books@.contains_key(old(order).symbol_id) ==> r is Ok && final(market).ran(
            old(market),
            old(order).symbol_id,
            final(market).context(old(order).symbol_id),
        ) && crate::operations::market_matched(
            old(market).context(old(order).symbol_id),
            final(market).context(old(order).symbol_id),
            *old(order),
            *final(order),
            true,
        ),
{
    let s = order.symbol_id;
    if !market.order_books.contains(s) {
        return Err(ErrorCode::OrderBookNotFound);
    }
    let ghost m0 = *market;
    let mut c = market.take(s);
    c.match_market(order);
    market.restore(c, Ghost(m0));
    Ok(())
}

/// Activates triggered stop orders of `symbol` until none is triggered;
/// see `ExecutionContext::activate_stop_orders`. Returns `false`, changing
/// nothing, when the symbol has no book.
pub fn activate_stop_orders(market: &mut MarketExecutor, symbol: u64) -> (r: bool)
    requires
        old(market).wf(),
    ensures
        final(market).wf(),
        !old(market).order_books@.contains_key(symbol) ==> !r && final(market).same_market(old(market)),
        old(market).order_books@.contains_key(symbol) ==> final(market).ran(
            old(market),
            symbol,
            final(market).context(symbol),
        ) && changes_only(old(market).orders@, final(market).orders@, symbol) && only_executed(
            old(market).orders@,
            final(market).orders@,
        ) && (r ==> stop_volume(
            final(market).order_books@[symbol],
        ) < stop_volume(old(market).order_books@[symbol])) && (!r ==> limit_sides_same(
            final(market).order_books@[symbol],
            old(market).order_books@[symbol],
        ) && stop_volume(final(market).order_books@[symbol]) == stop_volume(
            old(market).order_books@[symbol],
        )) && !stop_triggered(
            final(market).order_books@[symbol],
            BookKind::Stop,
            true,
            final(market).order_books@[symbol].market_ask(),
        ) && !stop_triggered(
            final(market).order_books@[symbol],
            BookKind::Stop,
            false,
            final(market).order_books@[symbol].market_bid(),
        ) && next_trailing_price(final(market).order_books@[symbol], true)
            == final(market).order_books@[symbol].trailing_ask_price && next_trailing_price(
            final(market).order_books@[symbol],
            false,
        ) == final(market).order_books@[symbol].trailing_bid_price && exists|rs: Seq<ExecutionContext>|
            #[trigger] stop_rounds(rs, old(market).context(symbol), final(market).context(symbol)) && r == (rs.len()
                > 2),
{
    if !market.order_books.contains(symbol) {
        return false;
    }
    let ghost m0 = *market;
    let mut c = market.take(symbol);
    let r = c.activate_stop_orders();
    market.restore(c, Ghost(m0));
    r
}

/// Activates the best level of stop side `(kind, buy)` of `symbol` when
/// `stop_price` reached it; see
/// `ExecutionContext::activate_individual_stop_orders`. Returns `false`,
/// changing nothing, when the symbol has no book.
pub fn activate_individual_stop_orders(
    market: &mut MarketExecutor,
    symbol: u64,
    kind: BookKind,
    buy: bool,
    stop_price: u64,
) -> (r: bool)
    requires
        old(market).wf(),
        kind != BookKind::Limit,
    ensures
        final(market).wf(),
        !old(market).order_books@.contains_key(symbol) ==> !r && final(market).same_market(old(market)),
        old(market).order_books@.contains_key(symbol) ==> final(market).ran(
            old(market),
            symbol,
            final(market).context(symbol),
        ) && changes_only(old(market).orders@, final(market).orders@, symbol) && only_executed(
            old(market).orders@,
            final(market).orders@,
        ) && r
            == stop_triggered(old(market).order_books@[symbol], kind, buy, stop_price) && (r
            ==> stop_volume(final(market).order_books@[symbol]) < stop_volume(
            old(market).order_books@[symbol],
        )) && (r ==> stop_volume(final(market).order_books@[symbol]) + old(
            market,
        ).order_books@[symbol].side(kind, buy)[0].total_volume == stop_volume(
            old(market).order_books@[symbol],
        ) && activated_upto(
            old(market).order_books@[symbol].side(kind, buy)[0].queue(),
            old(market).orders@,
            final(market).orders@,
            old(market).order_books@[symbol].side(kind, buy)[0].queue().len() as int,
        ) && exists|cs: Seq<ExecutionContext>|
            #[trigger] activation_trace(
                cs,
                old(market).context(symbol),
                final(market).context(symbol),
                old(market).order_books@[symbol].side(kind, buy)[0].queue(),
            )) && (!r ==> final(market).same_market(old(market))),
{
    if !market.order_books.contains(symbol) {
        return false;
    }
    let ghost m0 = *market;
    let mut c = market.take(symbol);
    let r = c.activate_individual_stop_orders(kind, buy, stop_price);
    market.restore(c, Ghost(m0));
    proof {
        if !r {
            assert(market.order_books@ =~= m0.order_books@);
        }
    }
    r
}

/// Activates the best plain stop level of side `buy` of `symbol` when
/// `stop_price` reached it; see `activate_individual_stop_orders`.
pub fn activate_stop_orders_level(market: &mut MarketExecutor, symbol: u64, buy: bool, stop_price: u64) -> (r: bool)
    requires
        old(market).wf(),
    ensures
        final(market).wf(),
        !old(market).order_books@.contains_key(symbol) ==> !r && final(market).same_market(old(market)),
        old(market).order_books@.contains_key(symbol) ==> final(market).ran(
            old(market),
            symbol,
            final(market).context(symbol),
        ) && changes_only(old(market).orders@, final(market).orders@, symbol) && only_executed(
            old(market).orders@,
            final(market).orders@,
        ) && r
            == stop_triggered(old(market).order_books@[symbol], BookKind::Stop, buy, stop_price)
            && (r ==> stop_volume(final(market).order_books@[symbol]) + old(
            market,
        ).order_books@[symbol].side(BookKind::Stop, buy)[0].total_volume == stop_volume(
            old(market).order_books@[symbol],
        ) && exists|cs: Seq<ExecutionContext>|
            #[trigger] activation_trace(
                cs,
                old(market).context(symbol),
                final(market).context(symbol),
                old(market).order_books@[symbol].side(BookKind::Stop, buy)[0].queue(),
            )) && (!r ==> final(market).same_market(old(market))),
{
    activate_individual_stop_orders(market, symbol, BookKind::Stop, buy, stop_price)
}

/// Activates stop order `id`; see `ExecutionContext::activate_stop_order`.
/// Returns `false`, changing nothing, when `id` is not a live stop or
/// trailing stop order.
pub fn activate_stop_order(market: &mut MarketExecutor, id: u64) -> (r: bool)
    requires
        old(market).wf(),
    ensures
        final(market).wf(),
        r <==> old(market).orders@.contains_key(id) && (old(market).orders@[id].order_type
            == OrderType::Stop || old(market).orders@[id].order_type == OrderType::TrailingStop),
        !r ==> final(market).same_market(old(market)),
        r ==> final(market).ran(
            old(market),
            old(market).orders@[id].symbol_id,
            final(market).context(old(market).orders@[id].symbol_id),
        ) && !final(market).orders@.contains_key(id) && stop_volume(
            final(market).order_books@[old(market).orders@[id].symbol_id],
        ) + old(market).orders@[id].leaves_quantity == stop_volume(
            old(market).order_books@[old(market).orders@[id].symbol_id],
        ) && stops_kept(old(market).orders@.remove(id), final(market).orders@) && only_executed(
            old(market).orders@,
            final(market).orders@,
        ) && exists|
            mid: ExecutionContext,
            o1: Order,
        |
            #![trigger market_matched(mid, final(market).context(old(market).orders@[id].symbol_id), as_market(old(market).orders@[id]), o1, true)]
            reduced_by(
                old(market).context(old(market).orders@[id].symbol_id),
                mid,
                id,
                old(market).orders@[id].leaves_quantity,
                false,
            ) && market_matched(
                mid,
                final(market).context(old(market).orders@[id].symbol_id),
                as_market(old(market).orders@[id]),
                o1,
                true,
            ),
{
    let o = match market.orders.find(id) {
        Some(o) => o,
        None => {
            return false;
        },
    };
    if !(o.order_type == OrderType::Stop || o.order_type == OrderType::TrailingStop) {
        return false;
    }
    let s = o.symbol_id;
    let ghost m0 = *market;
    let mut c = market.take(s);
    c.activate_stop_order(id);
    market.restore(c, Ghost(m0));
    true
}

/// Activates stop-limit order `id`; see
/// `ExecutionContext::activate_stop_limit_order`. Returns `false`,
/// changing nothing, when `id` is not a live stop-limit or trailing
/// stop-limit order.
pub fn activate_stop_limit_order(market: &mut MarketExecutor, id: u64) -> (r: bool)
    requires
        old(market).wf(),
    ensures
        final(market).wf(),
        r <==> old(market).orders@.contains_key(id) && (old(market).orders@[id].order_type
            == OrderType::StopLimit || old(market).orders@[id].order_type
            == OrderType::TrailingStopLimit),
        !r ==> final(market).same_market(old(market)),
        r ==> final(market).ran(
            old(market),
            old(market).orders@[id].symbol_id,
            final(market).context(old(market).orders@[id].symbol_id),
        ) && (final(market).orders@.contains_key(id) ==> final(market).orders@[id].order_type
            == OrderType::Limit) && stop_volume(
            final(market).order_books@[old(market).orders@[id].symbol_id],
        ) + old(market).orders@[id].leaves_quantity == stop_volume(
            old(market).order_books@[old(market).orders@[id].symbol_id],
        ) && stops_kept(old(market).orders@.remove(id), final(market).orders@) && only_executed(
            old(market).orders@,
            final(market).orders@,
        ) && exists|
            mid: ExecutionContext,
            c1: ExecutionContext,
            o1: Order,
            rr: Result<(), ErrorCode>,
        |
            #![trigger rested(c1, final(market).context(old(market).orders@[id].symbol_id), o1, rr), matched(mid, c1, as_limit(old(market).orders@[id]), o1)]
            reduced_by(
                old(market).context(old(market).orders@[id].symbol_id),
                mid,
                id,
                old(market).orders@[id].leaves_quantity,
                false,
            ) && matched(mid, c1, as_limit(old(market).orders@[id]), o1) && rested(
                c1,
                final(market).context(old(market).orders@[id].symbol_id),
                o1,
                rr,
            ),
{
    let o = match market.orders.find(id) {
        Some(o) => o,
        None => {
            return false;
        },
    };
    if !(o.order_type == OrderType::StopLimit || o.order_type == OrderType::TrailingStopLimit) {
        return false;
    }
    let s = o.symbol_id;
    let ghost m0 = *market;
    let mut c = market.take(s);
    c.activate_stop_limit_order(id);
    market.restore(c, Ghost(m0));
    true
}

/// Reduces trailing stop order `id` by `quantity` without executing it;
/// see `ExecutionContext::reduce_trailing_stop_order`. Fails with
/// `OrderNotFound` when there is no such order.
pub fn reduce_trailing_stop_order(market: &mut MarketExecutor, id: u64, quantity: u64) -> (r: Result<(), ErrorCode>)
    requires
        old(market).wf(),
    ensures
        final(market).wf(),
        !old(market).orders@.contains_key(id) ==> r == Err::<(), ErrorCode>(ErrorCode::OrderNotFound)
            && final(market).same_market(old(market)),
        old(market).orders@.contains_key(id) && !old(market).orders@[id].is_trailing_kind() ==> r
            == Err::<(), ErrorCode>(ErrorCode::OrderTypeInvalid) && final(market).same_market(old(market)),
        old(market).orders@.contains_key(id) && old(market).orders@[id].is_trailing_kind() && !(0
            < quantity <= old(market).orders@[id].leaves_quantity) ==> r == Err::<(), ErrorCode>(
            ErrorCode::OrderQuantityInvalid,
        ) && final(market).same_market(old(market)),
        old(market).orders@.contains_key(id) && old(market).orders@[id].is_trailing_kind() && 0
            < quantity <= old(market).orders@[id].leaves_quantity ==> r is Ok && final(market).ran(
            old(market),
            old(market).orders@[id].symbol_id,
            final(market).context(old(market).orders@[id].symbol_id),
        ) && crate::engine::reduced_by(
            old(market).context(old(market).orders@[id].symbol_id),
            final(market).context(old(market).orders@[id].symbol_id),
            id,
            quantity,
            false,
        ),
{
    let s = match market.orders.find(id) {
        Some(o) => o.symbol_id,
        None => {
            return Err(ErrorCode::OrderNotFound);
        },
    };
    let ghost m0 = *market;
    let mut c = market.take(s);
    let r = c.reduce_trailing_stop_order(id, quantity);
    market.restore(c, Ghost(m0));
    proof {
        if r is Err {
            assert(market.order_books@ =~= m0.order_books@);
        }
    }
    r
}

/// Deletes trailing stop order `id` from its book and the orders, without
/// matching. Fails with `OrderNotFound` when there is no such order and
/// with `OrderTypeInvalid` when it is not a trailing stop order.
pub fn delete_trailing_stop_order(market: &mut MarketExecutor, id: u64) -> (r: Result<(), ErrorCode>)
    requires
        old(market).wf(),
    ensures
        final(market).wf(),
        !old(market).orders@.contains_key(id) ==> r == Err::<(), ErrorCode>(ErrorCode::OrderNotFound)
            && final(market).same_market(old(market)),
        old(market).orders@.contains_key(id) && !old(market).orders@[id].is_trailing_kind() ==> r
            == Err::<(), ErrorCode>(ErrorCode::OrderTypeInvalid) && final(market).same_market(old(market)),
        old(market).orders@.contains_key(id) && old(market).orders@[id].is_trailing_kind() ==> r is Ok
            && !final(market).orders@.contains_key(id) && final(market).ran(
            old(market),
            old(market).orders@[id].symbol_id,
            final(market).context(old(market).orders@[id].symbol_id),
        ) && crate::engine::reduced_by(
            old(market).context(old(market).orders@[id].symbol_id),
            final(market).context(old(market).orders@[id].symbol_id),
            id,
            old(market).orders@[id].leaves_quantity,
            false,
        ),
{
    let o = match market.orders.find(id) {
        Some(o) => o,
        None => {
            return Err(ErrorCode::OrderNotFound);
        },
    };
    if !(o.is_trailing_stop() || o.is_trailing_stop_limit()) {
        return Err(ErrorCode::OrderTypeInvalid);
    }
    let s = o.symbol_id;
    let ghost m0 = *market;
    let mut c = market.take(s);
    let r = c.remove_order(id);
    market.restore(c, Ghost(m0));
    r
}


/// A collection of symbols with distinct ids.
pub struct SymbolVector {
    pub symbols: Vec<Symbol>,
}

impl SymbolVector {
    /// No symbols.
    pub fn new() -> (v: SymbolVector)
        ensures
            v.symbols@.len() == 0,
    {
        SymbolVector { symbols: Vec::new() }
    }

    /// Adds `symbol` after the others; lookups by id find the first symbol
    /// with an id.
    pub fn add(&mut self, symbol: Symbol) -> (r: Result<(), ErrorCode>)
        ensures
            r is Ok,
            final(self).symbols@ == old(self).symbols@.push(symbol),
    {
        self.symbols.push(symbol);
        Ok(())
    }

    /// The first symbol with id `id`, if any.
    pub fn get(&self, id: u64) -> (r: Option<Symbol>)
        ensures
            match r {
                Some(s) => s.id == id && exists|i: int|
                    0 <= i < self.symbols@.len() && self.symbols@[i] == s && forall|j: int|
                        0 <= j < i ==> (#[trigger] self.symbols@[j]).id != id,
                None => !has_symbol(self.symbols@, id),
            },
    {
        find_symbol_by_id(&self.symbols, id)
    }

    /// Renames the first symbol with id `id`; fails with `SymbolNotFound`
    /// when there is none.
    pub fn update(&mut self, id: u64, name: [char; 8]) -> (r: Result<(), ErrorCode>)
        ensures
            !has_symbol(old(self).symbols@, id) ==> r == Err::<(), ErrorCode>(ErrorCode::SymbolNotFound)
                && final(self).symbols@ == old(self).symbols@,
            has_symbol(old(self).symbols@, id) ==> r is Ok && exists|i: int|
                0 <= i < old(self).symbols@.len() && old(self).symbols@[i].id == id && (forall|j: int|
                    0 <= j < i ==> (#[trigger] old(self).symbols@[j]).id != id) && final(self).symbols@
                    == old(self).symbols@.update(i, Symbol { id, name }),
    {
        let mut i: usize = 0;
        while i < self.symbols.len()
            invariant
                i <= self.symbols@.len(),
                self.symbols@ == old(self).symbols@,
                forall|j: int| 0 <= j < i ==> (#[trigger] self.symbols@[j]).id != id,
            decreases self.symbols@.len() - i,
        {
            if self.symbols[i].id == id {
                self.symbols.set(i, Symbol { id, name });
                return Ok(());
            }
            i = i + 1;
        }
        Err(ErrorCode::SymbolNotFound)
    }

    /// Removes and returns the first symbol with id `id`; fails with
    /// `SymbolNotFound` when there is none.
    pub fn remove(&mut self, id: u64) -> (r: Result<Symbol, ErrorCode>)
        ensures
            match r {
                Ok(s) => s.id == id && exists|i: int|
                    0 <= i < old(self).symbols@.len() && old(self).symbols@[i] == s && (forall|j: int|
                        0 <= j < i ==> (#[trigger] old(self).symbols@[j]).id != id) && final(self).symbols@
                        == old(self).symbols@.remove(i),
                Err(e) => e == ErrorCode::SymbolNotFound && !has_symbol(old(self).symbols@, id)
                    && final(self).symbols@ == old(self).symbols@,
            },
    {
        let mut i: usize = 0;
        while i < self.symbols.len()
            invariant
                i <= self.symbols@.len(),
                self.symbols@ == old(self).symbols@,
                forall|j: int| 0 <= j < i ==> (#[trigger] self.symbols@[j]).id != id,
            decreases self.symbols@.len() - i,
        {
            if self.symbols[i].id == id {
                let s = self.symbols.remove(i);
                return Ok(s);
            }
            i = i + 1;
        }
        Err(ErrorCode::SymbolNotFound)
    }
}

/// A command scheduled at a declared time.
#[derive(Clone, Copy, Debug)]
pub struct Command {
    pub time: u64,
}

} // verus!
