//! Adding, reducing, modifying, replacing, deleting and executing orders
//! of one symbol, each followed by matching when it is enabled.
use vstd::prelude::*;

use crate::activation::{aon_stuck, as_limit, as_market, book_matched, crossed, trailed};
use crate::consistency::{changes_only, lemma_changes_only_trans, live, resting};
use crate::engine::{lemma_book_ok_prices, no_new_orders, only_executed, reduced_by, ExecutionContext};
use crate::level::{LevelUpdate, UpdateType};
use crate::levels::{side_added, side_can_add};
use crate::matching::{matched, opposite, slipped_price};
use crate::order::{ErrorCode, Order, OrderType};
use crate::order_book::{key_of, kind_of, side_type, OrderBook};

verus! {

broadcast use vstd::std_specs::hash::group_hash_axioms;

/// Matching runs after an operation when it is enabled and the operation
/// is not itself part of a matching.
pub open spec fn runs(matching: bool, recursive: bool) -> bool {
    matching && !recursive
}

/// `c2` is `c` with the matching prices reset and nothing else changed.
pub open spec fn prices_reset(c: ExecutionContext, c2: ExecutionContext) -> bool {
    &&& c2.orders@ == c.orders@
    &&& c2.symbol == c.symbol
    &&& c2.book.same_sides(&c.book)
    &&& c2.book.last_bid_price == c.book.last_bid_price
    &&& c2.book.last_ask_price == c.book.last_ask_price
    &&& c2.book.trailing_bid_price == c.book.trailing_bid_price
    &&& c2.book.trailing_ask_price == c.book.trailing_ask_price
    &&& c2.book.matching_bid_price == 0
    &&& c2.book.matching_ask_price == u64::MAX
}

/// `c2` is `c1` after the book matched itself (see `book_matched`) and
/// the matching prices were reset.
#[verifier::opaque]
pub open spec fn matched_and_reset(c1: ExecutionContext, c2: ExecutionContext) -> bool {
    exists|m: ExecutionContext| #[trigger] book_matched(c1, m) && prices_reset(m, c2)
}

/// `c2` is `c1` after the book matched itself when `run` (see
/// `book_matched`), with the matching prices reset; an order that stays
/// was at most executed in part.
pub open spec fn settled(c1: ExecutionContext, c2: ExecutionContext, run: bool) -> bool {
    &&& c2.wf()
    &&& run ==> matched_and_reset(c1, c2)
    &&& c2.symbol == c1.symbol
    &&& changes_only(c1.orders@, c2.orders@, c1.symbol)
    &&& no_new_orders(c1.orders@, c2.orders@)
    &&& only_executed(c1.orders@, c2.orders@)
    &&& c2.book.matching_bid_price == 0
    &&& c2.book.matching_ask_price == u64::MAX
    &&& run ==> !crossed(c2.book) || aon_stuck(c2)
    &&& !run ==> {
        &&& c2.orders@ == c1.orders@
        &&& c2.book.same_sides(&c1.book)
        &&& c2.book.last_bid_price == c1.book.last_bid_price
        &&& c2.book.last_ask_price == c1.book.last_ask_price
        &&& c2.book.trailing_bid_price == c1.book.trailing_bid_price
        &&& c2.book.trailing_ask_price == c1.book.trailing_ask_price
    }
}

/// `c2` and `r` are what storing `o` in `c1` gives: an order whose id is
/// taken is not stored, without an error; a level that cannot take its
/// volumes fails and changes nothing; otherwise `o` is stored and queued
/// last at its price on its side.
pub open spec fn inserted(c1: ExecutionContext, c2: ExecutionContext, o: Order, r: Result<(), ErrorCode>) -> bool {
    if c1.orders@.contains_key(o.id) {
        r is Ok && c2.same_state(&c1)
    } else if !side_can_add(c1.book.side(kind_of(o), o.spec_is_buy()), key_of(o), o) {
        r == Err::<(), ErrorCode>(ErrorCode::OrderQuantityInvalid) && c2.same_state(&c1)
    } else {
        &&& r is Ok
        &&& c2.symbol == c1.symbol
        &&& c2.orders@ == c1.orders@.insert(o.id, o)
        &&& c2.book.same_except(&c1.book, kind_of(o), o.spec_is_buy())
        &&& exists|x: (bool, usize)|
            #[trigger] side_added(
                c2.book.side(kind_of(o), o.spec_is_buy()),
                c1.book.side(kind_of(o), o.spec_is_buy()),
                side_type(kind_of(o), o.spec_is_buy()),
                key_of(o),
                o,
                x,
            )
    }
}

/// What remains of a limit order rests in the book unless nothing
/// remains or it is immediate-or-cancel or fill-or-kill.
pub open spec fn rests(o: Order) -> bool {
    o.leaves_quantity > 0 && !o.spec_is_ioc() && !o.spec_is_fok()
}

/// `c2` and `r` are what resting what remains of limit order `o` gives.
pub open spec fn rested(c1: ExecutionContext, c2: ExecutionContext, o: Order, r: Result<(), ErrorCode>) -> bool {
    if rests(o) {
        inserted(c1, c2, o, r)
    } else {
        r is Ok && c2.same_state(&c1)
    }
}

/// `c2` and `r` are what resting stop order `o` gives: stored when
/// something of it remains.
pub open spec fn stop_rested(c1: ExecutionContext, c2: ExecutionContext, o: Order, r: Result<(), ErrorCode>) -> bool {
    if o.leaves_quantity > 0 {
        inserted(c1, c2, o, r)
    } else {
        r is Ok && c2.same_state(&c1)
    }
}

/// `c1` and `o1` are what the matching of an added limit order `o0` gives
/// when `run`; nothing happens otherwise.
pub open spec fn limit_matched(c0: ExecutionContext, c1: ExecutionContext, o0: Order, o1: Order, run: bool) -> bool {
    if run {
        matched(c0, c1, o0, o1)
    } else {
        c1.same_state(&c0) && o1 == o0
    }
}

/// `c1` and `o1` are what the matching of market order `o0` gives when
/// `run`: nothing happens when the opposite side is empty, and otherwise
/// the order is matched at its slipped price.
pub open spec fn market_matched(c0: ExecutionContext, c1: ExecutionContext, o0: Order, o1: Order, run: bool) -> bool {
    if run && opposite(c0.book, o0.spec_is_buy()).len() > 0 {
        matched(c0, c1, Order { price: slipped_price(c0.book, o0), ..o0 }, o1)
    } else {
        c1.same_state(&c0) && o1 == o0
    }
}

/// A new stop order with its stop price trailed first when it is a
/// trailing one.
pub open spec fn trailing_adjusted(b: OrderBook, o: Order) -> Order {
    if o.is_trailing_kind() {
        trailed(o, b.trailing_stop_price(o))
    } else {
        o
    }
}

/// The market already reached the stop price of `o`: the market ask is at
/// or above a buy stop, the market bid at or below a sell stop.
pub open spec fn stop_reached(b: OrderBook, o: Order) -> bool {
    if o.spec_is_buy() {
        o.stop_price <= b.market_ask()
    } else {
        o.stop_price >= b.market_bid()
    }
}

impl ExecutionContext {
    /// Matches the book with itself when `run`, then resets the matching
    /// prices.
    fn settle(&mut self, run: bool)
        requires
            old(self).wf(),
        ensures
            settled(*old(self), *final(self), run),
    {
        if run {
            self.match_order_book();
        }
        let ghost before = *self;
        self.book.reset_matching_price();
        proof {
            if run {
                assert(prices_reset(before, *self));
                assert(book_matched(*old(self), before));
                reveal(matched_and_reset);
            }
            lemma_book_ok_prices(before.book, self.book, self.symbol, self.orders@);
            if !run {
                assert(self.book.same_sides(&old(self).book));
                crate::engine::lemma_only_executed_refl(self.orders@);
            }
        }
    }

    /// Stores and queues `o`; see `inserted`.
    fn insert_order(&mut self, o: Order) -> (r: Result<(), ErrorCode>)
        requires
            old(self).wf(),
            resting(o),
            o.leaves_quantity > 0,
            o.symbol_id == old(self).symbol,
            o.executed_quantity + o.leaves_quantity <= u64::MAX,
        ensures
            final(self).wf(),
            inserted(*old(self), *final(self), o, r),
            final(self).symbol == old(self).symbol,
            changes_only(old(self).orders@, final(self).orders@, old(self).symbol),
    {
        if self.orders.contains(o.id) {
            return Ok(());
        }
        self.insert_resting(o)
    }

    /// Rests what remains of limit order `o`; see `rested`.
    fn rest_limit(&mut self, o: Order) -> (r: Result<(), ErrorCode>)
        requires
            old(self).wf(),
            o.order_type == OrderType::Limit,
            o.symbol_id == old(self).symbol,
            o.executed_quantity + o.leaves_quantity <= u64::MAX,
        ensures
            final(self).wf(),
            rested(*old(self), *final(self), o, r),
            final(self).symbol == old(self).symbol,
            changes_only(old(self).orders@, final(self).orders@, old(self).symbol),
    {
        if o.leaves_quantity > 0 && !o.is_ioc() && !o.is_fok() {
            self.insert_order(o)
        } else {
            Ok(())
        }
    }

    /// Rests stop order `o` when something of it remains; see
    /// `stop_rested`.
    fn rest_stop(&mut self, o: Order) -> (r: Result<(), ErrorCode>)
        requires
            old(self).wf(),
            o.is_plain_stop_kind() || o.is_trailing_kind(),
            o.symbol_id == old(self).symbol,
            o.executed_quantity + o.leaves_quantity <= u64::MAX,
        ensures
            final(self).wf(),
            stop_rested(*old(self), *final(self), o, r),
            final(self).symbol == old(self).symbol,
            changes_only(old(self).orders@, final(self).orders@, old(self).symbol),
    {
        if o.leaves_quantity > 0 {
            self.insert_order(o)
        } else {
            Ok(())
        }
    }

    /// Adds limit order `order`: it is matched first when `matching` and
    /// not `recursive`; what remains rests in the book unless it is
    /// immediate-or-cancel or fill-or-kill; then the book matches itself
    /// under the same condition and the matching prices are reset. What
    /// remains of an order whose id is taken does not rest; a level that
    /// cannot take the order's volumes fails after the order was matched.
    pub fn add_limit_order(&mut self, order: Order, matching: bool, recursive: bool) -> (r: Result<(), ErrorCode>)
        requires
            old(self).wf(),
            order.order_type == OrderType::Limit,
            order.symbol_id == old(self).symbol,
            order.executed_quantity + order.leaves_quantity <= u64::MAX,
        ensures
            final(self).wf(),
            final(self).symbol == old(self).symbol,
            changes_only(old(self).orders@, final(self).orders@, old(self).symbol),
            limit_added(*old(self), *final(self), order, matching, recursive, r),
    {
        let run = matching && !recursive;
        let mut o = order;
        if run {
            self.match_limit(&mut o);
        }
        let ghost c1 = *self;
        let ghost o1 = o;
        let r = self.rest_limit(o);
        let ghost c2 = *self;
        proof {
            lemma_changes_only_trans(old(self).orders@, c1.orders@, c2.orders@, old(self).symbol);
        }
        if r.is_err() {
            proof {
                assert(rested(c1, c2, o1, r));
            }
            return r;
        }
        self.settle(run);
        proof {
            lemma_changes_only_trans(old(self).orders@, c2.orders@, self.orders@, old(self).symbol);
            assert(rested(c1, c2, o1, r));
        }
        r
    }

    /// Adds market order `order`: it is matched at its slipped price when
    /// `matching` and not `recursive`, and never rests; then the book
    /// matches itself under the same condition and the matching prices are
    /// reset.
    pub fn add_market_order(&mut self, order: Order, matching: bool, recursive: bool) -> (r: Result<(), ErrorCode>)
        requires
            old(self).wf(),
            order.order_type == OrderType::Market,
            order.symbol_id == old(self).symbol,
            order.executed_quantity + order.leaves_quantity <= u64::MAX,
        ensures
            final(self).wf(),
            final(self).symbol == old(self).symbol,
            changes_only(old(self).orders@, final(self).orders@, old(self).symbol),
            market_added(*old(self), *final(self), order, matching, recursive, r),
    {
        let run = matching && !recursive;
        let mut o = order;
        if run {
            self.match_market(&mut o);
        }
        let ghost c1 = *self;
        let ghost o1 = o;
        self.settle(run);
        proof {
            lemma_changes_only_trans(old(self).orders@, c1.orders@, self.orders@, old(self).symbol);
            assert(market_matched(*old(self), c1, order, o1, runs(matching, recursive)));
            assert(settled(c1, *self, runs(matching, recursive)));
        }
        Ok(())
    }

    /// The stop price, and for a stop-limit order the limit price, a new
    /// trailing order starts with.
    fn adjust_trailing(&self, order: &Order) -> (o: Order)
        requires
            self.wf(),
        ensures
            o == trailing_adjusted(self.book, *order),
    {
        if order.is_trailing_stop() || order.is_trailing_stop_limit() {
            let new_stop = self.book.calculate_trailing_stop_price(order);
            let mut o = *order;
            o.stop_price = new_stop;
            if order.is_trailing_stop_limit() {
                o.price = crate::activation::shift_price(order.price, order.stop_price, new_stop);
            }
            o
        } else {
            *order
        }
    }

    /// Whether the market already reached the stop price of `o`.
    fn is_stop_reached(&self, o: &Order) -> (b: bool)
        ensures
            b == stop_reached(self.book, *o),
    {
        if o.is_buy() {
            o.stop_price <= self.book.get_market_ask_price()
        } else {
            o.stop_price >= self.book.get_market_bid_price()
        }
    }

    /// Adds stop or trailing stop order `order`. A trailing order's stop
    /// price is trailed first. When `matching` and not `recursive` and the
    /// market already reached the stop price, the order becomes a market
    /// order and is matched; otherwise it rests in its stop side when
    /// something of it remains. Then the book matches itself under the same
    /// condition and the matching prices are reset. An order whose id is
    /// taken does not rest; a level that cannot take the order's volumes
    /// fails.
    pub fn add_stop_order(&mut self, order: Order, matching: bool, recursive: bool) -> (r: Result<(), ErrorCode>)
        requires
            old(self).wf(),
            order.order_type == OrderType::Stop || order.order_type == OrderType::TrailingStop,
            order.symbol_id == old(self).symbol,
            order.executed_quantity + order.leaves_quantity <= u64::MAX,
        ensures
            final(self).wf(),
            final(self).symbol == old(self).symbol,
            changes_only(old(self).orders@, final(self).orders@, old(self).symbol),
            stop_added(*old(self), *final(self), order, matching, recursive, r),
    {
        let run = matching && !recursive;
        let o0 = self.adjust_trailing(&order);
        if run && self.is_stop_reached(&o0) {
            let mut m = o0;
            m.order_type = OrderType::Market;
            m.price = 0;
            m.stop_price = 0;
            m.time_in_force = if o0.is_fok() {
                crate::order::TimeInForce::FOK
            } else {
                crate::order::TimeInForce::IOC
            };
            let ghost m0 = m;
            proof {
                assert(m0 == as_market(o0));
            }
            self.match_market(&mut m);
            let ghost c1 = *self;
            let ghost o1 = m;
            self.settle(true);
            proof {
                lemma_changes_only_trans(old(self).orders@, c1.orders@, self.orders@, old(self).symbol);
                assert(market_matched(*old(self), c1, as_market(o0), o1, true));
            }
            return Ok(());
        }
        let r = self.rest_stop(o0);
        let ghost c2 = *self;
        if r.is_err() {
            proof {
                assert(stop_rested(*old(self), c2, o0, r));
            }
            return r;
        }
        self.settle(run);
        proof {
            lemma_changes_only_trans(old(self).orders@, c2.orders@, self.orders@, old(self).symbol);
            assert(stop_rested(*old(self), c2, o0, r));
        }
        r
    }

    /// Adds stop-limit or trailing stop-limit order `order`. A trailing
    /// order's stop price is trailed first, its limit price keeping its
    /// distance. When `matching` and not `recursive` and the market already
    /// reached the stop price, the order becomes a limit order, is matched,
    /// and what remains rests unless it is immediate-or-cancel or
    /// fill-or-kill; otherwise it rests in its stop side when something of
    /// it remains. Then the book matches itself under the same condition
    /// and the matching prices are reset. An order whose id is taken does
    /// not rest; a level that cannot take the order's volumes fails.
    pub fn add_stop_limit_order(&mut self, order: Order, matching: bool, recursive: bool) -> (r: Result<(), ErrorCode>)
        requires
            old(self).wf(),
            order.order_type == OrderType::StopLimit || order.order_type == OrderType::TrailingStopLimit,
            order.symbol_id == old(self).symbol,
            order.executed_quantity + order.leaves_quantity <= u64::MAX,
        ensures
            final(self).wf(),
            final(self).symbol == old(self).symbol,
            changes_only(old(self).orders@, final(self).orders@, old(self).symbol),
            stop_limit_added(*old(self), *final(self), order, matching, recursive, r),
    {
        let run = matching && !recursive;
        let o0 = self.adjust_trailing(&order);
        if run && self.is_stop_reached(&o0) {
            let mut l = o0;
            l.order_type = OrderType::Limit;
            l.stop_price = 0;
            proof {
                assert(l == as_limit(o0));
            }
            self.match_limit(&mut l);
            let ghost c1 = *self;
            let ghost o1 = l;
            let r = self.rest_limit(l);
            let ghost c2 = *self;
            proof {
                lemma_changes_only_trans(old(self).orders@, c1.orders@, c2.orders@, old(self).symbol);
                assert(rested(c1, c2, o1, r));
            }
            if r.is_err() {
                return r;
            }
            self.settle(true);
            proof {
                lemma_changes_only_trans(old(self).orders@, c2.orders@, self.orders@, old(self).symbol);
            }
            return r;
        }
        let r = self.rest_stop(o0);
        let ghost c2 = *self;
        if r.is_err() {
            proof {
                assert(stop_rested(*old(self), c2, o0, r));
            }
            return r;
        }
        self.settle(run);
        proof {
            lemma_changes_only_trans(old(self).orders@, c2.orders@, self.orders@, old(self).symbol);
            assert(stop_rested(*old(self), c2, o0, r));
        }
        r
    }
}

/// The error an operation on order `id` of engine `c` fails with when the
/// order is not there: not a live order, or one of another symbol.
pub open spec fn lookup_error(c: ExecutionContext, id: u64) -> Option<ErrorCode> {
    if !c.orders@.contains_key(id) {
        Some(ErrorCode::OrderNotFound)
    } else if c.orders@[id].symbol_id != c.symbol {
        Some(ErrorCode::OrderBookNotFound)
    } else {
        None
    }
}

/// The quantity a reduction or execution of `quantity` takes from `o`:
/// at most what remains of it.
pub open spec fn capped(o: Order, quantity: u64) -> u64 {
    if quantity < o.leaves_quantity {
        quantity
    } else {
        o.leaves_quantity
    }
}

/// `c2` is `c1` with `price` recorded as the last and the matching price
/// on the side of `o`.
pub open spec fn priced(c1: ExecutionContext, c2: ExecutionContext, o: Order, price: u64) -> bool {
    &&& c2.wf()
    &&& c2.symbol == c1.symbol
    &&& c2.orders@ == c1.orders@
    &&& c2.book.same_sides(&c1.book)
    &&& c2.book.trailing_bid_price == c1.book.trailing_bid_price
    &&& c2.book.trailing_ask_price == c1.book.trailing_ask_price
    &&& if o.spec_is_buy() {
        &&& c2.book.last_bid_price == price
        &&& c2.book.matching_bid_price == price
        &&& c2.book.last_ask_price == c1.book.last_ask_price
        &&& c2.book.matching_ask_price == c1.book.matching_ask_price
    } else {
        &&& c2.book.last_ask_price == price
        &&& c2.book.matching_ask_price == price
        &&& c2.book.last_bid_price == c1.book.last_bid_price
        &&& c2.book.matching_bid_price == c1.book.matching_bid_price
    }
}

/// Order `o` modified to `new_price` and `new_quantity`; with in-flight
/// mitigation what was already executed counts against the new quantity.
pub open spec fn modified(o: Order, new_price: u64, new_quantity: u64, mitigate: bool) -> Order {
    Order {
        price: new_price,
        quantity: new_quantity,
        leaves_quantity: if !mitigate {
            new_quantity
        } else if new_quantity > o.executed_quantity {
            (new_quantity - o.executed_quantity) as u64
        } else {
            0
        },
        ..o
    }
}

/// Order `o` replaced by a fresh order `new_id` of `new_quantity` at
/// `new_price`.
pub open spec fn replaced(o: Order, new_id: u64, new_price: u64, new_quantity: u64) -> Order {
    Order {
        id: new_id,
        price: new_price,
        quantity: new_quantity,
        executed_quantity: 0,
        leaves_quantity: new_quantity,
        ..o
    }
}

/// `c3` and `r` are what re-adding `o1` to `c2` gives: it is stored when
/// something of it remains, and fails with `OrderDuplicate`, changing
/// nothing, when its id is taken.
pub open spec fn readded(c2: ExecutionContext, c3: ExecutionContext, o1: Order, r: Result<(), ErrorCode>) -> bool {
    if o1.leaves_quantity > 0 {
        if c2.orders@.contains_key(o1.id) {
            r == Err::<(), ErrorCode>(ErrorCode::OrderDuplicate) && c3.same_state(&c2)
        } else {
            inserted(c2, c3, o1, r)
        }
    } else {
        r is Ok && c3.same_state(&c2)
    }
}

/// `c` and `r` are what adding limit order `order` to `c0` gives; see
/// `add_limit_order`.
pub open spec fn limit_added(
    c0: ExecutionContext,
    c: ExecutionContext,
    order: Order,
    matching: bool,
    recursive: bool,
    r: Result<(), ErrorCode>,
) -> bool {
    exists|c1: ExecutionContext, o1: Order, c2: ExecutionContext|
        #[trigger] rested(c1, c2, o1, r) && limit_matched(
            c0,
            c1,
            order,
            o1,
            runs(matching, recursive),
        ) && (r is Ok ==> settled(c2, c, runs(matching, recursive))) && (r is Err
            ==> c.same_state(&c2))
}

/// `c` and `r` are what adding market order `order` to `c0` gives; see
/// `add_market_order`.
pub open spec fn market_added(
    c0: ExecutionContext,
    c: ExecutionContext,
    order: Order,
    matching: bool,
    recursive: bool,
    r: Result<(), ErrorCode>,
) -> bool {
    &&& r is Ok
    &&& exists|c1: ExecutionContext, o1: Order|
        #[trigger] market_matched(c0, c1, order, o1, runs(matching, recursive)) && settled(
            c1,
            c,
            runs(matching, recursive),
        )
}

/// `c` and `r` are what adding stop order `order` to `c0` gives; see
/// `add_stop_order`.
pub open spec fn stop_added(
    c0: ExecutionContext,
    c: ExecutionContext,
    order: Order,
    matching: bool,
    recursive: bool,
    r: Result<(), ErrorCode>,
) -> bool {
    let o0 = trailing_adjusted(c0.book, order);
    let run = runs(matching, recursive);
    &&& run && stop_reached(c0.book, o0) ==> r is Ok && exists|c1: ExecutionContext, o1: Order|
        #[trigger] market_matched(c0, c1, as_market(o0), o1, true) && settled(c1, c, true)
    &&& !(run && stop_reached(c0.book, o0)) ==> exists|c2: ExecutionContext|
        #[trigger] stop_rested(c0, c2, o0, r) && (r is Ok ==> settled(c2, c, run)) && (r is Err
            ==> c.same_state(&c2))
}

/// `c` and `r` are what adding stop-limit order `order` to `c0` gives;
/// see `add_stop_limit_order`.
pub open spec fn stop_limit_added(
    c0: ExecutionContext,
    c: ExecutionContext,
    order: Order,
    matching: bool,
    recursive: bool,
    r: Result<(), ErrorCode>,
) -> bool {
    let o0 = trailing_adjusted(c0.book, order);
    let run = runs(matching, recursive);
    &&& run && stop_reached(c0.book, o0) ==> exists|
        c1: ExecutionContext,
        o1: Order,
        c2: ExecutionContext,
    |
        #[trigger] rested(c1, c2, o1, r) && matched(c0, c1, as_limit(o0), o1) && (r is Ok
            ==> settled(c2, c, true)) && (r is Err ==> c.same_state(&c2))
    &&& !(run && stop_reached(c0.book, o0)) ==> exists|c2: ExecutionContext|
        #[trigger] stop_rested(c0, c2, o0, r) && (r is Ok ==> settled(c2, c, run)) && (r is Err
            ==> c.same_state(&c2))
}

/// `c` and `r` are what reducing order `id` of `c0` by `quantity` gives;
/// see `reduce_order`.
pub open spec fn order_reduced(
    c0: ExecutionContext,
    c: ExecutionContext,
    id: u64,
    quantity: u64,
    matching: bool,
    recursive: bool,
    r: Result<(), ErrorCode>,
) -> bool {
    if id == 0 {
        r == Err::<(), ErrorCode>(ErrorCode::OrderIdInvalid) && c.same_state(&c0)
    } else if quantity == 0 {
        r == Err::<(), ErrorCode>(ErrorCode::OrderQuantityInvalid) && c.same_state(&c0)
    } else if lookup_error(c0, id) is Some {
        r == Err::<(), ErrorCode>(lookup_error(c0, id)->0) && c.same_state(&c0)
    } else {
        r is Ok && exists|c1: ExecutionContext|
            #[trigger] reduced_by(c0, c1, id, capped(c0.orders@[id], quantity), false) && c1.wf()
                && settled(c1, c, runs(matching, recursive))
    }
}

/// `c` and `r` are what deleting order `id` of `c0` gives; see
/// `delete_order_recursive`.
pub open spec fn order_deleted(
    c0: ExecutionContext,
    c: ExecutionContext,
    id: u64,
    matching: bool,
    recursive: bool,
    r: Result<(), ErrorCode>,
) -> bool {
    if id == 0 {
        r == Err::<(), ErrorCode>(ErrorCode::OrderIdInvalid) && c.same_state(&c0)
    } else if lookup_error(c0, id) is Some {
        r == Err::<(), ErrorCode>(lookup_error(c0, id)->0) && c.same_state(&c0)
    } else {
        r is Ok && exists|c1: ExecutionContext|
            #[trigger] reduced_by(c0, c1, id, c0.orders@[id].leaves_quantity, false) && c1.wf()
                && settled(c1, c, runs(matching, recursive))
    }
}

/// `c` and `r` are what executing `quantity` of order `id` of `c0` gives;
/// see `execute_order`.
pub open spec fn order_executed(
    c0: ExecutionContext,
    c: ExecutionContext,
    id: u64,
    price: u64,
    quantity: u64,
    matching: bool,
    r: Result<(), ErrorCode>,
) -> bool {
    if id == 0 {
        r == Err::<(), ErrorCode>(ErrorCode::OrderIdInvalid) && c.same_state(&c0)
    } else if quantity == 0 {
        r == Err::<(), ErrorCode>(ErrorCode::OrderQuantityInvalid) && c.same_state(&c0)
    } else if lookup_error(c0, id) is Some {
        r == Err::<(), ErrorCode>(lookup_error(c0, id)->0) && c.same_state(&c0)
    } else {
        r is Ok && exists|c1: ExecutionContext, c2: ExecutionContext|
            #[trigger] priced(c0, c1, c0.orders@[id], c0.orders@[id].price) && #[trigger] reduced_by(
                c1,
                c2,
                id,
                capped(c0.orders@[id], quantity),
                true,
            ) && c2.wf() && settled(c2, c, matching)
    }
}

/// `c` and `r` are what modifying order `id` of `c0` gives; see
/// `modify_order`.
pub open spec fn order_modified(
    c0: ExecutionContext,
    c: ExecutionContext,
    id: u64,
    new_price: u64,
    new_quantity: u64,
    mitigate: bool,
    matching: bool,
    recursive: bool,
    r: Result<(), ErrorCode>,
) -> bool {
    if id == 0 {
        r == Err::<(), ErrorCode>(ErrorCode::OrderIdInvalid) && c.same_state(&c0)
    } else if new_quantity == 0 {
        r == Err::<(), ErrorCode>(ErrorCode::OrderQuantityInvalid) && c.same_state(&c0)
    } else if lookup_error(c0, id) is Some {
        r == Err::<(), ErrorCode>(lookup_error(c0, id)->0) && c.same_state(&c0)
    } else if !mitigate && c0.orders@[id].executed_quantity + new_quantity > u64::MAX {
        r == Err::<(), ErrorCode>(ErrorCode::OrderQuantityInvalid) && c.same_state(&c0)
    } else {
        let m0 = modified(c0.orders@[id], new_price, new_quantity, mitigate);
        exists|c1: ExecutionContext, c2: ExecutionContext, o1: Order, c3: ExecutionContext|
            #[trigger] reduced_by(c0, c1, id, c0.orders@[id].leaves_quantity, false)
                && #[trigger] readded(c2, c3, o1, r) && c1.wf() && (if m0.leaves_quantity > 0 {
                limit_matched(c1, c2, m0, o1, runs(matching, recursive))
            } else {
                c2.same_state(&c1) && o1 == m0
            }) && settled(c3, c, runs(matching, recursive))
    }
}

/// `c` and `r` are what replacing order `id` of `c0` gives; see
/// `replace_order_internal`.
pub open spec fn order_replaced(
    c0: ExecutionContext,
    c: ExecutionContext,
    id: u64,
    new_id: u64,
    new_price: u64,
    new_quantity: u64,
    matching: bool,
    recursive: bool,
    r: Result<(), ErrorCode>,
) -> bool {
    if id == 0 || new_id == 0 || new_quantity == 0 {
        r == Err::<(), ErrorCode>(ErrorCode::OrderIdInvalid) && c.same_state(&c0)
    } else if !c0.orders@.contains_key(id) {
        r == Err::<(), ErrorCode>(ErrorCode::OrderNotFound) && c.same_state(&c0)
    } else if c0.orders@[id].order_type != OrderType::Limit {
        r == Err::<(), ErrorCode>(ErrorCode::OrderTypeInvalid) && c.same_state(&c0)
    } else if c0.orders@[id].symbol_id != c0.symbol {
        r == Err::<(), ErrorCode>(ErrorCode::OrderBookNotFound) && c.same_state(&c0)
    } else {
        exists|c1: ExecutionContext, c2: ExecutionContext, o1: Order, c3: ExecutionContext|
            #[trigger] reduced_by(c0, c1, id, c0.orders@[id].leaves_quantity, false)
                && #[trigger] readded(c2, c3, o1, r) && c1.wf() && limit_matched(
                c1,
                c2,
                replaced(c0.orders@[id], new_id, new_price, new_quantity),
                o1,
                runs(matching, recursive),
            ) && (r is Ok ==> settled(c3, c, runs(matching, recursive))) && (r is Err
                ==> c.same_state(&c3))
    }
}

impl ExecutionContext {
    /// The live order `id` of this engine, or the error of `lookup_error`.
    fn lookup(&self, id: u64) -> (r: Result<Order, ErrorCode>)
        ensures
            match r {
                Ok(o) => lookup_error(*self, id) is None && o == self.orders@[id],
                Err(e) => lookup_error(*self, id) == Some(e),
            },
    {
        match self.orders.find(id) {
            Some(o) => if o.symbol_id == self.symbol {
                Ok(o)
            } else {
                Err(ErrorCode::OrderBookNotFound)
            },
            None => Err(ErrorCode::OrderNotFound),
        }
    }

    /// Reduces live order `id` by `quantity`, at most what remains of it,
    /// without executing it: the order is updated, or deleted when nothing
    /// remains. Then the book matches itself when `matching` and not
    /// `recursive`, and the matching prices are reset.
    pub fn reduce_order(&mut self, id: u64, quantity: u64, matching: bool, recursive: bool) -> (r: Result<(), ErrorCode>)
        requires
            old(self).wf(),
        ensures
            final(self).wf(),
            final(self).symbol == old(self).symbol,
            changes_only(old(self).orders@, final(self).orders@, old(self).symbol),
            order_reduced(*old(self), *final(self), id, quantity, matching, recursive, r),
    {
        if id == 0 {
            return Err(ErrorCode::OrderIdInvalid);
        }
        if quantity == 0 {
            return Err(ErrorCode::OrderQuantityInvalid);
        }
        let o = match self.lookup(id) {
            Ok(o) => o,
            Err(e) => {
                return Err(e);
            },
        };
        let q = if quantity < o.leaves_quantity {
            quantity
        } else {
            o.leaves_quantity
        };
        self.reduce_resting(id, q, false);
        let ghost c1 = *self;
        self.settle(matching && !recursive);
        proof {
            lemma_changes_only_trans(old(self).orders@, c1.orders@, self.orders@, old(self).symbol);
            assert(reduced_by(*old(self), c1, id, capped(old(self).orders@[id], quantity), false));
        }
        Ok(())
    }

    /// Deletes live order `id` from the book and the orders. Then the book
    /// matches itself when `matching` and not `recursive`, and the matching
    /// prices are reset.
    pub fn delete_order_recursive(&mut self, id: u64, matching: bool, recursive: bool) -> (r: Result<(), ErrorCode>)
        requires
            old(self).wf(),
        ensures
            final(self).wf(),
            final(self).symbol == old(self).symbol,
            changes_only(old(self).orders@, final(self).orders@, old(self).symbol),
            order_deleted(*old(self), *final(self), id, matching, recursive, r),
    {
        if id == 0 {
            return Err(ErrorCode::OrderIdInvalid);
        }
        let o = match self.lookup(id) {
            Ok(o) => o,
            Err(e) => {
                return Err(e);
            },
        };
        self.reduce_resting(id, o.leaves_quantity, false);
        let ghost c1 = *self;
        self.settle(matching && !recursive);
        proof {
            lemma_changes_only_trans(old(self).orders@, c1.orders@, self.orders@, old(self).symbol);
            assert(reduced_by(*old(self), c1, id, old(self).orders@[id].leaves_quantity, false));
        }
        Ok(())
    }

    /// Removes live order `id` from the book and the orders, without
    /// matching.
    pub fn remove_order(&mut self, id: u64) -> (r: Result<(), ErrorCode>)
        requires
            old(self).wf(),
        ensures
            final(self).wf(),
            final(self).symbol == old(self).symbol,
            changes_only(old(self).orders@, final(self).orders@, old(self).symbol),
            lookup_error(*old(self), id) is Some ==> r == Err::<(), ErrorCode>(
                lookup_error(*old(self), id)->0,
            ) && final(self).same_state(old(self)),
            lookup_error(*old(self), id) is None ==> r is Ok && reduced_by(
                *old(self),
                *final(self),
                id,
                old(self).orders@[id].leaves_quantity,
                false,
            ),
    {
        let o = match self.lookup(id) {
            Ok(o) => o,
            Err(e) => {
                return Err(e);
            },
        };
        self.reduce_resting(id, o.leaves_quantity, false);
        Ok(())
    }

    /// Executes `quantity` of live order `id`, at most what remains of it:
    /// the order's own price becomes the last and matching price of its
    /// side (`price` does not enter), and the order is updated or deleted
    /// when nothing remains. Then the book matches itself when `matching`,
    /// and the matching prices are reset.
    pub fn execute_order(&mut self, id: u64, price: u64, quantity: u64, matching: bool) -> (r: Result<(), ErrorCode>)
        requires
            old(self).wf(),
        ensures
            final(self).wf(),
            final(self).symbol == old(self).symbol,
            changes_only(old(self).orders@, final(self).orders@, old(self).symbol),
            order_executed(*old(self), *final(self), id, price, quantity, matching, r),
    {
        if id == 0 {
            return Err(ErrorCode::OrderIdInvalid);
        }
        if quantity == 0 {
            return Err(ErrorCode::OrderQuantityInvalid);
        }
        let o = match self.lookup(id) {
            Ok(o) => o,
            Err(e) => {
                return Err(e);
            },
        };
        let q = if quantity < o.leaves_quantity {
            quantity
        } else {
            o.leaves_quantity
        };
        self.book.update_last_price(&o, o.price);
        self.book.update_matching_price(&o, o.price);
        proof {
            lemma_book_ok_prices(old(self).book, self.book, self.symbol, self.orders@);
        }
        let ghost c1 = *self;
        self.reduce_resting(id, q, true);
        let ghost c2 = *self;
        self.settle(matching);
        proof {
            lemma_changes_only_trans(old(self).orders@, c2.orders@, self.orders@, old(self).symbol);
            assert(priced(*old(self), c1, old(self).orders@[id], old(self).orders@[id].price));
            assert(reduced_by(c1, c2, id, capped(old(self).orders@[id], quantity), true));
        }
        Ok(())
    }

    /// Modifies live order `id` to `new_price` and `new_quantity`: the
    /// order leaves the book; its remaining quantity becomes the new
    /// quantity, less what was executed with in-flight mitigation
    /// (`mitigate`); when something remains it is matched as a limit order
    /// when `matching` and not `recursive`, and what then remains goes back
    /// to its side. Then the book matches itself under the same condition
    /// and the matching prices are reset; the result is that of putting the
    /// order back. Without mitigation, a new quantity that cannot be counted
    /// together with the executed quantity fails.
    #[verifier::spinoff_prover]
    pub fn modify_order(
        &mut self,
        id: u64,
        new_price: u64,
        new_quantity: u64,
        mitigate: bool,
        matching: bool,
        recursive: bool,
    ) -> (r: Result<(), ErrorCode>)
        requires
            old(self).wf(),
        ensures
            final(self).wf(),
            final(self).symbol == old(self).symbol,
            changes_only(old(self).orders@, final(self).orders@, old(self).symbol),
            order_modified(*old(self), *final(self), id, new_price, new_quantity, mitigate, matching, recursive, r),
    {
        if id == 0 {
            return Err(ErrorCode::OrderIdInvalid);
        }
        if new_quantity == 0 {
            return Err(ErrorCode::OrderQuantityInvalid);
        }
        let o = match self.lookup(id) {
            Ok(o) => o,
            Err(e) => {
                return Err(e);
            },
        };
        if !mitigate && o.executed_quantity > u64::MAX - new_quantity {
            return Err(ErrorCode::OrderQuantityInvalid);
        }
        let run = matching && !recursive;
        proof {
            assert(live(id, o));
        }
        self.reduce_resting(id, o.leaves_quantity, false);
        let ghost c1 = *self;
        let mut m = o;
        m.price = new_price;
        m.quantity = new_quantity;
        m.leaves_quantity = new_quantity;
        if mitigate {
            m.leaves_quantity = if new_quantity > o.executed_quantity {
                new_quantity - o.executed_quantity
            } else {
                0
            };
        }
        proof {
            assert(m == modified(o, new_price, new_quantity, mitigate));
        }
        if m.leaves_quantity > 0 && run {
            self.match_limit(&mut m);
        }
        let ghost c2 = *self;
        let ghost o1 = m;
        let r = if m.leaves_quantity == 0 {
            Ok(())
        } else if self.orders.contains(m.id) {
            Err(ErrorCode::OrderDuplicate)
        } else {
            self.insert_order(m)
        };
        let ghost c3 = *self;
        self.settle(run);
        proof {
            lemma_changes_only_trans(old(self).orders@, c1.orders@, c2.orders@, old(self).symbol);
            lemma_changes_only_trans(old(self).orders@, c2.orders@, c3.orders@, old(self).symbol);
            lemma_changes_only_trans(old(self).orders@, c3.orders@, self.orders@, old(self).symbol);
            assert(reduced_by(*old(self), c1, id, old(self).orders@[id].leaves_quantity, false));
            assert(readded(c2, c3, o1, r));
        }
        r
    }

    /// Modifies live order `id` with in-flight mitigation and matching; see
    /// `modify_order`.
    pub fn mitigate_order(&mut self, id: u64, new_price: u64, new_quantity: u64) -> (r: Result<(), ErrorCode>)
        requires
            old(self).wf(),
        ensures
            final(self).wf(),
            final(self).symbol == old(self).symbol,
            changes_only(old(self).orders@, final(self).orders@, old(self).symbol),
            order_modified(*old(self), *final(self), id, new_price, new_quantity, true, true, false, r),
    {
        self.modify_order(id, new_price, new_quantity, true, true, false)
    }

    /// Replaces live limit order `id` by a fresh order `new_id` of
    /// `new_quantity` at `new_price`, with nothing executed: the old order
    /// leaves the book and the orders; the new one is matched when
    /// `matching` and not `recursive` and stored with its side when
    /// something of it remains. Then the book matches itself under the same
    /// condition and the matching prices are reset. A zero id, new id or
    /// new quantity is an invalid id; a duplicate new id fails after the
    /// old order left.
    pub fn replace_order_internal(
        &mut self,
        id: u64,
        new_id: u64,
        new_price: u64,
        new_quantity: u64,
        matching: bool,
        recursive: bool,
    ) -> (r: Result<(), ErrorCode>)
        requires
            old(self).wf(),
        ensures
            final(self).wf(),
            final(self).symbol == old(self).symbol,
            changes_only(old(self).orders@, final(self).orders@, old(self).symbol),
            order_replaced(*old(self), *final(self), id, new_id, new_price, new_quantity, matching, recursive, r),
    {
        if id == 0 || new_id == 0 || new_quantity == 0 {
            return Err(ErrorCode::OrderIdInvalid);
        }
        let o = match self.orders.find(id) {
            Some(o) => o,
            None => {
                return Err(ErrorCode::OrderNotFound);
            },
        };
        if !o.is_limit() {
            return Err(ErrorCode::OrderTypeInvalid);
        }
        if o.symbol_id != self.symbol {
            return Err(ErrorCode::OrderBookNotFound);
        }
        let run = matching && !recursive;
        self.reduce_resting(id, o.leaves_quantity, false);
        let ghost c1 = *self;
        let mut m = o;
        m.id = new_id;
        m.price = new_price;
        m.quantity = new_quantity;
        m.executed_quantity = 0;
        m.leaves_quantity = new_quantity;
        proof {
            assert(m == replaced(o, new_id, new_price, new_quantity));
        }
        if run {
            self.match_limit(&mut m);
        }
        let ghost c2 = *self;
        let ghost o1 = m;
        let r = if m.leaves_quantity == 0 {
            Ok(())
        } else if self.orders.contains(m.id) {
            Err(ErrorCode::OrderDuplicate)
        } else {
            self.insert_order(m)
        };
        let ghost c3 = *self;
        proof {
            lemma_changes_only_trans(old(self).orders@, c1.orders@, c2.orders@, old(self).symbol);
            lemma_changes_only_trans(old(self).orders@, c2.orders@, c3.orders@, old(self).symbol);
            assert(reduced_by(*old(self), c1, id, old(self).orders@[id].leaves_quantity, false));
            assert(readded(c2, c3, o1, r));
        }
        if r.is_err() {
            return r;
        }
        self.settle(run);
        proof {
            lemma_changes_only_trans(old(self).orders@, c3.orders@, self.orders@, old(self).symbol);
        }
        r
    }

    /// Accepts a change of a price level; the market handler keeps no
    /// state of its own, so every kind of change is accepted.
    pub fn update_level(&self, update: &LevelUpdate) -> (r: Result<(), ErrorCode>)
        ensures
            r is Ok,
    {
        match update.update_type {
            UpdateType::Add => Ok(()),
            UpdateType::Update => Ok(()),
            UpdateType::Delete => Ok(()),
        }
    }

    /// Reduces live limit order `id` by `quantity` without executing it,
    /// deleting it when nothing remains.
    /// Fails when the order is not a live limit order of this engine or
    /// `quantity` is zero or more than what remains.
    pub fn update_level_on_reduction(&mut self, id: u64, quantity: u64) -> (r: Result<(), ErrorCode>)
        requires
            old(self).wf(),
        ensures
            final(self).wf(),
            final(self).symbol == old(self).symbol,
            changes_only(old(self).orders@, final(self).orders@, old(self).symbol),
            lookup_error(*old(self), id) is Some ==> r == Err::<(), ErrorCode>(
                lookup_error(*old(self), id)->0,
            ) && final(self).same_state(old(self)),
            lookup_error(*old(self), id) is None && old(self).orders@[id].order_type
                != OrderType::Limit ==> r == Err::<(), ErrorCode>(ErrorCode::OrderTypeInvalid)
                && final(self).same_state(old(self)),
            lookup_error(*old(self), id) is None && old(self).orders@[id].order_type == OrderType::Limit
                && !(0 < quantity <= old(self).orders@[id].leaves_quantity) ==> r == Err::<(), ErrorCode>(
                ErrorCode::OrderQuantityInvalid,
            ) && final(self).same_state(old(self)),
            lookup_error(*old(self), id) is None && old(self).orders@[id].order_type == OrderType::Limit
                && 0 < quantity <= old(self).orders@[id].leaves_quantity ==> r is Ok && reduced_by(
                *old(self),
                *final(self),
                id,
                quantity,
                false,
            ),
    {
        let o = match self.lookup(id) {
            Ok(o) => o,
            Err(e) => {
                return Err(e);
            },
        };
        if !o.is_limit() {
            return Err(ErrorCode::OrderTypeInvalid);
        }
        if quantity == 0 || quantity > o.leaves_quantity {
            return Err(ErrorCode::OrderQuantityInvalid);
        }
        self.reduce_resting(id, quantity, false);
        Ok(())
    }

    /// Reduces live trailing stop order `id` by `quantity` without
    /// executing it, deleting it when nothing remains. Fails when the order
    /// is not a live trailing stop order of this engine or `quantity` is
    /// zero or more than what remains.
    pub fn reduce_trailing_stop_order(&mut self, id: u64, quantity: u64) -> (r: Result<(), ErrorCode>)
        requires
            old(self).wf(),
        ensures
            final(self).wf(),
            final(self).symbol == old(self).symbol,
            changes_only(old(self).orders@, final(self).orders@, old(self).symbol),
            lookup_error(*old(self), id) is Some ==> r == Err::<(), ErrorCode>(
                lookup_error(*old(self), id)->0,
            ) && final(self).same_state(old(self)),
            lookup_error(*old(self), id) is None && !old(self).orders@[id].is_trailing_kind() ==> r
                == Err::<(), ErrorCode>(ErrorCode::OrderTypeInvalid) && final(self).same_state(old(self)),
            lookup_error(*old(self), id) is None && old(self).orders@[id].is_trailing_kind() && !(0
                < quantity <= old(self).orders@[id].leaves_quantity) ==> r == Err::<(), ErrorCode>(
                ErrorCode::OrderQuantityInvalid,
            ) && final(self).same_state(old(self)),
            lookup_error(*old(self), id) is None && old(self).orders@[id].is_trailing_kind() && 0
                < quantity <= old(self).orders@[id].leaves_quantity ==> r is Ok && reduced_by(
                *old(self),
                *final(self),
                id,
                quantity,
                false,
            ),
    {
        let o = match self.lookup(id) {
            Ok(o) => o,
            Err(e) => {
                return Err(e);
            },
        };
        if !(o.is_trailing_stop() || o.is_trailing_stop_limit()) {
            return Err(ErrorCode::OrderTypeInvalid);
        }
        if quantity == 0 || quantity > o.leaves_quantity {
            return Err(ErrorCode::OrderQuantityInvalid);
        }
        self.reduce_resting(id, quantity, false);
        Ok(())
    }
}

} // verus!
