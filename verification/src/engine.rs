//! The matching engine of one symbol: its order book together with the
//! live orders, kept in agreement by every operation.
use vstd::prelude::*;

use crate::consistency::{book_ok, changes_only, engine_ok, lemma_book_insert, lemma_book_reduce, lemma_has_level, live, reduced_orders, resting, side_ok, placed};
use crate::level::Level;
use crate::levels::{side_added, side_can_add, side_reduced};
use crate::order::{ErrorCode, Order, OrderType};
use crate::order_book::{no_leaves, book_key, book_kind, key_of, kind_of, side_type, BookKind, OrderBook};
use crate::orders::Orders;
use crate::volumes::{lemma_side_volume_added, lemma_side_volume_reduced, side_volume};

verus! {

broadcast use vstd::std_specs::hash::group_hash_axioms;

/// The engine of one symbol: the symbol's order book and the live orders.
pub struct ExecutionContext {
    pub book: OrderBook,
    pub orders: Orders,
    pub symbol: u64,
}

/// `o` after `q` of its remaining quantity is taken away, counted as
/// executed when `execute`.
pub open spec fn after_reduce(o: Order, q: u64, execute: bool) -> Order {
    Order {
        leaves_quantity: (o.leaves_quantity - q) as u64,
        executed_quantity: if execute {
            (o.executed_quantity + q) as u64
        } else {
            o.executed_quantity
        },
        ..o
    }
}

/// Every order of `m2` is an order of `m1`.
pub open spec fn no_new_orders(m1: Map<u64, Order>, m2: Map<u64, Order>) -> bool {
    forall|x: u64| #[trigger] m2.contains_key(x) ==> m1.contains_key(x)
}

/// Every order of `m2` is an order of `m1` that at most had some of its
/// remaining quantity executed: an order may leave, but one that stays
/// only moved quantity from remaining to executed.
pub open spec fn only_executed(m1: Map<u64, Order>, m2: Map<u64, Order>) -> bool {
    forall|x: u64|
        #[trigger] m2.contains_key(x) ==> m1.contains_key(x) && m2[x].leaves_quantity
            <= m1[x].leaves_quantity && m2[x].leaves_quantity + m2[x].executed_quantity
            == m1[x].leaves_quantity + m1[x].executed_quantity
}

/// Nothing executed: the same orders.
pub proof fn lemma_only_executed_refl(m: Map<u64, Order>)
    ensures
        only_executed(m, m),
{
}

/// Executions one after the other are executions.
pub proof fn lemma_only_executed_trans(m1: Map<u64, Order>, m2: Map<u64, Order>, m3: Map<u64, Order>)
    requires
        only_executed(m1, m2),
        only_executed(m2, m3),
    ensures
        only_executed(m1, m3),
{
    assert forall|x: u64| #[trigger] m3.contains_key(x) implies m1.contains_key(x) && m3[x].leaves_quantity
        <= m1[x].leaves_quantity && m3[x].leaves_quantity + m3[x].executed_quantity
        == m1[x].leaves_quantity + m1[x].executed_quantity by {
        assert(m2.contains_key(x));
    }
}

/// Executing part of an order, or taking all of it away, only executes.
pub proof fn lemma_reduce_only_executes(c1: ExecutionContext, c2: ExecutionContext, id: u64, quantity: u64, execute: bool)
    requires
        reduced_by(c1, c2, id, quantity, execute),
        c1.orders@.contains_key(id),
        quantity <= c1.orders@[id].leaves_quantity,
        c1.orders@[id].executed_quantity + c1.orders@[id].leaves_quantity <= u64::MAX,
        execute || quantity == c1.orders@[id].leaves_quantity,
    ensures
        only_executed(c1.orders@, c2.orders@),
{
}

/// The orders other than limit orders are the same in `m1` and `m2`.
pub open spec fn stops_kept(m1: Map<u64, Order>, m2: Map<u64, Order>) -> bool {
    &&& forall|x: u64|
        #[trigger] m1.contains_key(x) && m1[x].order_type != OrderType::Limit ==> m2.contains_key(x)
            && m2[x] == m1[x]
    &&& forall|x: u64|
        #[trigger] m2.contains_key(x) && m2[x].order_type != OrderType::Limit ==> m1.contains_key(x)
            && m1[x] == m2[x]
}

/// Keeping the non-limit orders is transitive.
pub proof fn lemma_stops_kept_trans(m1: Map<u64, Order>, m2: Map<u64, Order>, m3: Map<u64, Order>)
    requires
        stops_kept(m1, m2),
        stops_kept(m2, m3),
    ensures
        stops_kept(m1, m3),
{
    assert forall|x: u64| #[trigger] m1.contains_key(x) && m1[x].order_type != OrderType::Limit implies m3.contains_key(x)
        && m3[x] == m1[x] by {
        assert(m2.contains_key(x));
    }
    assert forall|x: u64| #[trigger] m3.contains_key(x) && m3[x].order_type != OrderType::Limit implies m1.contains_key(x)
        && m1[x] == m3[x] by {
        assert(m2.contains_key(x));
    }
}

/// Any orders keep their non-limit orders.
pub proof fn lemma_stops_kept_refl(m: Map<u64, Order>)
    ensures
        stops_kept(m, m),
{
}

/// Adding a new limit order keeps the non-limit orders.
pub proof fn lemma_insert_limit_keeps_stops(m: Map<u64, Order>, id: u64, o: Order)
    requires
        !m.contains_key(id),
        o.order_type == OrderType::Limit,
    ensures
        stops_kept(m, m.insert(id, o)),
{
}

/// Reducing a limit order keeps the non-limit orders.
pub proof fn lemma_reduce_keeps_stops(c1: ExecutionContext, c2: ExecutionContext, id: u64, quantity: u64, execute: bool)
    requires
        c1.orders@.contains_key(id),
        c1.orders@[id].order_type == OrderType::Limit,
        reduced_by(c1, c2, id, quantity, execute),
    ensures
        stops_kept(c1.orders@, c2.orders@),
{
}

/// The stop and trailing stop sides of the two books are the same.
pub open spec fn stop_sides_same(a: OrderBook, b: OrderBook) -> bool {
    &&& a.buy_stop@ == b.buy_stop@
    &&& a.sell_stop@ == b.sell_stop@
    &&& a.trailing_buy_stop@ == b.trailing_buy_stop@
    &&& a.trailing_sell_stop@ == b.trailing_sell_stop@
}

/// The limit sides of the two books are the same.
pub open spec fn limit_sides_same(a: OrderBook, b: OrderBook) -> bool {
    &&& a.bids@ == b.bids@
    &&& a.asks@ == b.asks@
}

/// `a` is `b` with some of its remaining quantity executed.
pub open spec fn filled_from(a: Order, b: Order) -> bool {
    &&& a == Order { leaves_quantity: a.leaves_quantity, executed_quantity: a.executed_quantity, ..b }
    &&& a.leaves_quantity <= b.leaves_quantity
    &&& a.leaves_quantity + a.executed_quantity == b.leaves_quantity + b.executed_quantity
}

/// A book agrees with the orders whatever its market prices are.
pub proof fn lemma_book_ok_prices(b1: OrderBook, b2: OrderBook, sym: u64, orders: Map<u64, Order>)
    requires
        book_ok(b1, sym, orders),
        b2.same_sides(&b1),
    ensures
        book_ok(b2, sym, orders),
{
    assert(b2.side(BookKind::Limit, true) == b1.side(BookKind::Limit, true));
    assert(b2.side(BookKind::Limit, false) == b1.side(BookKind::Limit, false));
    assert(b2.side(BookKind::Stop, true) == b1.side(BookKind::Stop, true));
    assert(b2.side(BookKind::Stop, false) == b1.side(BookKind::Stop, false));
    assert(b2.side(BookKind::TrailingStop, true) == b1.side(BookKind::TrailingStop, true));
    assert(b2.side(BookKind::TrailingStop, false) == b1.side(BookKind::TrailingStop, false));
    assert forall|k: BookKind, b: bool| side_ok(#[trigger] b2.side(k, b), k, b, sym, orders) by {
        assert(side_ok(b1.side(k, b), k, b, sym, orders));
    }
    assert forall|id: u64| #[trigger] orders.contains_key(id) && orders[id].symbol_id == sym implies placed(
        b2.side(kind_of(orders[id]), orders[id].spec_is_buy()),
        key_of(orders[id]),
        id,
    ) by {
        assert(placed(b1.side(kind_of(orders[id]), orders[id].spec_is_buy()), key_of(orders[id]), id));
    }
}

/// A change of one limit side leaves the stop sides and the other limit
/// side as they were.
pub proof fn lemma_limit_change(a: OrderBook, b: OrderBook, buy: bool)
    requires
        a.same_except(&b, BookKind::Limit, buy),
    ensures
        stop_sides_same(a, b),
        a.side(BookKind::Limit, !buy) == b.side(BookKind::Limit, !buy),
        a.same_prices(&b),
{
    assert(a.side(BookKind::Stop, true) == b.side(BookKind::Stop, true));
    assert(a.side(BookKind::Stop, false) == b.side(BookKind::Stop, false));
    assert(a.side(BookKind::TrailingStop, true) == b.side(BookKind::TrailingStop, true));
    assert(a.side(BookKind::TrailingStop, false) == b.side(BookKind::TrailingStop, false));
    assert(a.side(BookKind::Limit, !buy) == b.side(BookKind::Limit, !buy));
}

/// Books with the same levels have the same stop and limit sides.
pub proof fn lemma_same_sides(a: OrderBook, b: OrderBook)
    requires
        a.same_sides(&b),
    ensures
        stop_sides_same(a, b),
        limit_sides_same(a, b),
{
    assert(a.side(BookKind::Stop, true) == b.side(BookKind::Stop, true));
    assert(a.side(BookKind::Stop, false) == b.side(BookKind::Stop, false));
    assert(a.side(BookKind::TrailingStop, true) == b.side(BookKind::TrailingStop, true));
    assert(a.side(BookKind::TrailingStop, false) == b.side(BookKind::TrailingStop, false));
    assert(a.side(BookKind::Limit, true) == b.side(BookKind::Limit, true));
    assert(a.side(BookKind::Limit, false) == b.side(BookKind::Limit, false));
}

/// `c2` is `c1` after `quantity` of live order `id` was taken away,
/// counted as executed when `execute`: the order is updated, or removed
/// from the orders and its level when nothing of it remains; only its side
/// of the book changes, and it loses `quantity` of volume.
pub open spec fn reduced_by(c1: ExecutionContext, c2: ExecutionContext, id: u64, quantity: u64, execute: bool) -> bool {
    let o = c1.orders@[id];
    let o2 = after_reduce(o, quantity, execute);
    &&& c2.orders@ == (if o2.leaves_quantity == 0 {
        c1.orders@.remove(id)
    } else {
        c1.orders@.insert(id, o2)
    })
    &&& c2.book.same_except(&c1.book, kind_of(o), o.spec_is_buy())
    &&& side_volume(c2.book.side(kind_of(o), o.spec_is_buy())) + quantity == side_volume(
        c1.book.side(kind_of(o), o.spec_is_buy()),
    )
    &&& exists|r: (bool, Level)|
        #[trigger] side_reduced(
            c2.book.side(kind_of(o), o.spec_is_buy()),
            c1.book.side(kind_of(o), o.spec_is_buy()),
            key_of(o),
            id,
            quantity,
            hidden_delta(o, o2),
            visible_delta(o, o2),
            no_leaves(o2),
            r,
        )
}

/// The hidden quantity `o` loses on becoming `o2`.
pub open spec fn hidden_delta(o: Order, o2: Order) -> u64 {
    (o.hidden() - o2.hidden()) as u64
}

/// The visible quantity `o` loses on becoming `o2`.
pub open spec fn visible_delta(o: Order, o2: Order) -> u64 {
    (o.visible() - o2.visible()) as u64
}

impl ExecutionContext {
    /// The book agrees with the live orders.
    pub open spec fn wf(&self) -> bool {
        engine_ok(self.book, self.symbol, self.orders@)
    }

    /// `id` is a live order of the engine's symbol.
    pub open spec fn holds(&self, id: u64) -> bool {
        self.orders@.contains_key(id) && self.orders@[id].symbol_id == self.symbol
    }

    /// `self` and `other` are the same engine state.
    pub open spec fn same_state(&self, other: &ExecutionContext) -> bool {
        &&& self.book == other.book
        &&& self.orders@ == other.orders@
        &&& self.symbol == other.symbol
    }

    /// An engine of `symbol` with an empty book and no orders.
    pub fn new(symbol: u64) -> (c: ExecutionContext)
        ensures
            c.wf(),
            c.symbol == symbol,
            c.orders@ == Map::<u64, Order>::empty(),
            forall|k: BookKind, b: bool| #[trigger] c.book.side(k, b).len() == 0,
    {
        let c = ExecutionContext { book: OrderBook::new(), orders: Orders::new(), symbol };
        proof {
            assert forall|k: BookKind, b: bool| side_ok(#[trigger] c.book.side(k, b), k, b, symbol, c.orders@) by {
                assert(c.book.side(k, b).len() == 0);
            }
        }
        c
    }

    /// Takes `quantity` of the remaining quantity of live order `id` away,
    /// counting it as executed when `execute`; the order leaves the book
    /// and the orders when nothing of it remains.
    pub(crate) fn reduce_resting(&mut self, id: u64, quantity: u64, execute: bool)
        requires
            old(self).wf(),
            old(self).holds(id),
            0 < quantity <= old(self).orders@[id].leaves_quantity,
        ensures
            final(self).wf(),
            final(self).symbol == old(self).symbol,
            changes_only(old(self).orders@, final(self).orders@, old(self).symbol),
            reduced_by(*old(self), *final(self), id, quantity, execute),
    {
        let o = self.orders.find(id).unwrap();
        let mut o2 = o;
        o2.leaves_quantity = o.leaves_quantity - quantity;
        if execute {
            o2.executed_quantity = o.executed_quantity + quantity;
        }
        let hidden = o.hidden_quantity() - o2.hidden_quantity();
        let visible = o.visible_quantity() - o2.visible_quantity();
        let kind = book_kind(&o);
        let key = book_key(&o);
        let buy = o.is_buy();
        let unlink = o2.leaves_quantity == 0;
        proof {
            lemma_has_level(self.book, self.symbol, self.orders@, id);
        }
        let ghost old_book = self.book;
        let ghost old_orders = self.orders@;
        let r = self.book.reduce_in_side(kind, buy, key, id, quantity, hidden, visible, unlink);
        if unlink {
            self.orders.remove_order(&id);
        } else {
            self.orders.insert_order(&id, o2);
        }
        proof {
            assert(reduced_orders(old_orders, self.orders@, id, quantity, hidden, visible, unlink, o2));
            lemma_book_reduce(
                old_book,
                self.book,
                self.symbol,
                old_orders,
                self.orders@,
                id,
                quantity,
                hidden,
                visible,
                unlink,
                o2,
                r,
            );
            lemma_side_volume_reduced(
                self.book.side(kind, buy),
                old_book.side(kind, buy),
                key,
                id,
                quantity,
                hidden,
                visible,
                unlink,
                r,
            );
            assert(live(id, old_orders[id]));
            assert(o2 == after_reduce(o, quantity, execute));
            assert(unlink == no_leaves(o2));
            assert(hidden == hidden_delta(o, o2));
            assert(visible == visible_delta(o, o2));
            assert(side_reduced(
                self.book.side(kind, buy),
                old_book.side(kind, buy),
                key,
                id,
                quantity,
                hidden,
                visible,
                no_leaves(o2),
                r,
            ));
            assert forall|x: u64| #[trigger] self.orders@.contains_key(x) implies live(
                x,
                self.orders@[x],
            ) by {
                assert(old_orders.contains_key(x));
            }
        }
    }

    /// Stores `order` as a live order and queues it at its price on its
    /// side. Fails with `OrderDuplicate` when its id is taken, and with
    /// `OrderQuantityInvalid` when its level cannot take its volumes;
    /// nothing changes then.
    pub(crate) fn insert_resting(&mut self, order: Order) -> (r: Result<(), ErrorCode>)
        requires
            old(self).wf(),
            resting(order),
            order.leaves_quantity > 0,
            order.symbol_id == old(self).symbol,
            order.executed_quantity + order.leaves_quantity <= u64::MAX,
        ensures
            final(self).wf(),
            final(self).symbol == old(self).symbol,
            changes_only(old(self).orders@, final(self).orders@, old(self).symbol),
            old(self).orders@.contains_key(order.id) ==> r == Err::<(), ErrorCode>(
                ErrorCode::OrderDuplicate,
            ) && final(self).same_state(old(self)),
            !old(self).orders@.contains_key(order.id) && !side_can_add(
                old(self).book.side(kind_of(order), order.spec_is_buy()),
                key_of(order),
                order,
            ) ==> r == Err::<(), ErrorCode>(ErrorCode::OrderQuantityInvalid) && final(self).same_state(old(self)),
            r is Ok <==> !old(self).orders@.contains_key(order.id) && side_can_add(
                old(self).book.side(kind_of(order), order.spec_is_buy()),
                key_of(order),
                order,
            ),
            r is Ok ==> final(self).orders@ == old(self).orders@.insert(order.id, order)
                && final(self).book.same_except(&old(self).book, kind_of(order), order.spec_is_buy())
                && side_volume(final(self).book.side(kind_of(order), order.spec_is_buy()))
                == side_volume(old(self).book.side(kind_of(order), order.spec_is_buy()))
                + order.leaves_quantity && exists|x: (bool, usize)|
                #[trigger] side_added(
                final(self).book.side(kind_of(order), order.spec_is_buy()),
                old(self).book.side(kind_of(order), order.spec_is_buy()),
                side_type(kind_of(order), order.spec_is_buy()),
                key_of(order),
                order,
                x,
            ),
    {
        if self.orders.contains(order.id) {
            return Err(ErrorCode::OrderDuplicate);
        }
        let kind = book_kind(&order);
        let key = book_key(&order);
        let buy = order.is_buy();
        if !self.book.can_add_to_side(kind, buy, key, &order) {
            return Err(ErrorCode::OrderQuantityInvalid);
        }
        let ghost old_book = self.book;
        let ghost old_orders = self.orders@;
        let r = self.book.add_to_side(kind, buy, key, &order);
        self.orders.insert_order(&order.id, order);
        proof {
            lemma_book_insert(old_book, self.book, self.symbol, old_orders, order, r);
            lemma_side_volume_added(
                self.book.side(kind, buy),
                old_book.side(kind, buy),
                side_type(kind, buy),
                key,
                order,
                r,
            );
            assert forall|x: u64| #[trigger] self.orders@.contains_key(x) implies live(
                x,
                self.orders@[x],
            ) by {
                if x != order.id {
                    assert(old_orders.contains_key(x));
                }
            }
        }
        Ok(())
    }
}

} // verus!
