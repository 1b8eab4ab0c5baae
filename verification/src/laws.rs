//! Laws that relate several operations of the engine, or hold of every
//! consistent book.
use vstd::prelude::*;

use crate::consistency::{book_ok, lemma_not_queued, lemma_sum_positive_all, level_ok, order_fits, queue_sum, side_ok};
use crate::engine::{after_reduce, hidden_delta, reduced_by, visible_delta, ExecutionContext};
use crate::matching::{can_trade, chain_for, lemma_rest_of_taken, lemma_rest_within_taken, lemma_side_items_same, matched, opposite_items, side_items, taken_from};
use crate::level::{first_index_of, lemma_first_index_of, remove_first, Level, LevelUpdate, UpdateType};
use crate::levels::{lemma_unique_price, level_reduced, side_added, side_reduced, sorted_side};
use crate::operations::{capped, inserted, limit_added, limit_matched, lookup_error, order_deleted, order_reduced, rested, rests, settled};
use crate::order::{lemma_hidden_visible_sum, Order, OrderType};
use crate::order_book::{book_added, book_deleted, level_snapshot, no_leaves, side_asc, BookKind, OrderBook};

verus! {

/// Two sides hold levels of the same contents, in the same order.
pub open spec fn sides_match(a: Seq<Level>, b: Seq<Level>) -> bool {
    &&& a.len() == b.len()
    &&& forall|i: int| 0 <= i < a.len() ==> level_snapshot(#[trigger] a[i], b[i])
}

/// The remaining quantities of a queue are its hidden plus its visible
/// quantities.
pub proof fn lemma_queue_sum_split(ids: Seq<u64>, m: Map<u64, Order>)
    ensures
        queue_sum(ids, m, 0) == queue_sum(ids, m, 1) + queue_sum(ids, m, 2),
    decreases ids.len(),
{
    if ids.len() > 0 {
        lemma_queue_sum_split(ids.drop_last(), m);
        lemma_hidden_visible_sum(m[ids.last()]);
    }
}

/// In a book that agrees with the orders, the total volume of every level
/// is its hidden volume plus its visible volume.
pub proof fn lemma_level_volumes_split(book: OrderBook, sym: u64, orders: Map<u64, Order>, k: BookKind, b: bool, i: int)
    requires
        book_ok(book, sym, orders),
        0 <= i < book.side(k, b).len(),
    ensures
        book.side(k, b)[i].total_volume == book.side(k, b)[i].hidden_volume + book.side(
            k,
            b,
        )[i].visible_volume,
{
    assert(side_ok(book.side(k, b), k, b, sym, orders));
    assert(level_ok(book.side(k, b)[i], k, b, sym, orders));
    lemma_queue_sum_split(book.side(k, b)[i].queue(), orders);
}

/// A level that agrees with the orders has volume.
proof fn lemma_level_ok_positive(lv: Level, k: BookKind, b: bool, sym: u64, orders: Map<u64, Order>)
    requires
        level_ok(lv, k, b, sym, orders),
    ensures
        lv.total_volume > 0,
{
    assert forall|j: int| 0 <= j < lv.queue().len() implies orders[#[trigger] lv.queue()[j]].leaves_quantity
        > 0 by {
        assert(order_fits(orders, lv.queue()[j], k, b, sym, lv.price));
    }
    lemma_sum_positive_all(lv.queue(), orders);
}

/// Removing the first occurrence of a value just pushed onto a queue
/// without it gives the queue back.
proof fn lemma_remove_pushed(q: Seq<u64>, v: u64)
    requires
        !q.contains(v),
    ensures
        remove_first(q.push(v), v) == q,
{
    let s = q.push(v);
    lemma_first_index_of(s, v);
    let f = first_index_of(s, v);
    assert(s[q.len() as int] == v);
    assert(s.contains(v));
    if f < q.len() {
        assert(q[f] == v);
        assert(q.contains(v));
    }
    assert(f == q.len());
    assert(s.remove(f) =~= q);
}

/// Adding an order to a side and then taking all of it out again gives a
/// side of the same contents.
proof fn lemma_side_add_then_reduce(
    s0: Seq<Level>,
    s1: Seq<Level>,
    s2: Seq<Level>,
    asc: bool,
    t: crate::level::LevelType,
    key: u64,
    o: Order,
    x: (bool, usize),
    r: (bool, Level),
)
    requires
        side_added(s1, s0, t, key, o, x),
        side_reduced(s2, s1, key, o.id, o.leaves_quantity, o.hidden() as u64, o.visible() as u64, true, r),
        sorted_side(s1, asc),
        o.leaves_quantity > 0,
        forall|i: int| 0 <= i < s0.len() ==> (#[trigger] s0[i]).wf() && !s0[i].queue().contains(o.id)
            && (s0[i].price == key ==> s0[i].total_volume > 0),
    ensures
        sides_match(s2, s0),
        r.0 == x.0,
{
    let i = choose|i: int|
        0 <= i < s1.len() && (#[trigger] s1[i]).price == key && level_reduced(
            r.1,
            s1[i],
            o.id,
            o.leaves_quantity,
            o.hidden() as u64,
            o.visible() as u64,
            true,
        ) && (r.0 <==> r.1.total_volume == 0) && (r.0 ==> s2 == s1.remove(i)) && (!r.0 ==> s2
            == s1.update(i, s2[i]) && level_reduced(
            s2[i],
            s1[i],
            o.id,
            o.leaves_quantity,
            o.hidden() as u64,
            o.visible() as u64,
            true,
        ));
    let idx = x.1 as int;
    lemma_unique_price(s1, asc, i, idx);
    lemma_hidden_visible_sum(o);
    if x.0 {
        assert(r.1.total_volume == 0);
        assert(s2 =~= s0);
    } else {
        let l1 = s1[idx];
        let l0 = s0[idx];
        assert(l0.total_volume > 0);
        assert(!r.0);
        let l2 = s2[idx];
        lemma_remove_pushed(l0.queue(), o.id);
        assert(l2.queue() == l0.queue());
        assert(level_snapshot(l2, l0));
        assert forall|j: int| 0 <= j < s2.len() implies level_snapshot(#[trigger] s2[j], s0[j]) by {
            if j != idx {
                assert(s2[j] == s0[j]);
            }
        }
    }
}

/// What adding a resting limit order without matching did.
proof fn lemma_added_facts(
    c0: ExecutionContext,
    c1: ExecutionContext,
    order: Order,
    r1: Result<(), crate::order::ErrorCode>,
) -> (x: (bool, usize))
    requires
        !c0.orders@.contains_key(order.id),
        c0.wf(),
        order.order_type == OrderType::Limit,
        rests(order),
        limit_added(c0, c1, order, false, false, r1),
        r1 is Ok,
    ensures
        !c0.orders@.contains_key(order.id),
        c1.orders@ == c0.orders@.insert(order.id, order),
        c1.wf(),
        c1.symbol == c0.symbol,
        forall|k: BookKind, b: bool|
            !(k == BookKind::Limit && b == order.spec_is_buy()) ==> #[trigger] c1.book.side(k, b)
                == c0.book.side(k, b),
        side_added(
            c1.book.side(BookKind::Limit, order.spec_is_buy()),
            c0.book.side(BookKind::Limit, order.spec_is_buy()),
            crate::order_book::side_type(BookKind::Limit, order.spec_is_buy()),
            order.price,
            order,
            x,
        ),
{
    let (c1a, o1, c2a) = choose|c1a: ExecutionContext, o1: Order, c2a: ExecutionContext|
        #[trigger] rested(c1a, c2a, o1, r1) && limit_matched(c0, c1a, order, o1, false) && (r1 is Ok
            ==> settled(c2a, c1, false)) && (r1 is Err ==> c1.same_state(&c2a));
    assert(o1 == order);
    assert(inserted(c1a, c2a, order, r1));
    let buy = order.spec_is_buy();
    assert(crate::order_book::kind_of(order) == BookKind::Limit);
    let x = choose|x: (bool, usize)|
        #[trigger] side_added(
            c2a.book.side(BookKind::Limit, buy),
            c1a.book.side(BookKind::Limit, buy),
            crate::order_book::side_type(BookKind::Limit, buy),
            order.price,
            order,
            x,
        );
    assert forall|k: BookKind, b: bool|
        !(k == BookKind::Limit && b == buy) implies #[trigger] c1.book.side(k, b) == c0.book.side(k, b) by {
        assert(c1.book.side(k, b) == c2a.book.side(k, b));
        assert(c2a.book.side(k, b) == c1a.book.side(k, b));
    }
    assert(c1.book.side(BookKind::Limit, buy) == c2a.book.side(BookKind::Limit, buy));
    x
}

/// What deleting a live order without matching did.
proof fn lemma_deleted_facts(
    c1: ExecutionContext,
    c2: ExecutionContext,
    order: Order,
    r2: Result<(), crate::order::ErrorCode>,
) -> (r: (bool, Level))
    requires
        c1.orders@.contains_key(order.id),
        c1.orders@[order.id] == order,
        order.symbol_id == c1.symbol,
        order.id != 0,
        order.order_type == OrderType::Limit,
        order_deleted(c1, c2, order.id, false, false, r2),
    ensures
        r2 is Ok,
        c2.orders@ == c1.orders@.remove(order.id),
        forall|k: BookKind, b: bool|
            !(k == BookKind::Limit && b == order.spec_is_buy()) ==> #[trigger] c2.book.side(k, b)
                == c1.book.side(k, b),
        side_reduced(
            c2.book.side(BookKind::Limit, order.spec_is_buy()),
            c1.book.side(BookKind::Limit, order.spec_is_buy()),
            order.price,
            order.id,
            order.leaves_quantity,
            order.hidden() as u64,
            order.visible() as u64,
            true,
            r,
        ),
{
    let buy = order.spec_is_buy();
    let c1b = choose|c1b: ExecutionContext|
        #[trigger] reduced_by(c1, c1b, order.id, c1.orders@[order.id].leaves_quantity, false) && c1b.wf()
            && settled(c1b, c2, false);
    let o2 = after_reduce(order, order.leaves_quantity, false);
    assert(crate::order_book::kind_of(order) == BookKind::Limit);
    let r = choose|r: (bool, Level)|
        #[trigger] side_reduced(
            c1b.book.side(BookKind::Limit, buy),
            c1.book.side(BookKind::Limit, buy),
            order.price,
            order.id,
            order.leaves_quantity,
            hidden_delta(order, o2),
            visible_delta(order, o2),
            no_leaves(o2),
            r,
        );
    assert forall|k: BookKind, b: bool|
        !(k == BookKind::Limit && b == buy) implies #[trigger] c2.book.side(k, b) == c1.book.side(k, b) by {
        assert(c2.book.side(k, b) == c1b.book.side(k, b));
    }
    assert(c2.book.side(BookKind::Limit, buy) == c1b.book.side(BookKind::Limit, buy));
    r
}

/// The limit levels of a consistent engine are well formed, have volume,
/// and do not queue an id that is not a live order.
proof fn lemma_levels_without(c0: ExecutionContext, buy: bool, id: u64)
    requires
        c0.wf(),
        !c0.orders@.contains_key(id),
    ensures
        forall|i: int|
            0 <= i < c0.book.side(BookKind::Limit, buy).len() ==> (#[trigger] c0.book.side(
                BookKind::Limit,
                buy,
            )[i]).wf() && !c0.book.side(BookKind::Limit, buy)[i].queue().contains(id) && c0.book.side(
                BookKind::Limit,
                buy,
            )[i].total_volume > 0,
{
    let s0 = c0.book.side(BookKind::Limit, buy);
    crate::consistency::lemma_not_queued(c0.book, c0.symbol, c0.orders@, id);
    assert forall|i: int| 0 <= i < s0.len() implies (#[trigger] s0[i]).wf() && !s0[i].queue().contains(
        id,
    ) && s0[i].total_volume > 0 by {
        assert(side_ok(s0, BookKind::Limit, buy, c0.symbol, c0.orders@));
        assert(level_ok(s0[i], BookKind::Limit, buy, c0.symbol, c0.orders@));
        lemma_level_ok_positive(s0[i], BookKind::Limit, buy, c0.symbol, c0.orders@);
    }
}

/// Adding a limit order with a fresh id that rests, without matching, and
/// then deleting it, without matching, gives back the same live orders,
/// and every side of the book holds levels of the same contents as before.
#[verifier::rlimit(100)]
pub proof fn lemma_add_then_delete(
    c0: ExecutionContext,
    c1: ExecutionContext,
    c2: ExecutionContext,
    order: Order,
    r1: Result<(), crate::order::ErrorCode>,
    r2: Result<(), crate::order::ErrorCode>,
)
    requires
        c0.wf(),
        order.order_type == OrderType::Limit,
        order.symbol_id == c0.symbol,
        order.id != 0,
        !c0.orders@.contains_key(order.id),
        rests(order),
        limit_added(c0, c1, order, false, false, r1),
        r1 is Ok,
        order_deleted(c1, c2, order.id, false, false, r2),
    ensures
        r2 is Ok,
        c2.orders@ == c0.orders@,
        forall|k: BookKind, b: bool| sides_match(#[trigger] c2.book.side(k, b), c0.book.side(k, b)),
{
    let buy = order.spec_is_buy();
    let x = lemma_added_facts(c0, c1, order, r1);
    let r = lemma_deleted_facts(c1, c2, order, r2);
    assert(c2.orders@ =~= c0.orders@);
    let s0 = c0.book.side(BookKind::Limit, buy);
    lemma_levels_without(c0, buy, order.id);
    assert(c1.book.wf());
    lemma_side_add_then_reduce(
        s0,
        c1.book.side(BookKind::Limit, buy),
        c2.book.side(BookKind::Limit, buy),
        side_asc(BookKind::Limit, buy),
        crate::order_book::side_type(BookKind::Limit, buy),
        order.price,
        order,
        x,
        r,
    );
    assert forall|k: BookKind, b: bool| sides_match(#[trigger] c2.book.side(k, b), c0.book.side(k, b)) by {
        if !(k == BookKind::Limit && b == buy) {
            assert(c2.book.side(k, b) == c1.book.side(k, b));
            assert(c1.book.side(k, b) == c0.book.side(k, b));
        }
    }
}

/// Adding a limit order with something to rest to a book, and then
/// deleting it from the book, gives back sides of the same contents in
/// the same order; the deletion reports a removed level exactly when the
/// addition reported a new one.
pub proof fn lemma_book_add_then_delete(
    b0: OrderBook,
    b1: OrderBook,
    b2: OrderBook,
    o: Order,
    u1: LevelUpdate,
    u2: LevelUpdate,
)
    requires
        b0.wf(),
        o.leaves_quantity > 0,
        forall|i: int|
            0 <= i < b0.side(BookKind::Limit, o.spec_is_buy()).len() ==> (#[trigger] b0.side(
                BookKind::Limit,
                o.spec_is_buy(),
            )[i]).wf() && !b0.side(BookKind::Limit, o.spec_is_buy())[i].queue().contains(o.id) && (b0.side(
                BookKind::Limit,
                o.spec_is_buy(),
            )[i].price == o.price ==> b0.side(BookKind::Limit, o.spec_is_buy())[i].total_volume > 0),
        b1.wf(),
        book_added(b1, b0, o, u1),
        book_deleted(b2, b1, o, u2),
    ensures
        forall|k: BookKind, b: bool| sides_match(#[trigger] b2.side(k, b), b0.side(k, b)),
        (u2.update_type == UpdateType::Delete) == (u1.update_type == UpdateType::Add),
{
    let buy = o.spec_is_buy();
    let x = choose|x: (bool, usize)|
        #[trigger] side_added(
            b1.side(BookKind::Limit, buy),
            b0.side(BookKind::Limit, buy),
            crate::order_book::side_type(BookKind::Limit, buy),
            o.price,
            o,
            x,
        ) && u1.update_type == (if x.0 {
            UpdateType::Add
        } else {
            UpdateType::Update
        }) && level_snapshot(u1.update, b1.side(BookKind::Limit, buy)[x.1 as int]);
    let r = choose|r: (bool, Level)|
        #[trigger] side_reduced(
            b2.side(BookKind::Limit, buy),
            b1.side(BookKind::Limit, buy),
            o.price,
            o.id,
            o.leaves_quantity,
            o.hidden() as u64,
            o.visible() as u64,
            true,
            r,
        ) && u2.update_type == (if r.0 {
            UpdateType::Delete
        } else {
            UpdateType::Update
        }) && level_snapshot(u2.update, r.1);
    lemma_side_add_then_reduce(
        b0.side(BookKind::Limit, buy),
        b1.side(BookKind::Limit, buy),
        b2.side(BookKind::Limit, buy),
        side_asc(BookKind::Limit, buy),
        crate::order_book::side_type(BookKind::Limit, buy),
        o.price,
        o,
        x,
        r,
    );
    assert forall|k: BookKind, b: bool| sides_match(#[trigger] b2.side(k, b), b0.side(k, b)) by {
        if !(k == BookKind::Limit && b == buy) {
            assert(b2.side(k, b) == b1.side(k, b));
            assert(b1.side(k, b) == b0.side(k, b));
        }
    }
}

/// Matching honours price-time priority: what is left of the opposite
/// limit side after an incoming order was matched is that side's orders,
/// best level first and oldest first, from some position on. The orders
/// ahead of that position are gone from the side; from it on every order
/// keeps its id, level price and all-or-none flag, and every one but the
/// first also keeps its remaining quantity, which for the first can only
/// have shrunk.
pub proof fn lemma_matching_priority(c1: ExecutionContext, c2: ExecutionContext, o1: Order, o2: Order)
    requires
        matched(c1, c2, o1, o2),
    ensures
        exists|k: int| #[trigger] taken_from(opposite_items(c2, o1), opposite_items(c1, o1), k),
{
    let buy = o1.spec_is_buy();
    let f = side_items(c1, !buy);
    if o1.spec_is_fok() || o1.spec_is_aon() {
        if can_trade(c1.book, o1) && chain_for(c1, o1) != 0 {
            let k = lemma_rest_of_taken(f, o1.leaves_quantity, 0);
            assert(taken_from(opposite_items(c2, o1), opposite_items(c1, o1), k));
        } else {
            lemma_side_items_same(c2, c1);
            assert(taken_from(opposite_items(c2, o1), opposite_items(c1, o1), 0));
        }
    } else {
        let k = lemma_rest_within_taken(f, buy, o1.price, o1.leaves_quantity, 0);
        assert(taken_from(opposite_items(c2, o1), opposite_items(c1, o1), k));
    }
}

/// Reducing an order by at least what remains of it is deleting it: the
/// two operations give the same result and the same engine.
pub proof fn lemma_reduce_all_is_delete(
    c0: ExecutionContext,
    c: ExecutionContext,
    id: u64,
    quantity: u64,
    matching: bool,
    recursive: bool,
    r: Result<(), crate::order::ErrorCode>,
)
    requires
        quantity > 0,
        lookup_error(c0, id) is None ==> quantity >= c0.orders@[id].leaves_quantity,
    ensures
        order_reduced(c0, c, id, quantity, matching, recursive, r) <==> order_deleted(
            c0,
            c,
            id,
            matching,
            recursive,
            r,
        ),
{
    if id != 0 && lookup_error(c0, id) is None {
        assert(capped(c0.orders@[id], quantity) == c0.orders@[id].leaves_quantity);
    }
}


} // verus!
