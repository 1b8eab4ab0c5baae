//! How an order book agrees with the orders it holds: every queued id
//! names a live order of the level's side and price, every live order is
//! queued once at its price, and every level's volumes are the sums of
//! its orders' quantities.
use vstd::prelude::*;

use crate::level::{first_index_of, lemma_first_index_of, Level};
use crate::levels::{has_level, level_added, level_fresh, level_reduced, side_added, side_reduced};
use crate::order::{Order, OrderType};
use crate::order_book::{kind_of, key_of, side_type, BookKind, OrderBook};

verus! {

/// One of the three quantities of an order: remaining (0), hidden (1)
/// or visible (2).
pub open spec fn qty(o: Order, w: int) -> nat {
    if w == 0 {
        o.leaves_quantity as nat
    } else if w == 1 {
        o.hidden()
    } else {
        o.visible()
    }
}

/// The sum of quantity `w` over the orders named in `ids`.
pub open spec fn queue_sum(ids: Seq<u64>, orders: Map<u64, Order>, w: int) -> nat
    decreases ids.len(),
{
    if ids.len() == 0 {
        0
    } else {
        queue_sum(ids.drop_last(), orders, w) + qty(orders[ids.last()], w)
    }
}

/// An order that can rest in a book.
pub open spec fn resting(o: Order) -> bool {
    o.order_type == OrderType::Limit || o.order_type == OrderType::Stop || o.order_type
        == OrderType::StopLimit || o.order_type == OrderType::TrailingStop || o.order_type
        == OrderType::TrailingStopLimit
}

/// `id` names a live order of the given side, symbol and price.
pub open spec fn order_fits(
    orders: Map<u64, Order>,
    id: u64,
    kind: BookKind,
    buy: bool,
    sym: u64,
    price: u64,
) -> bool {
    &&& orders.contains_key(id)
    &&& orders[id].id == id
    &&& orders[id].leaves_quantity > 0
    &&& kind_of(orders[id]) == kind
    &&& orders[id].spec_is_buy() == buy
    &&& orders[id].symbol_id == sym
    &&& key_of(orders[id]) == price
}

/// A level agrees with the orders: non-empty, no id twice, every id a
/// live order of the level, and volumes that are the sums of the orders'.
pub open spec fn level_ok(lv: Level, kind: BookKind, buy: bool, sym: u64, orders: Map<u64, Order>) -> bool {
    &&& lv.queue().len() > 0
    &&& lv.queue().no_duplicates()
    &&& forall|j: int|
        0 <= j < lv.queue().len() ==> order_fits(
            orders,
            #[trigger] lv.queue()[j],
            kind,
            buy,
            sym,
            lv.price,
        )
    &&& lv.total_volume == queue_sum(lv.queue(), orders, 0)
    &&& lv.hidden_volume == queue_sum(lv.queue(), orders, 1)
    &&& lv.visible_volume == queue_sum(lv.queue(), orders, 2)
}

/// Every level of a side agrees with the orders.
pub open spec fn side_ok(s: Seq<Level>, kind: BookKind, buy: bool, sym: u64, orders: Map<u64, Order>) -> bool {
    forall|i: int| 0 <= i < s.len() ==> level_ok(#[trigger] s[i], kind, buy, sym, orders)
}

/// Order `id` is queued at the level at `key`.
pub open spec fn placed(s: Seq<Level>, key: u64, id: u64) -> bool {
    exists|i: int| 0 <= i < s.len() && (#[trigger] s[i]).price == key && s[i].queue().contains(id)
}

/// Book `book` of symbol `sym` agrees with the live orders: its levels
/// agree with them, and every live order of the symbol is queued at its
/// price on its side.
pub open spec fn book_ok(book: OrderBook, sym: u64, orders: Map<u64, Order>) -> bool {
    &&& book.wf()
    &&& forall|k: BookKind, b: bool| side_ok(#[trigger] book.side(k, b), k, b, sym, orders)
    &&& forall|id: u64|
        #[trigger] orders.contains_key(id) && orders[id].symbol_id == sym ==> placed(
            book.side(kind_of(orders[id]), orders[id].spec_is_buy()),
            key_of(orders[id]),
            id,
        )
}

/// The two order maps agree on every order of symbol `sym`.
pub open spec fn agree_on(m1: Map<u64, Order>, m2: Map<u64, Order>, sym: u64) -> bool {
    forall|id: u64|
        (#[trigger] m1.contains_key(id) && m1[id].symbol_id == sym) || (m2.contains_key(id)
            && m2[id].symbol_id == sym) ==> m1.contains_key(id) && m2.contains_key(id) && m1[id]
            == m2[id]
}

/// `a` and `b` agree on everything a book keeps of an order except the
/// remaining quantity.
pub open spec fn same_placement(a: Order, b: Order) -> bool {
    &&& a.id == b.id
    &&& a.symbol_id == b.symbol_id
    &&& a.order_type == b.order_type
    &&& a.order_side == b.order_side
    &&& a.price == b.price
    &&& a.stop_price == b.stop_price
    &&& a.max_visible_quantity == b.max_visible_quantity
}

pub proof fn lemma_sum_agree(ids: Seq<u64>, m1: Map<u64, Order>, m2: Map<u64, Order>, w: int)
    requires
        forall|j: int| 0 <= j < ids.len() ==> m1[#[trigger] ids[j]] == m2[ids[j]],
    ensures
        queue_sum(ids, m1, w) == queue_sum(ids, m2, w),
    decreases ids.len(),
{
    if ids.len() > 0 {
        let t = ids.drop_last();
        assert forall|j: int| 0 <= j < t.len() implies m1[#[trigger] t[j]] == m2[t[j]] by {
            assert(t[j] == ids[j]);
        }
        lemma_sum_agree(t, m1, m2, w);
        assert(m1[ids[ids.len() - 1]] == m2[ids[ids.len() - 1]]);
    }
}

pub proof fn lemma_sum_push(ids: Seq<u64>, x: u64, m: Map<u64, Order>, w: int)
    ensures
        queue_sum(ids.push(x), m, w) == queue_sum(ids, m, w) + qty(m[x], w),
{
    assert(ids.push(x).drop_last() =~= ids);
}

pub proof fn lemma_sum_remove(ids: Seq<u64>, k: int, m: Map<u64, Order>, w: int)
    requires
        0 <= k < ids.len(),
    ensures
        queue_sum(ids, m, w) == queue_sum(ids.remove(k), m, w) + qty(m[ids[k]], w),
    decreases ids.len(),
{
    if k == ids.len() - 1 {
        assert(ids.remove(k) =~= ids.drop_last());
    } else {
        let t = ids.drop_last();
        lemma_sum_remove(t, k, m, w);
        assert(ids.remove(k).drop_last() =~= t.remove(k));
        assert(ids.remove(k).last() == ids.last());
    }
}

/// Updating one order of a queue without duplicates changes the queue's
/// sum by the change of that order.
pub proof fn lemma_sum_update(ids: Seq<u64>, k: int, m: Map<u64, Order>, o: Order, w: int)
    requires
        0 <= k < ids.len(),
        ids.no_duplicates(),
    ensures
        queue_sum(ids, m.insert(ids[k], o), w) + qty(m[ids[k]], w) == queue_sum(ids, m, w) + qty(
            o,
            w,
        ),
{
    let x = ids[k];
    let m2 = m.insert(x, o);
    lemma_sum_remove(ids, k, m, w);
    lemma_sum_remove(ids, k, m2, w);
    let r = ids.remove(k);
    assert forall|j: int| 0 <= j < r.len() implies m[#[trigger] r[j]] == m2[r[j]] by {
        if j < k {
            assert(r[j] == ids[j]);
        } else {
            assert(r[j] == ids[j + 1]);
        }
    }
    lemma_sum_agree(r, m, m2, w);
}

/// Maps that agree on every id of a queue give it the same sums.
pub proof fn lemma_level_ok_agree(
    lv: Level,
    kind: BookKind,
    buy: bool,
    sym: u64,
    m1: Map<u64, Order>,
    m2: Map<u64, Order>,
)
    requires
        level_ok(lv, kind, buy, sym, m1),
        forall|j: int|
            0 <= j < lv.queue().len() ==> m2.contains_key(#[trigger] lv.queue()[j]) && m1[lv.queue()[j]]
                == m2[lv.queue()[j]],
    ensures
        level_ok(lv, kind, buy, sym, m2),
{
    lemma_sum_agree(lv.queue(), m1, m2, 0);
    lemma_sum_agree(lv.queue(), m1, m2, 1);
    lemma_sum_agree(lv.queue(), m1, m2, 2);
    assert forall|j: int| 0 <= j < lv.queue().len() implies order_fits(
        m2,
        #[trigger] lv.queue()[j],
        kind,
        buy,
        sym,
        lv.price,
    ) by {
        assert(order_fits(m1, lv.queue()[j], kind, buy, sym, lv.price));
    }
}

/// A book agrees with every order map that agrees with its orders on its
/// symbol.
pub proof fn lemma_book_ok_frame(book: OrderBook, sym: u64, m1: Map<u64, Order>, m2: Map<u64, Order>)
    requires
        book_ok(book, sym, m1),
        agree_on(m1, m2, sym),
    ensures
        book_ok(book, sym, m2),
{
    assert forall|k: BookKind, b: bool| side_ok(#[trigger] book.side(k, b), k, b, sym, m2) by {
        let s = book.side(k, b);
        assert(side_ok(s, k, b, sym, m1));
        assert forall|i: int| 0 <= i < s.len() implies level_ok(#[trigger] s[i], k, b, sym, m2) by {
            let lv = s[i];
            assert(level_ok(lv, k, b, sym, m1));
            assert forall|j: int| 0 <= j < lv.queue().len() implies m2.contains_key(
                #[trigger] lv.queue()[j],
            ) && m1[lv.queue()[j]] == m2[lv.queue()[j]] by {
                assert(order_fits(m1, lv.queue()[j], k, b, sym, lv.price));
                assert(m1.contains_key(lv.queue()[j]));
            }
            lemma_level_ok_agree(lv, k, b, sym, m1, m2);
        }
    }
    assert forall|id: u64| #[trigger] m2.contains_key(id) && m2[id].symbol_id == sym implies placed(
        book.side(kind_of(m2[id]), m2[id].spec_is_buy()),
        key_of(m2[id]),
        id,
    ) by {
        assert(m1.contains_key(id));
    }
}

/// Queued ids of a book that agrees with `orders` are live orders.
pub proof fn lemma_queued_is_live(book: OrderBook, sym: u64, orders: Map<u64, Order>, k: BookKind, b: bool, i: int, j: int)
    requires
        book_ok(book, sym, orders),
        0 <= i < book.side(k, b).len(),
        0 <= j < book.side(k, b)[i].queue().len(),
    ensures
        order_fits(orders, book.side(k, b)[i].queue()[j], k, b, sym, book.side(k, b)[i].price),
{
    assert(side_ok(book.side(k, b), k, b, sym, orders));
    assert(level_ok(book.side(k, b)[i], k, b, sym, orders));
}

/// A level that does not queue `x` agrees with the map where `x` is
/// added or changed.
pub proof fn lemma_level_ok_without(
    lv: Level,
    kind: BookKind,
    buy: bool,
    sym: u64,
    orders: Map<u64, Order>,
    x: u64,
    o: Order,
)
    requires
        level_ok(lv, kind, buy, sym, orders),
        !lv.queue().contains(x),
    ensures
        level_ok(lv, kind, buy, sym, orders.insert(x, o)),
{
    let m2 = orders.insert(x, o);
    assert forall|j: int| 0 <= j < lv.queue().len() implies m2.contains_key(
        #[trigger] lv.queue()[j],
    ) && orders[lv.queue()[j]] == m2[lv.queue()[j]] by {
        assert(order_fits(orders, lv.queue()[j], kind, buy, sym, lv.price));
        assert(lv.queue()[j] != x);
    }
    lemma_level_ok_agree(lv, kind, buy, sym, orders, m2);
}

/// A level that does not queue `x` agrees with the map without `x`.
pub proof fn lemma_level_ok_without_removed(
    lv: Level,
    kind: BookKind,
    buy: bool,
    sym: u64,
    orders: Map<u64, Order>,
    x: u64,
)
    requires
        level_ok(lv, kind, buy, sym, orders),
        !lv.queue().contains(x),
    ensures
        level_ok(lv, kind, buy, sym, orders.remove(x)),
{
    let m2 = orders.remove(x);
    assert forall|j: int| 0 <= j < lv.queue().len() implies m2.contains_key(
        #[trigger] lv.queue()[j],
    ) && orders[lv.queue()[j]] == m2[lv.queue()[j]] by {
        assert(order_fits(orders, lv.queue()[j], kind, buy, sym, lv.price));
        assert(lv.queue()[j] != x);
    }
    lemma_level_ok_agree(lv, kind, buy, sym, orders, m2);
}

/// No level of a book that agrees with `orders` queues an id that is not
/// a live order.
pub proof fn lemma_not_queued(book: OrderBook, sym: u64, orders: Map<u64, Order>, x: u64)
    requires
        book_ok(book, sym, orders),
        !orders.contains_key(x),
    ensures
        forall|k2: BookKind, b2: bool, i: int|
            0 <= i < book.side(k2, b2).len() ==> !(#[trigger] book.side(k2, b2)[i]).queue().contains(x),
{
    assert forall|k2: BookKind, b2: bool, i: int|
        0 <= i < book.side(k2, b2).len() implies !(#[trigger] book.side(k2, b2)[i]).queue().contains(
        x,
    ) by {
        assert(side_ok(book.side(k2, b2), k2, b2, sym, orders));
        assert(level_ok(book.side(k2, b2)[i], k2, b2, sym, orders));
        if book.side(k2, b2)[i].queue().contains(x) {
            let j = choose|j: int|
                0 <= j < book.side(k2, b2)[i].queue().len() && book.side(k2, b2)[i].queue()[j] == x;
            assert(order_fits(
                orders,
                book.side(k2, b2)[i].queue()[j],
                k2,
                b2,
                sym,
                book.side(k2, b2)[i].price,
            ));
        }
    }
}

/// A level grown by a new order agrees with the orders, the new one
/// included.
pub proof fn lemma_level_ok_added(
    lv1: Level,
    lv2: Level,
    kind: BookKind,
    buy: bool,
    sym: u64,
    orders: Map<u64, Order>,
    o: Order,
)
    requires
        level_ok(lv1, kind, buy, sym, orders),
        !lv1.queue().contains(o.id),
        level_added(lv2, lv1, o),
        o.leaves_quantity > 0,
        o.symbol_id == sym,
        kind_of(o) == kind,
        o.spec_is_buy() == buy,
        key_of(o) == lv1.price,
    ensures
        level_ok(lv2, kind, buy, sym, orders.insert(o.id, o)),
{
    let m2 = orders.insert(o.id, o);
    let q1 = lv1.queue();
    let q = lv2.queue();
    lemma_level_ok_without(lv1, kind, buy, sym, orders, o.id, o);
    lemma_sum_push(q1, o.id, m2, 0);
    lemma_sum_push(q1, o.id, m2, 1);
    lemma_sum_push(q1, o.id, m2, 2);
    assert forall|j: int| 0 <= j < q.len() implies order_fits(m2, #[trigger] q[j], kind, buy, sym, lv2.price) by {
        if j < q1.len() {
            assert(q[j] == q1[j]);
            assert(order_fits(m2, q1[j], kind, buy, sym, lv1.price));
        }
    }
    assert forall|a: int, c: int| 0 <= a < q.len() && 0 <= c < q.len() && a != c implies q[a] != q[c] by {
        if a < q1.len() && c < q1.len() {
            assert(q[a] == q1[a] && q[c] == q1[c]);
        } else if a < q1.len() {
            assert(q[a] == q1[a]);
            assert(q1.contains(q1[a]));
        } else if c < q1.len() {
            assert(q[c] == q1[c]);
            assert(q1.contains(q1[c]));
        }
    }
}

/// A fresh level holding a new order alone agrees with the orders, the
/// new one included.
pub proof fn lemma_level_ok_fresh(
    lv: Level,
    kind: BookKind,
    buy: bool,
    sym: u64,
    orders: Map<u64, Order>,
    o: Order,
    t: crate::level::LevelType,
)
    requires
        level_fresh(lv, t, key_of(o), o),
        o.leaves_quantity > 0,
        o.symbol_id == sym,
        kind_of(o) == kind,
        o.spec_is_buy() == buy,
    ensures
        level_ok(lv, kind, buy, sym, orders.insert(o.id, o)),
{
    let m2 = orders.insert(o.id, o);
    let q = lv.queue();
    assert(q.drop_last() =~= Seq::<u64>::empty());
    assert(q.last() == o.id);
    assert(queue_sum(q.drop_last(), m2, 0) == 0);
    assert(queue_sum(q.drop_last(), m2, 1) == 0);
    assert(queue_sum(q.drop_last(), m2, 2) == 0);
    assert(m2[o.id] == o);
    assert(order_fits(m2, q[0], kind, buy, sym, lv.price));
}

/// The touched side of a book grown by a new order agrees with the
/// orders, the new one included.
pub proof fn lemma_side_ok_added(
    s1: Seq<Level>,
    s2: Seq<Level>,
    kind: BookKind,
    buy: bool,
    sym: u64,
    orders: Map<u64, Order>,
    o: Order,
    r: (bool, usize),
)
    requires
        side_ok(s1, kind, buy, sym, orders),
        forall|i: int| 0 <= i < s1.len() ==> !(#[trigger] s1[i]).queue().contains(o.id),
        side_added(s2, s1, side_type(kind, buy), key_of(o), o, r),
        o.leaves_quantity > 0,
        o.symbol_id == sym,
        kind_of(o) == kind,
        o.spec_is_buy() == buy,
    ensures
        side_ok(s2, kind, buy, sym, orders.insert(o.id, o)),
{
    let idx = r.1 as int;
    let m2 = orders.insert(o.id, o);
    assert forall|i: int| 0 <= i < s2.len() implies level_ok(#[trigger] s2[i], kind, buy, sym, m2) by {
        if i == idx {
            if r.0 {
                lemma_level_ok_fresh(s2[i], kind, buy, sym, orders, o, side_type(kind, buy));
            } else {
                assert(level_ok(s1[i], kind, buy, sym, orders));
                lemma_level_ok_added(s1[i], s2[i], kind, buy, sym, orders, o);
            }
        } else {
            let i1 = if r.0 && i > idx {
                i - 1
            } else {
                i
            };
            if r.0 {
                assert(s2 == s1.insert(idx, s2[idx]));
                assert(s1.insert(idx, s2[idx])[i] == s1[i1]);
            } else {
                assert(s2 == s1.update(idx, s2[idx]));
                assert(s1.update(idx, s2[idx])[i] == s1[i1]);
            }
            assert(0 <= i1 < s1.len());
            assert(level_ok(s1[i1], kind, buy, sym, orders));
            lemma_level_ok_without(s1[i1], kind, buy, sym, orders, o.id, o);
        }
    }
}

/// Growing a side keeps every order queued where it was.
pub proof fn lemma_placed_after_add(
    s1: Seq<Level>,
    s2: Seq<Level>,
    t: crate::level::LevelType,
    key: u64,
    o: Order,
    r: (bool, usize),
    key2: u64,
    id2: u64,
)
    requires
        placed(s1, key2, id2),
        side_added(s2, s1, t, key, o, r),
    ensures
        placed(s2, key2, id2),
{
    let idx = r.1 as int;
    let i = choose|i: int|
        0 <= i < s1.len() && (#[trigger] s1[i]).price == key2 && s1[i].queue().contains(id2);
    if r.0 {
        assert(s2 == s1.insert(idx, s2[idx]));
        if i >= idx {
            assert(s1.insert(idx, s2[idx])[i + 1] == s1[i]);
            assert(s2[i + 1] == s1[i]);
        } else {
            assert(s1.insert(idx, s2[idx])[i] == s1[i]);
            assert(s2[i] == s1[i]);
        }
    } else if i == idx {
        let jj = choose|jj: int| 0 <= jj < s1[i].queue().len() && s1[i].queue()[jj] == id2;
        assert(s2[i].queue()[jj] == id2);
        assert(s2[i].price == key2);
    } else {
        assert(s2 == s1.update(idx, s2[idx]));
        assert(s1.update(idx, s2[idx])[i] == s1[i]);
        assert(s2[i] == s1[i]);
    }
}

/// Adding a new order to its level keeps the book in agreement with the
/// orders, the new one included.
pub proof fn lemma_book_insert(
    book: OrderBook,
    book2: OrderBook,
    sym: u64,
    orders: Map<u64, Order>,
    o: Order,
    r: (bool, usize),
)
    requires
        book_ok(book, sym, orders),
        !orders.contains_key(o.id),
        o.symbol_id == sym,
        o.leaves_quantity > 0,
        book2.wf(),
        book2.same_except(&book, kind_of(o), o.spec_is_buy()),
        side_added(
            book2.side(kind_of(o), o.spec_is_buy()),
            book.side(kind_of(o), o.spec_is_buy()),
            side_type(kind_of(o), o.spec_is_buy()),
            key_of(o),
            o,
            r,
        ),
    ensures
        book_ok(book2, sym, orders.insert(o.id, o)),
{
    let k = kind_of(o);
    let b = o.spec_is_buy();
    let m2 = orders.insert(o.id, o);
    lemma_not_queued(book, sym, orders, o.id);
    assert forall|k2: BookKind, b2: bool| side_ok(#[trigger] book2.side(k2, b2), k2, b2, sym, m2) by {
        assert(side_ok(book.side(k2, b2), k2, b2, sym, orders));
        if !(k2 == k && b2 == b) {
            assert(book2.side(k2, b2) == book.side(k2, b2));
            assert forall|i: int| 0 <= i < book2.side(k2, b2).len() implies level_ok(
                #[trigger] book2.side(k2, b2)[i],
                k2,
                b2,
                sym,
                m2,
            ) by {
                assert(level_ok(book.side(k2, b2)[i], k2, b2, sym, orders));
                lemma_level_ok_without(book.side(k2, b2)[i], k2, b2, sym, orders, o.id, o);
            }
        } else {
            lemma_side_ok_added(book.side(k, b), book2.side(k, b), k, b, sym, orders, o, r);
        }
    }
    assert forall|id: u64| #[trigger] m2.contains_key(id) && m2[id].symbol_id == sym implies placed(
        book2.side(kind_of(m2[id]), m2[id].spec_is_buy()),
        key_of(m2[id]),
        id,
    ) by {
        let s2 = book2.side(k, b);
        let idx = r.1 as int;
        if id == o.id {
            assert(s2[idx].price == key_of(o));
            if r.0 {
                assert(s2[idx].queue()[0] == o.id);
            } else {
                assert(s2[idx].queue()[s2[idx].queue().len() - 1] == o.id);
            }
        } else {
            let oo = orders[id];
            assert(orders.contains_key(id));
            let k2 = kind_of(oo);
            let b2 = oo.spec_is_buy();
            assert(placed(book.side(k2, b2), key_of(oo), id));
            if !(k2 == k && b2 == b) {
                assert(book2.side(k2, b2) == book.side(k2, b2));
            } else {
                lemma_placed_after_add(
                    book.side(k, b),
                    s2,
                    side_type(k, b),
                    key_of(o),
                    o,
                    r,
                    key_of(oo),
                    id,
                );
            }
        }
    }
}

/// `orders2` is `orders` after order `id` lost `quantity`, `hidden`
/// and `visible`: removed when `unlink`, replaced by `o2` otherwise.
pub open spec fn reduced_orders(
    orders: Map<u64, Order>,
    orders2: Map<u64, Order>,
    id: u64,
    quantity: u64,
    hidden: u64,
    visible: u64,
    unlink: bool,
    o2: Order,
) -> bool {
    let o = orders[id];
    &&& orders.contains_key(id)
    &&& unlink ==> orders2 == orders.remove(id) && quantity == o.leaves_quantity && hidden
        == o.hidden() && visible == o.visible()
    &&& !unlink ==> orders2 == orders.insert(id, o2) && same_placement(o2, o)
        && o2.leaves_quantity > 0 && o.leaves_quantity == o2.leaves_quantity + quantity
        && o.hidden() == o2.hidden() + hidden && o.visible() == o2.visible() + visible
}

/// A queue of live orders has a positive total.
pub proof fn lemma_sum_positive_all(ids: Seq<u64>, m: Map<u64, Order>)
    requires
        ids.len() > 0,
        forall|j: int| 0 <= j < ids.len() ==> m[#[trigger] ids[j]].leaves_quantity > 0,
    ensures
        queue_sum(ids, m, 0) > 0,
{
    assert(m[ids[ids.len() - 1]].leaves_quantity > 0);
}

/// The level that loses part or all of order `id` still agrees with the
/// orders when it keeps a positive volume, and keeps every other order.
pub proof fn lemma_level_ok_reduced(
    lv: Level,
    lv2: Level,
    kind: BookKind,
    buy: bool,
    sym: u64,
    orders: Map<u64, Order>,
    orders2: Map<u64, Order>,
    id: u64,
    quantity: u64,
    hidden: u64,
    visible: u64,
    unlink: bool,
    o2: Order,
)
    requires
        level_ok(lv, kind, buy, sym, orders),
        lv.queue().contains(id),
        reduced_orders(orders, orders2, id, quantity, hidden, visible, unlink, o2),
        level_reduced(lv2, lv, id, quantity, hidden, visible, unlink),
    ensures
        lv2.total_volume == 0 <==> lv2.queue().len() == 0,
        lv2.total_volume > 0 ==> level_ok(lv2, kind, buy, sym, orders2),
        forall|x: u64| x != id && lv.queue().contains(x) ==> lv2.queue().contains(x),
        !unlink ==> lv2.queue().contains(id),
{
    let q = lv.queue();
    let q2 = lv2.queue();
    lemma_first_index_of(q, id);
    let k0 = first_index_of(q, id);
    assert(q[k0] == id);
    assert(order_fits(orders, q[k0], kind, buy, sym, lv.price));
    let o = orders[id];
    if unlink {
        assert(q2 == q.remove(k0));
        lemma_sum_remove(q, k0, orders, 0);
        lemma_sum_remove(q, k0, orders, 1);
        lemma_sum_remove(q, k0, orders, 2);
        assert forall|j: int| 0 <= j < q2.len() implies orders[#[trigger] q2[j]] == orders2[q2[j]]
            && orders2.contains_key(q2[j]) && q2[j] != id by {
            let jj = if j < k0 {
                j
            } else {
                j + 1
            };
            assert(q2[j] == q[jj]);
            assert(jj != k0);
            assert(order_fits(orders, q[jj], kind, buy, sym, lv.price));
        }
        lemma_sum_agree(q2, orders, orders2, 0);
        lemma_sum_agree(q2, orders, orders2, 1);
        lemma_sum_agree(q2, orders, orders2, 2);
        if q2.len() > 0 {
            assert forall|j: int| 0 <= j < q2.len() implies orders2[#[trigger] q2[j]].leaves_quantity > 0 by {
                let jj = if j < k0 {
                    j
                } else {
                    j + 1
                };
                assert(q2[j] == q[jj]);
                assert(order_fits(orders, q[jj], kind, buy, sym, lv.price));
            }
            lemma_sum_positive_all(q2, orders2);
            assert forall|j: int| 0 <= j < q2.len() implies order_fits(
                orders2,
                #[trigger] q2[j],
                kind,
                buy,
                sym,
                lv2.price,
            ) by {
                let jj = if j < k0 {
                    j
                } else {
                    j + 1
                };
                assert(q2[j] == q[jj]);
                assert(order_fits(orders, q[jj], kind, buy, sym, lv.price));
            }
            assert forall|a: int, c: int|
                0 <= a < q2.len() && 0 <= c < q2.len() && a != c implies q2[a] != q2[c] by {
                let aa = if a < k0 {
                    a
                } else {
                    a + 1
                };
                let cc = if c < k0 {
                    c
                } else {
                    c + 1
                };
                assert(q2[a] == q[aa] && q2[c] == q[cc]);
            }
        }
        assert forall|x: u64| x != id && q.contains(x) implies q2.contains(x) by {
            let j = choose|j: int| 0 <= j < q.len() && q[j] == x;
            assert(j != k0);
            if j < k0 {
                assert(q2[j] == x);
            } else {
                assert(q2[j - 1] == x);
            }
        }
    } else {
        assert(q2 == q);
        lemma_sum_update(q, k0, orders, o2, 0);
        lemma_sum_update(q, k0, orders, o2, 1);
        lemma_sum_update(q, k0, orders, o2, 2);
        assert forall|j: int| 0 <= j < q.len() implies order_fits(
            orders2,
            #[trigger] q[j],
            kind,
            buy,
            sym,
            lv2.price,
        ) && orders2[q[j]].leaves_quantity > 0 by {
            assert(order_fits(orders, q[j], kind, buy, sym, lv.price));
        }
        lemma_sum_positive_all(q, orders2);
        assert(q.contains(id));
    }
}

/// A live order of a book's symbol is queued at exactly one level: the
/// level at its price on its side.
pub proof fn lemma_only_level(book: OrderBook, sym: u64, orders: Map<u64, Order>, id: u64, i: int)
    requires
        book_ok(book, sym, orders),
        orders.contains_key(id),
        orders[id].symbol_id == sym,
        0 <= i < book.side(kind_of(orders[id]), orders[id].spec_is_buy()).len(),
        book.side(kind_of(orders[id]), orders[id].spec_is_buy())[i].price == key_of(orders[id]),
    ensures
        book.side(kind_of(orders[id]), orders[id].spec_is_buy())[i].queue().contains(id),
        forall|k2: BookKind, b2: bool, j: int|
            0 <= j < book.side(k2, b2).len() && !(k2 == kind_of(orders[id]) && b2
                == orders[id].spec_is_buy() && j == i) ==> !(
            #[trigger] book.side(k2, b2)[j]).queue().contains(id),
{
    let o = orders[id];
    let k = kind_of(o);
    let b = o.spec_is_buy();
    let s1 = book.side(k, b);
    let key = key_of(o);
    assert(placed(s1, key, id));
    let i0 = choose|i0: int|
        0 <= i0 < s1.len() && (#[trigger] s1[i0]).price == key && s1[i0].queue().contains(id);
    crate::levels::lemma_unique_price(s1, crate::order_book::side_asc(k, b), i, i0);
    assert forall|k2: BookKind, b2: bool, j: int|
        0 <= j < book.side(k2, b2).len() && !(k2 == k && b2 == b && j == i) implies !(
        #[trigger] book.side(k2, b2)[j]).queue().contains(id) by {
        assert(side_ok(book.side(k2, b2), k2, b2, sym, orders));
        assert(level_ok(book.side(k2, b2)[j], k2, b2, sym, orders));
        if book.side(k2, b2)[j].queue().contains(id) {
            let jj = choose|jj: int|
                0 <= jj < book.side(k2, b2)[j].queue().len() && book.side(k2, b2)[j].queue()[jj]
                    == id;
            assert(order_fits(
                orders,
                book.side(k2, b2)[j].queue()[jj],
                k2,
                b2,
                sym,
                book.side(k2, b2)[j].price,
            ));
            if k2 == k && b2 == b {
                crate::levels::lemma_unique_price(s1, crate::order_book::side_asc(k, b), i, j);
            }
        }
    }
}

/// Levels that do not queue order `id` agree with the orders after the
/// order is reduced or removed.
pub proof fn lemma_others_ok(
    book: OrderBook,
    sym: u64,
    orders: Map<u64, Order>,
    orders2: Map<u64, Order>,
    id: u64,
    quantity: u64,
    hidden: u64,
    visible: u64,
    unlink: bool,
    o2: Order,
    k2: BookKind,
    b2: bool,
    j: int,
)
    requires
        book_ok(book, sym, orders),
        reduced_orders(orders, orders2, id, quantity, hidden, visible, unlink, o2),
        0 <= j < book.side(k2, b2).len(),
        !book.side(k2, b2)[j].queue().contains(id),
    ensures
        level_ok(book.side(k2, b2)[j], k2, b2, sym, orders2),
{
    assert(side_ok(book.side(k2, b2), k2, b2, sym, orders));
    assert(level_ok(book.side(k2, b2)[j], k2, b2, sym, orders));
    if unlink {
        lemma_level_ok_without_removed(book.side(k2, b2)[j], k2, b2, sym, orders, id);
    } else {
        lemma_level_ok_without(book.side(k2, b2)[j], k2, b2, sym, orders, id, o2);
    }
}

/// The sides of a book after order `id` was reduced at level `i` agree
/// with the orders.
pub proof fn lemma_reduce_sides(
    book: OrderBook,
    book2: OrderBook,
    sym: u64,
    orders: Map<u64, Order>,
    orders2: Map<u64, Order>,
    id: u64,
    quantity: u64,
    hidden: u64,
    visible: u64,
    unlink: bool,
    o2: Order,
    k: BookKind,
    b: bool,
    i: int,
    removed: bool,
    lv2: Level,
)
    requires
        book_ok(book, sym, orders),
        reduced_orders(orders, orders2, id, quantity, hidden, visible, unlink, o2),
        book2.same_except(&book, k, b),
        0 <= i < book.side(k, b).len(),
        removed ==> book2.side(k, b) == book.side(k, b).remove(i),
        !removed ==> book2.side(k, b) == book.side(k, b).update(i, lv2) && level_ok(lv2, k, b, sym, orders2),
        forall|k2: BookKind, b2: bool, j: int|
            0 <= j < book.side(k2, b2).len() && !(k2 == k && b2 == b && j == i) ==> !(
            #[trigger] book.side(k2, b2)[j]).queue().contains(id),
    ensures
        forall|k2: BookKind, b2: bool| side_ok(#[trigger] book2.side(k2, b2), k2, b2, sym, orders2),
{
    let s1 = book.side(k, b);
    let s2 = book2.side(k, b);
    assert forall|k2: BookKind, b2: bool| side_ok(#[trigger] book2.side(k2, b2), k2, b2, sym, orders2) by {
        if !(k2 == k && b2 == b) {
            assert(book2.side(k2, b2) == book.side(k2, b2));
            assert forall|j: int| 0 <= j < book2.side(k2, b2).len() implies level_ok(
                #[trigger] book2.side(k2, b2)[j],
                k2,
                b2,
                sym,
                orders2,
            ) by {
                assert(!book.side(k2, b2)[j].queue().contains(id));
                lemma_others_ok(book, sym, orders, orders2, id, quantity, hidden, visible, unlink, o2, k2, b2, j);
            }
        } else {
            assert forall|j: int| 0 <= j < s2.len() implies level_ok(#[trigger] s2[j], k, b, sym, orders2) by {
                if removed {
                    let j1 = if j < i {
                        j
                    } else {
                        j + 1
                    };
                    assert(s2[j] == s1[j1]);
                    assert(!book.side(k, b)[j1].queue().contains(id));
                    lemma_others_ok(book, sym, orders, orders2, id, quantity, hidden, visible, unlink, o2, k, b, j1);
                } else if j != i {
                    assert(s2[j] == s1[j]);
                    assert(!book.side(k, b)[j].queue().contains(id));
                    lemma_others_ok(book, sym, orders, orders2, id, quantity, hidden, visible, unlink, o2, k, b, j);
                }
            }
        }
    }
}

/// Every live order is still queued at its price after order `id` was
/// reduced at level `i`.
#[verifier::rlimit(50)]
pub proof fn lemma_reduce_placed(
    book: OrderBook,
    book2: OrderBook,
    sym: u64,
    orders: Map<u64, Order>,
    orders2: Map<u64, Order>,
    id: u64,
    quantity: u64,
    hidden: u64,
    visible: u64,
    unlink: bool,
    o2: Order,
    i: int,
    removed: bool,
    lv2: Level,
)
    requires
        book_ok(book, sym, orders),
        reduced_orders(orders, orders2, id, quantity, hidden, visible, unlink, o2),
        book2.same_except(&book, kind_of(orders[id]), orders[id].spec_is_buy()),
        0 <= i < book.side(kind_of(orders[id]), orders[id].spec_is_buy()).len(),
        book.side(kind_of(orders[id]), orders[id].spec_is_buy())[i].price == key_of(orders[id]),
        lv2.price == key_of(orders[id]),
        removed ==> book2.side(kind_of(orders[id]), orders[id].spec_is_buy()) == book.side(
            kind_of(orders[id]),
            orders[id].spec_is_buy(),
        ).remove(i),
        !removed ==> book2.side(kind_of(orders[id]), orders[id].spec_is_buy()) == book.side(
            kind_of(orders[id]),
            orders[id].spec_is_buy(),
        ).update(i, lv2),
        removed ==> lv2.queue().len() == 0,
        forall|x: u64|
            x != id && book.side(kind_of(orders[id]), orders[id].spec_is_buy())[i].queue().contains(x)
                ==> lv2.queue().contains(x),
        !unlink ==> lv2.queue().contains(id),
    ensures
        forall|x: u64|
            #[trigger] orders2.contains_key(x) && orders2[x].symbol_id == sym ==> placed(
                book2.side(kind_of(orders2[x]), orders2[x].spec_is_buy()),
                key_of(orders2[x]),
                x,
            ),
{
    let o = orders[id];
    let k = kind_of(o);
    let b = o.spec_is_buy();
    let s1 = book.side(k, b);
    let s2 = book2.side(k, b);
    let key = key_of(o);
    assert forall|x: u64| #[trigger] orders2.contains_key(x) && orders2[x].symbol_id == sym implies placed(
        book2.side(kind_of(orders2[x]), orders2[x].spec_is_buy()),
        key_of(orders2[x]),
        x,
    ) by {
        if x == id {
            assert(!unlink);
            assert(s2[i] == lv2);
        } else {
            assert(orders.contains_key(x));
            let ox = orders[x];
            assert(orders2[x] == ox);
            let k2 = kind_of(ox);
            let b2 = ox.spec_is_buy();
            assert(placed(book.side(k2, b2), key_of(ox), x));
            let j = choose|j: int|
                0 <= j < book.side(k2, b2).len() && (#[trigger] book.side(k2, b2)[j]).price
                    == key_of(ox) && book.side(k2, b2)[j].queue().contains(x);
            if !(k2 == k && b2 == b) {
                assert(book2.side(k2, b2) == book.side(k2, b2));
                assert(book2.side(k2, b2)[j].price == key_of(ox));
            } else if j == i {
                assert(lv2.queue().contains(x));
                assert(s2[i] == lv2);
            } else if removed {
                let j2 = if j < i {
                    j
                } else {
                    j - 1
                };
                assert(s2[j2] == s1[j]);
            } else {
                assert(s2[j] == s1[j]);
            }
        }
    }
}

/// Taking part or all of order `id` out of the book keeps the book in
/// agreement with the orders.
pub proof fn lemma_book_reduce(
    book: OrderBook,
    book2: OrderBook,
    sym: u64,
    orders: Map<u64, Order>,
    orders2: Map<u64, Order>,
    id: u64,
    quantity: u64,
    hidden: u64,
    visible: u64,
    unlink: bool,
    o2: Order,
    r: (bool, Level),
)
    requires
        book_ok(book, sym, orders),
        reduced_orders(orders, orders2, id, quantity, hidden, visible, unlink, o2),
        orders[id].symbol_id == sym,
        book2.wf(),
        book2.same_except(&book, kind_of(orders[id]), orders[id].spec_is_buy()),
        side_reduced(
            book2.side(kind_of(orders[id]), orders[id].spec_is_buy()),
            book.side(kind_of(orders[id]), orders[id].spec_is_buy()),
            key_of(orders[id]),
            id,
            quantity,
            hidden,
            visible,
            unlink,
            r,
        ),
    ensures
        book_ok(book2, sym, orders2),
{
    let o = orders[id];
    let k = kind_of(o);
    let b = o.spec_is_buy();
    let s1 = book.side(k, b);
    let s2 = book2.side(k, b);
    let key = key_of(o);
    let i = choose|i: int|
        0 <= i < s1.len() && (#[trigger] s1[i]).price == key && level_reduced(
            r.1,
            s1[i],
            id,
            quantity,
            hidden,
            visible,
            unlink,
        ) && (r.0 <==> r.1.total_volume == 0) && (r.0 ==> s2 == s1.remove(i)) && (!r.0 ==> s2
            == s1.update(i, s2[i]) && level_reduced(
            s2[i],
            s1[i],
            id,
            quantity,
            hidden,
            visible,
            unlink,
        ));
    assert(orders.contains_key(id));
    lemma_only_level(book, sym, orders, id, i);
    assert(side_ok(s1, k, b, sym, orders));
    assert(level_ok(s1[i], k, b, sym, orders));
    let lv2 = if r.0 {
        r.1
    } else {
        s2[i]
    };
    lemma_level_ok_reduced(
        s1[i],
        lv2,
        k,
        b,
        sym,
        orders,
        orders2,
        id,
        quantity,
        hidden,
        visible,
        unlink,
        o2,
    );
    lemma_reduce_sides(book, book2, sym, orders, orders2, id, quantity, hidden, visible, unlink, o2, k, b, i, r.0, lv2);
    lemma_reduce_placed(book, book2, sym, orders, orders2, id, quantity, hidden, visible, unlink, o2, i, r.0, lv2);
}

/// A live order: stored under its id, of a kind that rests in a book,
/// with executed and remaining quantities that add up within `u64`.
pub open spec fn live(id: u64, o: Order) -> bool {
    &&& o.id == id
    &&& resting(o)
    &&& o.executed_quantity + o.leaves_quantity <= u64::MAX
}

/// Every stored order is live.
pub open spec fn orders_live(orders: Map<u64, Order>) -> bool {
    forall|id: u64| #[trigger] orders.contains_key(id) ==> live(id, orders[id])
}

/// The maps differ only in orders of symbol `sym`.
pub open spec fn changes_only(m1: Map<u64, Order>, m2: Map<u64, Order>, sym: u64) -> bool {
    forall|id: u64|
        (#[trigger] m1.contains_key(id) && m1[id].symbol_id != sym) || (m2.contains_key(id)
            && m2[id].symbol_id != sym) ==> m1.contains_key(id) && m2.contains_key(id) && m1[id]
            == m2[id]
}

/// A book of symbol `sym` that agrees with live orders.
pub open spec fn engine_ok(book: OrderBook, sym: u64, orders: Map<u64, Order>) -> bool {
    &&& book_ok(book, sym, orders)
    &&& orders_live(orders)
}

pub proof fn lemma_changes_only_agree(m1: Map<u64, Order>, m2: Map<u64, Order>, sym: u64, t: u64)
    requires
        changes_only(m1, m2, sym),
        t != sym,
    ensures
        agree_on(m1, m2, t),
{
}

pub proof fn lemma_changes_only_trans(m1: Map<u64, Order>, m2: Map<u64, Order>, m3: Map<u64, Order>, sym: u64)
    requires
        changes_only(m1, m2, sym),
        changes_only(m2, m3, sym),
    ensures
        changes_only(m1, m3, sym),
{
    assert forall|id: u64|
        (#[trigger] m1.contains_key(id) && m1[id].symbol_id != sym) || (m3.contains_key(id)
            && m3[id].symbol_id != sym) implies m1.contains_key(id) && m3.contains_key(id) && m1[id]
        == m3[id] by {
        if m1.contains_key(id) && m1[id].symbol_id != sym {
            assert(m2.contains_key(id) && m2[id] == m1[id]);
            assert(m2[id].symbol_id != sym);
            assert(m3.contains_key(id) && m3[id] == m2[id]);
        } else {
            assert(m2.contains_key(id) && m2[id] == m3[id]);
            assert(m2[id].symbol_id != sym);
            assert(m1.contains_key(id) && m1[id] == m2[id]);
        }
    }
}

/// A level that queues a live order has at least that order's volumes.
pub proof fn lemma_can_reduce(book: OrderBook, sym: u64, orders: Map<u64, Order>, id: u64, i: int)
    requires
        book_ok(book, sym, orders),
        orders.contains_key(id),
        orders[id].symbol_id == sym,
        0 <= i < book.side(kind_of(orders[id]), orders[id].spec_is_buy()).len(),
        book.side(kind_of(orders[id]), orders[id].spec_is_buy())[i].price == key_of(orders[id]),
    ensures
        book.side(kind_of(orders[id]), orders[id].spec_is_buy())[i].total_volume
            >= orders[id].leaves_quantity,
        book.side(kind_of(orders[id]), orders[id].spec_is_buy())[i].hidden_volume
            >= orders[id].hidden(),
        book.side(kind_of(orders[id]), orders[id].spec_is_buy())[i].visible_volume
            >= orders[id].visible(),
{
    let o = orders[id];
    let k = kind_of(o);
    let b = o.spec_is_buy();
    let s = book.side(k, b);
    lemma_only_level(book, sym, orders, id, i);
    assert(side_ok(s, k, b, sym, orders));
    assert(level_ok(s[i], k, b, sym, orders));
    let q = s[i].queue();
    lemma_first_index_of(q, id);
    let k0 = first_index_of(q, id);
    lemma_sum_remove(q, k0, orders, 0);
    lemma_sum_remove(q, k0, orders, 1);
    lemma_sum_remove(q, k0, orders, 2);
}

/// The live order `id` of a book's symbol has a level at its price.
pub proof fn lemma_has_level(book: OrderBook, sym: u64, orders: Map<u64, Order>, id: u64)
    requires
        book_ok(book, sym, orders),
        orders.contains_key(id),
        orders[id].symbol_id == sym,
    ensures
        has_level(book.side(kind_of(orders[id]), orders[id].spec_is_buy()), key_of(orders[id])),
        forall|q: u64, h: u64, v: u64|
            q <= orders[id].leaves_quantity && h <= orders[id].hidden() && v <= orders[id].visible()
                ==> #[trigger] crate::order_book::side_can_reduce(
                book.side(kind_of(orders[id]), orders[id].spec_is_buy()),
                key_of(orders[id]),
                q,
                h,
                v,
            ),
{
    let o = orders[id];
    let s = book.side(kind_of(o), o.spec_is_buy());
    assert(placed(s, key_of(o), id));
    let i = choose|i: int| 0 <= i < s.len() && (#[trigger] s[i]).price == key_of(o) && s[i].queue().contains(id);
    lemma_can_reduce(book, sym, orders, id, i);
    assert forall|q: u64, h: u64, v: u64|
        q <= o.leaves_quantity && h <= o.hidden() && v <= o.visible() implies #[trigger] crate::order_book::side_can_reduce(
        s,
        key_of(o),
        q,
        h,
        v,
    ) by {
        assert forall|j: int| 0 <= j < s.len() && (#[trigger] s[j]).price == key_of(o) implies s[j].total_volume
            >= q && s[j].hidden_volume >= h && s[j].visible_volume >= v by {
            crate::levels::lemma_unique_price(s, crate::order_book::side_asc(kind_of(o), o.spec_is_buy()), i, j);
        }
    }
}

} // verus!
