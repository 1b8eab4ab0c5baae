//! Matching of an incoming order against the opposite limit side, and of
//! all-or-none chains.
use vstd::prelude::*;

use crate::consistency::{changes_only, lemma_changes_only_trans, lemma_only_level, lemma_queued_is_live, lemma_sum_positive_all, lemma_sum_remove, level_ok, order_fits, side_ok};
use crate::level::{first_index_of, lemma_first_index_of, remove_first};
use crate::levels::{lemma_unique_price, level_reduced, side_reduced};
use crate::engine::{hidden_delta, reduced_by, visible_delta};
use crate::order_book::{no_leaves, side_asc};
use crate::engine::{lemma_reduce_keeps_stops, lemma_stops_kept_trans, stops_kept};
use crate::engine::{lemma_only_executed_trans, lemma_reduce_only_executes, only_executed};
use crate::engine::{no_new_orders, after_reduce, filled_from, lemma_book_ok_prices, lemma_limit_change, lemma_same_sides, stop_sides_same, ExecutionContext};
use crate::level::Level;
use crate::order::Order;
use crate::order_book::{kind_of, key_of, BookKind, OrderBook};
use crate::volumes::{limit_volume, side_volume};

verus! {

broadcast use vstd::std_specs::hash::group_hash_axioms;

/// What chains are computed from, for one queued order: its remaining
/// quantity, whether it is all-or-none, its level's price and its id.
pub open spec fn item_of(orders: Map<u64, Order>, id: u64, price: u64) -> (u64, bool, u64, u64) {
    (orders[id].leaves_quantity, orders[id].spec_is_aon(), price, id)
}

/// The items of one queue, oldest first.
pub open spec fn flat_queue(q: Seq<u64>, orders: Map<u64, Order>, price: u64) -> Seq<(u64, bool, u64, u64)> {
    Seq::new(q.len(), |j: int| item_of(orders, q[j], price))
}

/// The items of a side in matching order: best level first, each level
/// oldest order first.
pub open spec fn flat_side(s: Seq<Level>, orders: Map<u64, Order>) -> Seq<(u64, bool, u64, u64)>
    decreases s.len(),
{
    if s.len() == 0 {
        Seq::empty()
    } else {
        flat_side(s.drop_last(), orders) + flat_queue(s.last().queue(), orders, s.last().price)
    }
}

/// An order of side `buy` at `price` can trade with a level at `level_price`.
pub open spec fn crosses(buy: bool, price: u64, level_price: u64) -> bool {
    if buy {
        price >= level_price
    } else {
        price <= level_price
    }
}

/// The fill quantity an item gives towards `need`: all of it when it is
/// all-or-none, at most `need` otherwise.
pub open spec fn fill_of(item: (u64, bool, u64, u64), need: u64) -> u64 {
    if item.1 {
        item.0
    } else if item.0 < need {
        item.0
    } else {
        need
    }
}

/// The volume that items `k..` of `f` fill exactly towards `volume`, of
/// which `available` is already filled: `volume` when the items reached,
/// all within `price`, add up to `volume` exactly, and zero otherwise.
pub open spec fn chain_single(
    f: Seq<(u64, bool, u64, u64)>,
    buy: bool,
    price: u64,
    volume: u64,
    k: int,
    available: u64,
) -> u64
    decreases f.len() - k,
{
    if 0 <= k < f.len() && available < volume {
        if !crosses(buy, price, f[k].2) {
            0
        } else {
            let need = (volume - available) as u64;
            let q = fill_of(f[k], need);
            if q == need {
                volume
            } else if q > need {
                0
            } else {
                chain_single(f, buy, price, volume, k + 1, (available + q) as u64)
            }
        }
    } else {
        0
    }
}

/// What executing up to `volume` from items `f` gives, with `done`
/// executed so far: each item in turn is executed by its fill quantity
/// towards what remains, until `volume` is reached, the items run out, or
/// an item would overfill.
pub open spec fn fills(f: Seq<(u64, bool, u64, u64)>, volume: u64, done: u64) -> u64
    decreases f.len(),
{
    if done >= volume || f.len() == 0 {
        done
    } else {
        let rem = (volume - done) as u64;
        let q = fill_of(f[0], rem);
        if q > rem {
            done
        } else {
            fills(f.drop_first(), volume, (done + q) as u64)
        }
    }
}

/// The items left after executing up to `volume` from items `f`, with
/// `done` executed so far, as `fills` executes them: items executed whole
/// leave, and an item executed in part stays at the front with what
/// remains of it.
pub open spec fn rest_of(f: Seq<(u64, bool, u64, u64)>, volume: u64, done: u64) -> Seq<(u64, bool, u64, u64)>
    decreases f.len(),
{
    if done >= volume || f.len() == 0 {
        f
    } else {
        let rem = (volume - done) as u64;
        let q = fill_of(f[0], rem);
        if q > rem {
            f
        } else if q < f[0].0 {
            f.update(0, ((f[0].0 - q) as u64, f[0].1, f[0].2, f[0].3))
        } else {
            rest_of(f.drop_first(), volume, (done + q) as u64)
        }
    }
}

/// What an incoming order of side `buy` at `price` executes of `volume`
/// from items `f`, with `done` executed so far: as `fills`, but it also
/// stops at the first item whose level does not cross `price`.
#[verifier::opaque]
pub open spec fn fills_within(f: Seq<(u64, bool, u64, u64)>, buy: bool, price: u64, volume: u64, done: u64) -> u64
    decreases f.len(),
{
    if done >= volume || f.len() == 0 || !crosses(buy, price, f[0].2) {
        done
    } else {
        let rem = (volume - done) as u64;
        let q = fill_of(f[0], rem);
        if q > rem {
            done
        } else {
            fills_within(f.drop_first(), buy, price, volume, (done + q) as u64)
        }
    }
}

/// The items left after the execution `fills_within` describes.
#[verifier::opaque]
pub open spec fn rest_within(
    f: Seq<(u64, bool, u64, u64)>,
    buy: bool,
    price: u64,
    volume: u64,
    done: u64,
) -> Seq<(u64, bool, u64, u64)>
    decreases f.len(),
{
    if done >= volume || f.len() == 0 || !crosses(buy, price, f[0].2) {
        f
    } else {
        let rem = (volume - done) as u64;
        let q = fill_of(f[0], rem);
        if q > rem {
            f
        } else if q < f[0].0 {
            f.update(0, ((f[0].0 - q) as u64, f[0].1, f[0].2, f[0].3))
        } else {
            rest_within(f.drop_first(), buy, price, volume, (done + q) as u64)
        }
    }
}

/// `r` is `f` without its first `k` items, the first item left possibly
/// reduced in quantity.
pub open spec fn taken_from(r: Seq<(u64, bool, u64, u64)>, f: Seq<(u64, bool, u64, u64)>, k: int) -> bool {
    &&& 0 <= k <= f.len()
    &&& r.len() == f.len() - k
    &&& forall|j: int| 0 < j < r.len() ==> #[trigger] r[j] == f[k + j]
    &&& r.len() > 0 ==> r[0].1 == f[k].1 && r[0].2 == f[k].2 && r[0].3 == f[k].3 && r[0].0 <= f[k].0
}

/// What `rest_of` leaves is a suffix of the items, the first possibly
/// reduced.
pub proof fn lemma_rest_of_taken(f: Seq<(u64, bool, u64, u64)>, volume: u64, done: u64) -> (k: int)
    ensures
        taken_from(rest_of(f, volume, done), f, k),
    decreases f.len(),
{
    if done >= volume || f.len() == 0 {
        0
    } else {
        let rem = (volume - done) as u64;
        let q = fill_of(f[0], rem);
        if q > rem || q < f[0].0 {
            0
        } else {
            let k = lemma_rest_of_taken(f.drop_first(), volume, (done + q) as u64);
            let r = rest_of(f, volume, done);
            assert forall|j: int| 0 < j < r.len() implies #[trigger] r[j] == f[k + 1 + j] by {
                assert(f.drop_first()[k + j] == f[k + 1 + j]);
            }
            k + 1
        }
    }
}

/// What `rest_within` leaves is a suffix of the items, the first possibly
/// reduced.
pub proof fn lemma_rest_within_taken(f: Seq<(u64, bool, u64, u64)>, buy: bool, price: u64, volume: u64, done: u64) -> (k: int)
    ensures
        taken_from(rest_within(f, buy, price, volume, done), f, k),
    decreases f.len(),
{
    reveal(rest_within);
    if done >= volume || f.len() == 0 || !crosses(buy, price, f[0].2) {
        0
    } else {
        let rem = (volume - done) as u64;
        let q = fill_of(f[0], rem);
        if q > rem || q < f[0].0 {
            0
        } else {
            let k = lemma_rest_within_taken(f.drop_first(), buy, price, volume, (done + q) as u64);
            let r = rest_within(f, buy, price, volume, done);
            assert forall|j: int| 0 < j < r.len() implies #[trigger] r[j] == f[k + 1 + j] by {
                assert(f.drop_first()[k + j] == f[k + 1 + j]);
            }
            k + 1
        }
    }
}

/// The price of the last item that the execution `fills_within` describes
/// takes from, `last` when it takes from none.
#[verifier::opaque]
pub open spec fn last_price_within(
    f: Seq<(u64, bool, u64, u64)>,
    buy: bool,
    price: u64,
    volume: u64,
    done: u64,
    last: u64,
) -> u64
    decreases f.len(),
{
    if done >= volume || f.len() == 0 || !crosses(buy, price, f[0].2) {
        last
    } else {
        let rem = (volume - done) as u64;
        let q = fill_of(f[0], rem);
        if q > rem {
            last
        } else if q < f[0].0 {
            f[0].2
        } else {
            last_price_within(f.drop_first(), buy, price, volume, (done + q) as u64, f[0].2)
        }
    }
}

/// The market prices of `b2` after executing `done` from limit side
/// `side` of `b1` at `price`: that side's last and matching prices are
/// `price` once anything was executed, the others are as they were.
pub open spec fn prices_after_chain(b2: OrderBook, b1: OrderBook, side: bool, price: u64, done: u64) -> bool {
    &&& b2.trailing_bid_price == b1.trailing_bid_price
    &&& b2.trailing_ask_price == b1.trailing_ask_price
    &&& if side {
        &&& b2.last_ask_price == b1.last_ask_price
        &&& b2.matching_ask_price == b1.matching_ask_price
        &&& done > 0 ==> b2.last_bid_price == price && b2.matching_bid_price == price
        &&& done == 0 ==> b2.last_bid_price == b1.last_bid_price && b2.matching_bid_price == b1.matching_bid_price
    } else {
        &&& b2.last_bid_price == b1.last_bid_price
        &&& b2.matching_bid_price == b1.matching_bid_price
        &&& done > 0 ==> b2.last_ask_price == price && b2.matching_ask_price == price
        &&& done == 0 ==> b2.last_ask_price == b1.last_ask_price && b2.matching_ask_price == b1.matching_ask_price
    }
}

/// `b2` is `b1` after a trade at `price`: the last and the matching prices
/// of both sides are `price`, the trailing prices are as they were.
pub open spec fn traded_at(b2: OrderBook, b1: OrderBook, price: u64) -> bool {
    &&& b2.last_bid_price == price
    &&& b2.last_ask_price == price
    &&& b2.matching_bid_price == price
    &&& b2.matching_ask_price == price
    &&& b2.trailing_bid_price == b1.trailing_bid_price
    &&& b2.trailing_ask_price == b1.trailing_ask_price
}

/// A single-level chain is the whole volume or nothing.
pub proof fn lemma_chain_single_values(
    f: Seq<(u64, bool, u64, u64)>,
    buy: bool,
    price: u64,
    volume: u64,
    k: int,
    available: u64,
)
    ensures
        chain_single(f, buy, price, volume, k, available) == 0 || chain_single(
            f,
            buy,
            price,
            volume,
            k,
            available,
        ) == volume,
    decreases f.len() - k,
{
    if 0 <= k < f.len() && available < volume && crosses(buy, price, f[k].2) {
        let need = (volume - available) as u64;
        let q = fill_of(f[k], need);
        if q < need {
            lemma_chain_single_values(f, buy, price, volume, k + 1, (available + q) as u64);
        }
    }
}

/// Executing a single-level chain that was found fills all of it.
pub proof fn lemma_chain_single_fills(
    f: Seq<(u64, bool, u64, u64)>,
    buy: bool,
    price: u64,
    volume: u64,
    k: int,
    available: u64,
)
    requires
        0 <= k <= f.len(),
        chain_single(f, buy, price, volume, k, available) == volume,
        volume > 0,
    ensures
        fills(f.subrange(k, f.len() as int), volume, available) == volume,
    decreases f.len() - k,
{
    let t = f.subrange(k, f.len() as int);
    if 0 <= k < f.len() && available < volume {
        let need = (volume - available) as u64;
        let q = fill_of(f[k], need);
        assert(t[0] == f[k]);
        if q < need {
            lemma_chain_single_fills(f, buy, price, volume, k + 1, (available + q) as u64);
            assert(t.drop_first() =~= f.subrange(k + 1, f.len() as int));
        } else {
            assert(q == need);
            let t2 = t.drop_first();
            assert(fills(t2, volume, (available + q) as u64) == volume);
        }
    }
}

/// The best level of the side opposite to an order of side `buy`.
pub open spec fn opposite(b: OrderBook, buy: bool) -> Seq<Level> {
    b.side(BookKind::Limit, !buy)
}

/// Order `o` can trade with the best opposite level.
pub open spec fn can_trade(b: OrderBook, o: Order) -> bool {
    opposite(b, o.spec_is_buy()).len() > 0 && crosses(
        o.spec_is_buy(),
        o.price,
        opposite(b, o.spec_is_buy())[0].price,
    )
}

/// The oldest order of the best level of side `buy`.
pub open spec fn front_order(b: OrderBook, orders: Map<u64, Order>, buy: bool) -> Order {
    orders[b.side(BookKind::Limit, buy)[0].queue()[0]]
}

/// The oldest order of the best opposite level is all-or-none and larger
/// than what remains of `o`.
pub open spec fn front_blocks(b: OrderBook, orders: Map<u64, Order>, o: Order) -> bool {
    &&& opposite(b, o.spec_is_buy()).len() > 0
    &&& front_order(b, orders, !o.spec_is_buy()).spec_is_aon()
    &&& front_order(b, orders, !o.spec_is_buy()).leaves_quantity > o.leaves_quantity
}

proof fn lemma_flat_side_push(s: Seq<Level>, i: int, orders: Map<u64, Order>)
    requires
        0 <= i < s.len(),
    ensures
        flat_side(s.take(i + 1), orders) == flat_side(s.take(i), orders) + flat_queue(
            s[i].queue(),
            orders,
            s[i].price,
        ),
{
    assert(s.take(i + 1).drop_last() =~= s.take(i));
}

/// The best level of a limit side of an engine holds a live order at its
/// front.
pub proof fn lemma_front_live(c: ExecutionContext, buy: bool)
    requires
        c.wf(),
        c.book.side(BookKind::Limit, buy).len() > 0,
    ensures
        c.book.side(BookKind::Limit, buy)[0].queue().len() > 0,
        order_fits(
            c.orders@,
            c.book.side(BookKind::Limit, buy)[0].queue()[0],
            BookKind::Limit,
            buy,
            c.symbol,
            c.book.side(BookKind::Limit, buy)[0].price,
        ),
{
    assert(side_ok(c.book.side(BookKind::Limit, buy), BookKind::Limit, buy, c.symbol, c.orders@));
    assert(level_ok(c.book.side(BookKind::Limit, buy)[0], BookKind::Limit, buy, c.symbol, c.orders@));
    lemma_queued_is_live(c.book, c.symbol, c.orders@, BookKind::Limit, buy, 0, 0);
}

/// The first item of a side is its best level's oldest order.
pub proof fn lemma_flat_side_first(s: Seq<Level>, orders: Map<u64, Order>)
    requires
        s.len() > 0,
        s[0].queue().len() > 0,
    ensures
        flat_side(s, orders).len() > 0,
        flat_side(s, orders)[0] == item_of(orders, s[0].queue()[0], s[0].price),
    decreases s.len(),
{
    if s.len() == 1 {
        assert(s.drop_last() =~= Seq::<Level>::empty());
        assert(flat_side(s.drop_last(), orders) =~= Seq::<(u64, bool, u64, u64)>::empty());
        assert(s.last() == s[0]);
    } else {
        lemma_flat_side_first(s.drop_last(), orders);
        assert(s.drop_last()[0] == s[0]);
    }
}

/// A side's items are its best level's items followed by the rest.
pub proof fn lemma_flat_side_front(s: Seq<Level>, orders: Map<u64, Order>)
    requires
        s.len() > 0,
    ensures
        flat_side(s, orders) == flat_queue(s[0].queue(), orders, s[0].price) + flat_side(
            s.drop_first(),
            orders,
        ),
    decreases s.len(),
{
    if s.len() == 1 {
        assert(s.drop_last() =~= Seq::<Level>::empty());
        assert(s.drop_first() =~= Seq::<Level>::empty());
        assert(flat_side(s.drop_first(), orders) =~= Seq::<(u64, bool, u64, u64)>::empty());
        assert(flat_side(s.drop_last(), orders) =~= Seq::<(u64, bool, u64, u64)>::empty());
    } else {
        lemma_flat_side_front(s.drop_last(), orders);
        assert(s.drop_last().drop_first() =~= s.drop_first().drop_last());
        assert(s.drop_first().last() == s.last());
        assert(s.drop_last()[0] == s[0]);
    }
}

/// Items depend only on the orders the side queues.
pub proof fn lemma_flat_side_agree(s: Seq<Level>, m1: Map<u64, Order>, m2: Map<u64, Order>)
    requires
        forall|i: int, j: int|
            0 <= i < s.len() && 0 <= j < s[i].queue().len() ==> m1[#[trigger] s[i].queue()[j]]
                == m2[s[i].queue()[j]],
    ensures
        flat_side(s, m1) == flat_side(s, m2),
    decreases s.len(),
{
    if s.len() > 0 {
        let t = s.drop_last();
        assert forall|i: int, j: int| 0 <= i < t.len() && 0 <= j < t[i].queue().len() implies m1[
            #[trigger] t[i].queue()[j]] == m2[t[i].queue()[j]] by {
            assert(t[i] == s[i]);
        }
        lemma_flat_side_agree(t, m1, m2);
        let l = s.last();
        assert forall|j: int| 0 <= j < l.queue().len() implies m1[#[trigger] l.queue()[j]] == m2[l.queue()[j]] by {
            assert(s[s.len() - 1] == l);
        }
        assert(flat_queue(l.queue(), m1, l.price) =~= flat_queue(l.queue(), m2, l.price));
    }
}

/// The id of the oldest order of the best level of limit side `side`.
pub open spec fn front_id(b: OrderBook, side: bool) -> u64 {
    b.side(BookKind::Limit, side)[0].queue()[0]
}

/// Executing the oldest order of the best level of a limit side whole
/// takes exactly the first item off the side.
pub proof fn lemma_flat_after_front_filled(c1: ExecutionContext, c2: ExecutionContext, side: bool, execute: bool)
    requires
        c1.wf(),
        c1.book.side(BookKind::Limit, side).len() > 0,
        reduced_by(
            c1,
            c2,
            front_id(c1.book, side),
            c1.orders@[front_id(c1.book, side)].leaves_quantity,
            execute,
        ),
    ensures
        flat_side(c2.book.side(BookKind::Limit, side), c2.orders@) == flat_side(
            c1.book.side(BookKind::Limit, side),
            c1.orders@,
        ).drop_first(),
{
    let m1 = c1.orders@;
    let m2 = c2.orders@;
    let s1 = c1.book.side(BookKind::Limit, side);
    lemma_front_live(c1, side);
    let q1 = s1[0].queue();
    let id = q1[0];
    let o = m1[id];
    let o2 = after_reduce(o, o.leaves_quantity, execute);
    assert(m2 == m1.remove(id));
    let s2 = c2.book.side(BookKind::Limit, side);
    let r = choose|r: (bool, Level)|
        #[trigger] side_reduced(
            s2,
            s1,
            key_of(o),
            id,
            o.leaves_quantity,
            hidden_delta(o, o2),
            visible_delta(o, o2),
            no_leaves(o2),
            r,
        );
    let i = choose|i: int|
        0 <= i < s1.len() && (#[trigger] s1[i]).price == key_of(o) && level_reduced(
            r.1,
            s1[i],
            id,
            o.leaves_quantity,
            hidden_delta(o, o2),
            visible_delta(o, o2),
            no_leaves(o2),
        ) && (r.0 <==> r.1.total_volume == 0) && (r.0 ==> s2 == s1.remove(i)) && (!r.0 ==> s2
            == s1.update(i, s2[i]) && level_reduced(
            s2[i],
            s1[i],
            id,
            o.leaves_quantity,
            hidden_delta(o, o2),
            visible_delta(o, o2),
            no_leaves(o2),
        ));
    assert(c1.book.wf());
    lemma_unique_price(s1, side_asc(BookKind::Limit, side), i, 0);
    assert(side_ok(s1, BookKind::Limit, side, c1.symbol, m1));
    assert(level_ok(s1[0], BookKind::Limit, side, c1.symbol, m1));
    lemma_first_index_of(q1, id);
    assert(first_index_of(q1, id) == 0);
    assert(remove_first(q1, id) =~= q1.drop_first());
    lemma_only_level(c1.book, c1.symbol, m1, id, 0);
    assert(!q1.drop_first().contains(id)) by {
        if q1.drop_first().contains(id) {
            let j = choose|j: int| 0 <= j < q1.drop_first().len() && q1.drop_first()[j] == id;
            assert(q1[j + 1] == q1[0]);
        }
    }
    lemma_flat_side_front(s1, m1);
    let rest = s1.drop_first();
    assert forall|a: int, j: int| 0 <= a < rest.len() && 0 <= j < rest[a].queue().len() implies m1[
        #[trigger] rest[a].queue()[j]] == m2[rest[a].queue()[j]] by {
        assert(rest[a] == s1[a + 1]);
        assert(!s1[a + 1].queue().contains(id));
        assert(rest[a].queue()[j] != id);
    }
    lemma_flat_side_agree(rest, m1, m2);
    let fq = flat_queue(q1, m1, s1[0].price);
    if r.0 {
        lemma_sum_remove(q1, 0, m1, 0);
        if q1.len() > 1 {
            assert forall|j: int| 0 <= j < q1.remove(0).len() implies m1[#[trigger] q1.remove(0)[j]].leaves_quantity
                > 0 by {
                assert(q1.remove(0)[j] == q1[j + 1]);
                assert(order_fits(m1, q1[j + 1], BookKind::Limit, side, c1.symbol, s1[0].price));
            }
            lemma_sum_positive_all(q1.remove(0), m1);
        }
        assert(q1.len() == 1);
        assert(s2 =~= rest);
        assert(fq.len() == 1);
        assert((fq + flat_side(rest, m1)).drop_first() =~= flat_side(rest, m1));
    } else {
        let l2 = s2[0];
        assert(l2.queue() == q1.drop_first());
        lemma_flat_side_front(s2, m2);
        assert(s2.drop_first() =~= rest);
        assert(flat_queue(l2.queue(), m2, l2.price) =~= fq.drop_first()) by {
            assert forall|j: int| 0 <= j < q1.drop_first().len() implies m2[#[trigger] q1.drop_first()[j]]
                == m1[q1.drop_first()[j]] by {
                assert(q1.drop_first()[j] != id);
            }
        }
        assert((fq + flat_side(rest, m1)).drop_first() =~= fq.drop_first() + flat_side(rest, m1));
    }
}

/// Executing part of the oldest order of the best level of a limit side
/// leaves the side's items as they were but for what remains of the first.
pub proof fn lemma_flat_after_front_partial(
    c1: ExecutionContext,
    c2: ExecutionContext,
    side: bool,
    q: u64,
    execute: bool,
)
    requires
        c1.wf(),
        c1.book.side(BookKind::Limit, side).len() > 0,
        q < c1.orders@[front_id(c1.book, side)].leaves_quantity,
        reduced_by(c1, c2, front_id(c1.book, side), q, execute),
    ensures
        flat_side(c2.book.side(BookKind::Limit, side), c2.orders@) == flat_side(
            c1.book.side(BookKind::Limit, side),
            c1.orders@,
        ).update(
            0,
            (
                (c1.orders@[front_id(c1.book, side)].leaves_quantity - q) as u64,
                c1.orders@[front_id(c1.book, side)].spec_is_aon(),
                c1.book.side(BookKind::Limit, side)[0].price,
                front_id(c1.book, side),
            ),
        ),
{
    let m1 = c1.orders@;
    let m2 = c2.orders@;
    let s1 = c1.book.side(BookKind::Limit, side);
    lemma_front_live(c1, side);
    let q1 = s1[0].queue();
    let id = q1[0];
    let o = m1[id];
    let o2 = after_reduce(o, q, execute);
    assert(m2 == m1.insert(id, o2));
    let s2 = c2.book.side(BookKind::Limit, side);
    let r = choose|r: (bool, Level)|
        #[trigger] side_reduced(
            s2,
            s1,
            key_of(o),
            id,
            q,
            hidden_delta(o, o2),
            visible_delta(o, o2),
            no_leaves(o2),
            r,
        );
    let i = choose|i: int|
        0 <= i < s1.len() && (#[trigger] s1[i]).price == key_of(o) && level_reduced(
            r.1,
            s1[i],
            id,
            q,
            hidden_delta(o, o2),
            visible_delta(o, o2),
            no_leaves(o2),
        ) && (r.0 <==> r.1.total_volume == 0) && (r.0 ==> s2 == s1.remove(i)) && (!r.0 ==> s2
            == s1.update(i, s2[i]) && level_reduced(
            s2[i],
            s1[i],
            id,
            q,
            hidden_delta(o, o2),
            visible_delta(o, o2),
            no_leaves(o2),
        ));
    assert(c1.book.wf());
    lemma_unique_price(s1, side_asc(BookKind::Limit, side), i, 0);
    assert(side_ok(s1, BookKind::Limit, side, c1.symbol, m1));
    assert(level_ok(s1[0], BookKind::Limit, side, c1.symbol, m1));
    lemma_sum_remove(q1, 0, m1, 0);
    assert(!r.0);
    lemma_only_level(c1.book, c1.symbol, m1, id, 0);
    assert(!q1.drop_first().contains(id)) by {
        if q1.drop_first().contains(id) {
            let j = choose|j: int| 0 <= j < q1.drop_first().len() && q1.drop_first()[j] == id;
            assert(q1[j + 1] == q1[0]);
        }
    }
    lemma_flat_side_front(s1, m1);
    let rest = s1.drop_first();
    assert forall|a: int, j: int| 0 <= a < rest.len() && 0 <= j < rest[a].queue().len() implies m1[
        #[trigger] rest[a].queue()[j]] == m2[rest[a].queue()[j]] by {
        assert(rest[a] == s1[a + 1]);
        assert(!s1[a + 1].queue().contains(id));
        assert(rest[a].queue()[j] != id);
    }
    lemma_flat_side_agree(rest, m1, m2);
    let fq = flat_queue(q1, m1, s1[0].price);
    let l2 = s2[0];
    assert(l2.queue() == q1);
    lemma_flat_side_front(s2, m2);
    assert(s2.drop_first() =~= rest);
    let x = ((o.leaves_quantity - q) as u64, o.spec_is_aon(), s1[0].price, id);
    assert(flat_queue(l2.queue(), m2, l2.price) =~= fq.update(0, x)) by {
        assert forall|j: int| 0 < j < q1.len() implies m2[#[trigger] q1[j]] == m1[q1[j]] by {
            assert(q1.drop_first()[j - 1] == q1[j]);
        }
    }
    assert((fq + flat_side(rest, m1)).update(0, x) =~= fq.update(0, x) + flat_side(rest, m1));
}

/// The first item of a non-empty limit side is its front order's.
pub proof fn lemma_side_items_first(c: ExecutionContext, side: bool)
    requires
        c.wf(),
        c.book.side(BookKind::Limit, side).len() > 0,
    ensures
        side_items(c, side).len() > 0,
        side_items(c, side)[0] == item_of(
            c.orders@,
            front_id(c.book, side),
            c.book.side(BookKind::Limit, side)[0].price,
        ),
{
    reveal(side_items);
    lemma_front_live(c, side);
    lemma_flat_side_first(c.book.side(BookKind::Limit, side), c.orders@);
}

/// Engines with the same limit sides and orders have the same items.
pub proof fn lemma_side_items_same(a: ExecutionContext, b: ExecutionContext)
    requires
        a.orders@ == b.orders@,
        a.book.side(BookKind::Limit, true) == b.book.side(BookKind::Limit, true),
        a.book.side(BookKind::Limit, false) == b.book.side(BookKind::Limit, false),
    ensures
        side_items(a, true) == side_items(b, true),
        side_items(a, false) == side_items(b, false),
{
    reveal(side_items);
}

/// How far the matching of an incoming order of side `buy` at `price` for
/// `volume` has come: with `done` executed, the last at level price
/// `last`, its own side still holds items `own0`, and executing the rest
/// from the opposite items `opp` gives what executing all of it from the
/// opposite items `opp0` gives, down to the price of the last level
/// traded with.
#[verifier::opaque]
spec fn match_progress(
    own0: Seq<(u64, bool, u64, u64)>,
    opp0: Seq<(u64, bool, u64, u64)>,
    own: Seq<(u64, bool, u64, u64)>,
    opp: Seq<(u64, bool, u64, u64)>,
    buy: bool,
    price: u64,
    volume: u64,
    done: u64,
    last: u64,
) -> bool {
    &&& own == own0
    &&& fills_within(opp0, buy, price, volume, 0) == fills_within(opp, buy, price, volume, done)
    &&& rest_within(opp0, buy, price, volume, 0) == rest_within(opp, buy, price, volume, done)
    &&& last_price_within(opp0, buy, price, volume, 0, 0) == last_price_within(opp, buy, price, volume, done, last)
}

/// Matching starts with nothing executed.
proof fn lemma_match_begins(
    own: Seq<(u64, bool, u64, u64)>,
    opp: Seq<(u64, bool, u64, u64)>,
    buy: bool,
    price: u64,
    volume: u64,
)
    ensures
        match_progress(own, opp, own, opp, buy, price, volume, 0, 0),
{
    reveal(match_progress);
}

/// Where matching stops, nothing more is executed and the items stay.
proof fn lemma_match_stops(
    own0: Seq<(u64, bool, u64, u64)>,
    opp0: Seq<(u64, bool, u64, u64)>,
    own: Seq<(u64, bool, u64, u64)>,
    opp: Seq<(u64, bool, u64, u64)>,
    buy: bool,
    price: u64,
    volume: u64,
    done: u64,
    last: u64,
)
    requires
        match_progress(own0, opp0, own, opp, buy, price, volume, done, last),
        done >= volume || opp.len() == 0 || !crosses(buy, price, opp[0].2) || fill_of(
            opp[0],
            (volume - done) as u64,
        ) > volume - done,
    ensures
        own == own0,
        done == fills_within(opp0, buy, price, volume, 0),
        opp == rest_within(opp0, buy, price, volume, 0),
        last == last_price_within(opp0, buy, price, volume, 0, 0),
{
    reveal(match_progress);
    reveal(fills_within);
    reveal(rest_within);
    reveal(last_price_within);
}

/// One trade of an incoming order of side `buy` at `price` with the oldest
/// order of the best opposite level keeps the matching's progress.
proof fn lemma_match_step(
    own0: Seq<(u64, bool, u64, u64)>,
    opp0: Seq<(u64, bool, u64, u64)>,
    mid: ExecutionContext,
    after: ExecutionContext,
    buy: bool,
    price: u64,
    volume: u64,
    done: u64,
    q: u64,
    last: u64,
)
    requires
        mid.wf(),
        match_progress(own0, opp0, side_items(mid, buy), side_items(mid, !buy), buy, price, volume, done, last),
        mid.book.side(BookKind::Limit, !buy).len() > 0,
        crosses(buy, price, mid.book.side(BookKind::Limit, !buy)[0].price),
        done < volume,
        q == fill_of(
            item_of(mid.orders@, front_id(mid.book, !buy), mid.book.side(BookKind::Limit, !buy)[0].price),
            (volume - done) as u64,
        ),
        q <= volume - done,
        reduced_by(mid, after, front_id(mid.book, !buy), q, true),
    ensures
        match_progress(
            own0,
            opp0,
            side_items(after, buy),
            side_items(after, !buy),
            buy,
            price,
            volume,
            (done + q) as u64,
            mid.book.side(BookKind::Limit, !buy)[0].price,
        ),
{
    reveal(match_progress);
    reveal(side_items);
    reveal(fills_within);
    reveal(rest_within);
    reveal(last_price_within);
    let id = front_id(mid.book, !buy);
    lemma_front_live(mid, !buy);
    lemma_flat_side_first(mid.book.side(BookKind::Limit, !buy), mid.orders@);
    crate::engine::lemma_limit_change(after.book, mid.book, !buy);
    assert(after.book.side(BookKind::Limit, buy) == mid.book.side(BookKind::Limit, buy));
    let own = mid.book.side(BookKind::Limit, buy);
    assert forall|a: int, b: int| 0 <= a < own.len() && 0 <= b < own[a].queue().len() implies mid.orders@[
        #[trigger] own[a].queue()[b]] == after.orders@[own[a].queue()[b]] by {
        lemma_queued_is_live(mid.book, mid.symbol, mid.orders@, BookKind::Limit, buy, a, b);
    }
    lemma_flat_side_agree(own, mid.orders@, after.orders@);
    let big_f = side_items(mid, !buy);
    if q == mid.orders@[id].leaves_quantity {
        lemma_flat_after_front_filled(mid, after, !buy, true);
    } else {
        lemma_flat_after_front_partial(mid, after, !buy, q, true);
        let nf = side_items(after, !buy);
        assert(rest_within(nf, buy, price, volume, (done + q) as u64) == nf);
        assert(fills_within(nf, buy, price, volume, (done + q) as u64) == (done + q) as u64);
        assert(fills_within(big_f.drop_first(), buy, price, volume, (done + q) as u64) == (done + q) as u64);
        assert(last_price_within(nf, buy, price, volume, (done + q) as u64, mid.book.side(BookKind::Limit, !buy)[0].price)
            == mid.book.side(BookKind::Limit, !buy)[0].price);
    }
}

impl ExecutionContext {
    /// The items of limit side `buy` in matching order.
    pub(crate) fn flatten_side(&self, buy: bool) -> (v: Vec<(u64, bool, u64, u64)>)
        requires
            self.wf(),
        ensures
            v@ == flat_side(self.book.side(BookKind::Limit, buy), self.orders@),
    {
        let s = self.book.side_ref(BookKind::Limit, buy);
        let mut v: Vec<(u64, bool, u64, u64)> = Vec::new();
        let mut i: usize = 0;
        proof {
            assert(s@.take(0) =~= Seq::<Level>::empty());
        }
        while i < s.len()
            invariant
                self.wf(),
                s@ == self.book.side(BookKind::Limit, buy),
                i <= s@.len(),
                v@ == flat_side(s@.take(i as int), self.orders@),
            decreases s@.len() - i,
        {
            let q = &s[i].order_list.list;
            let price = s[i].price;
            let mut j: usize = 0;
            let ghost v0 = v@;
            proof {
                assert(q@.take(0) =~= Seq::<u64>::empty());
                assert(flat_queue(q@.take(0), self.orders@, price) =~= Seq::<(u64, bool, u64, u64)>::empty());
                assert(v@ =~= v0 + flat_queue(q@.take(0), self.orders@, price));
            }
            while j < q.len()
                invariant
                    self.wf(),
                    s@ == self.book.side(BookKind::Limit, buy),
                    i < s@.len(),
                    q@ == s@[i as int].queue(),
                    price == s@[i as int].price,
                    j <= q@.len(),
                    v0 == flat_side(s@.take(i as int), self.orders@),
                    v@ == v0 + flat_queue(q@.take(j as int), self.orders@, price),
                decreases q@.len() - j,
            {
                let id = q[j];
                proof {
                    lemma_queued_is_live(self.book, self.symbol, self.orders@, BookKind::Limit, buy, i as int, j as int);
                }
                let o = self.orders.find(id).unwrap();
                let aon = o.is_aon();
                v.push((o.leaves_quantity, aon, price, id));
                proof {
                    assert(flat_queue(q@.take(j + 1), self.orders@, price) =~= flat_queue(
                        q@.take(j as int),
                        self.orders@,
                        price,
                    ).push(item_of(self.orders@, id, price)));
                    assert(v@ =~= v0 + flat_queue(q@.take(j + 1), self.orders@, price));
                }
                j = j + 1;
            }
            proof {
                assert(q@.take(j as int) =~= q@);
                lemma_flat_side_push(s@, i as int, self.orders@);
            }
            i = i + 1;
        }
        proof {
            assert(s@.take(i as int) =~= s@);
        }
        v
    }
}

/// `chain_single` over a vector of items, from the start.
fn chain_single_exec(f: &Vec<(u64, bool, u64, u64)>, buy: bool, price: u64, volume: u64) -> (r: u64)
    ensures
        r == chain_single(f@, buy, price, volume, 0, 0),
{
    let mut k: usize = 0;
    let mut available: u64 = 0;
    while k < f.len()
        invariant
            k <= f@.len(),
            chain_single(f@, buy, price, volume, 0, 0) == chain_single(f@, buy, price, volume, k as int, available),
        decreases f@.len() - k,
    {
        if available >= volume {
            return 0;
        }
        let item = f[k];
        let level_price = item.2;
        let crossing = if buy {
            price >= level_price
        } else {
            price <= level_price
        };
        if !crossing {
            return 0;
        }
        let need = volume - available;
        let q = if item.1 {
            item.0
        } else if item.0 < need {
            item.0
        } else {
            need
        };
        if q == need {
            return volume;
        }
        if q > need {
            return 0;
        }
        available = available + q;
        k = k + 1;
    }
    0
}

impl ExecutionContext {
    /// The volume that the opposite side of an order of side `buy` at
    /// `price` can fill exactly, `volume`, or zero when it cannot: orders
    /// are taken best level first and oldest first, every level taken must
    /// be within `price`, an all-or-none order is taken whole, and the
    /// filled volume must reach `volume` exactly.
    pub fn calculate_matching_chain_single_level(&self, buy: bool, price: u64, volume: u64) -> (r: u64)
        requires
            self.wf(),
        ensures
            r == chain_single(flat_side(opposite(self.book, buy), self.orders@), buy, price, volume, 0, 0),
    {
        let f = self.flatten_side(!buy);
        chain_single_exec(&f, buy, price, volume)
    }

    /// Executes up to `volume` from the best levels of limit side `side`
    /// at `price`, oldest order first: an all-or-none order whole, any
    /// other order up to what remains of `volume`. Stops when `volume` is
    /// reached, when the side is empty, or at an all-or-none order larger
    /// than what remains. Returns the executed volume.
    pub fn execute_matching_chain(&mut self, side: bool, price: u64, volume: u64) -> (done: u64)
        requires
            old(self).wf(),
        ensures
            final(self).wf(),
            final(self).symbol == old(self).symbol,
            changes_only(old(self).orders@, final(self).orders@, old(self).symbol),
            no_new_orders(old(self).orders@, final(self).orders@),
            stops_kept(old(self).orders@, final(self).orders@),
            only_executed(old(self).orders@, final(self).orders@),
            done <= volume,
            done == fills(flat_side(old(self).book.side(BookKind::Limit, side), old(self).orders@), volume, 0),
            flat_side(final(self).book.side(BookKind::Limit, side), final(self).orders@) == rest_of(
                flat_side(old(self).book.side(BookKind::Limit, side), old(self).orders@),
                volume,
                0,
            ),
            flat_side(final(self).book.side(BookKind::Limit, !side), final(self).orders@) == flat_side(
                old(self).book.side(BookKind::Limit, !side),
                old(self).orders@,
            ),
            stop_sides_same(final(self).book, old(self).book),
            final(self).book.side(BookKind::Limit, !side) == old(self).book.side(BookKind::Limit, !side),
            side_volume(final(self).book.side(BookKind::Limit, side)) + done == side_volume(
                old(self).book.side(BookKind::Limit, side),
            ),
            volume > 0 && old(self).book.side(BookKind::Limit, side).len() > 0 && (front_order(
                old(self).book,
                old(self).orders@,
                side,
            ).spec_is_aon() ==> front_order(old(self).book, old(self).orders@, side).leaves_quantity
                <= volume) ==> done > 0,
            prices_after_chain(final(self).book, old(self).book, side, price, done),
    {
        let mut done: u64 = 0;
        let ghost start = *self;
        loop
            invariant
                self.wf(),
                self.symbol == start.symbol,
                changes_only(start.orders@, self.orders@, start.symbol),
                no_new_orders(start.orders@, self.orders@),
                stops_kept(start.orders@, self.orders@),
                only_executed(start.orders@, self.orders@),
                done <= volume,
                stop_sides_same(self.book, start.book),
                self.book.side(BookKind::Limit, !side) == start.book.side(BookKind::Limit, !side),
                side_volume(self.book.side(BookKind::Limit, side)) + done == side_volume(
                    start.book.side(BookKind::Limit, side),
                ),
                done == 0 ==> self.same_state(&start),
                fills(flat_side(start.book.side(BookKind::Limit, side), start.orders@), volume, 0)
                    == fills(flat_side(self.book.side(BookKind::Limit, side), self.orders@), volume, done),
                rest_of(flat_side(start.book.side(BookKind::Limit, side), start.orders@), volume, 0)
                    == rest_of(flat_side(self.book.side(BookKind::Limit, side), self.orders@), volume, done),
                flat_side(self.book.side(BookKind::Limit, !side), self.orders@) == flat_side(
                    start.book.side(BookKind::Limit, !side),
                    start.orders@,
                ),
                prices_after_chain(self.book, start.book, side, price, done),
            ensures
                self.wf(),
                self.symbol == start.symbol,
                prices_after_chain(self.book, start.book, side, price, done),
                changes_only(start.orders@, self.orders@, start.symbol),
                no_new_orders(start.orders@, self.orders@),
                stops_kept(start.orders@, self.orders@),
                only_executed(start.orders@, self.orders@),
                done <= volume,
                done == fills(flat_side(start.book.side(BookKind::Limit, side), start.orders@), volume, 0),
                flat_side(self.book.side(BookKind::Limit, side), self.orders@) == rest_of(
                    flat_side(start.book.side(BookKind::Limit, side), start.orders@),
                    volume,
                    0,
                ),
                flat_side(self.book.side(BookKind::Limit, !side), self.orders@) == flat_side(
                    start.book.side(BookKind::Limit, !side),
                    start.orders@,
                ),
                stop_sides_same(self.book, start.book),
                self.book.side(BookKind::Limit, !side) == start.book.side(BookKind::Limit, !side),
                side_volume(self.book.side(BookKind::Limit, side)) + done == side_volume(
                    start.book.side(BookKind::Limit, side),
                ),
                volume > 0 && start.book.side(BookKind::Limit, side).len() > 0 && (front_order(
                    start.book,
                    start.orders@,
                    side,
                ).spec_is_aon() ==> front_order(start.book, start.orders@, side).leaves_quantity
                    <= volume) ==> done > 0,
            decreases volume - done,
        {
            if done >= volume {
                break;
            }
            let s = self.book.side_ref(BookKind::Limit, side);
            if s.len() == 0 {
                proof {
                    assert(flat_side(self.book.side(BookKind::Limit, side), self.orders@) =~= Seq::<(u64, bool, u64, u64)>::empty());
                }
                break;
            }
            proof {
                lemma_front_live(*self, side);
                lemma_flat_side_first(self.book.side(BookKind::Limit, side), self.orders@);
            }
            let id = s[0].order_list.list[0];
            let front = self.orders.find(id).unwrap();
            let rem = volume - done;
            let q = if front.is_aon() {
                front.leaves_quantity
            } else if front.leaves_quantity < rem {
                front.leaves_quantity
            } else {
                rem
            };
            if q > rem {
                break;
            }
            let ghost before = *self;
            self.book.update_last_price(&front, price);
            self.book.update_matching_price(&front, price);
            proof {
                lemma_book_ok_prices(before.book, self.book, self.symbol, self.orders@);
                lemma_same_sides(self.book, before.book);
            }
            let ghost mid = *self;
            self.reduce_resting(id, q, true);
            proof {
                assert(flat_side(mid.book.side(BookKind::Limit, side), mid.orders@) == flat_side(
                    before.book.side(BookKind::Limit, side),
                    before.orders@,
                ));
                let big_f = flat_side(before.book.side(BookKind::Limit, side), before.orders@);
                assert(big_f[0] == item_of(before.orders@, id, before.book.side(BookKind::Limit, side)[0].price));
                assert(fill_of(big_f[0], rem) == q);
                assert(fills(big_f, volume, done) == fills(big_f.drop_first(), volume, (done + q) as u64));
                let other = mid.book.side(BookKind::Limit, !side);
                assert forall|a: int, b: int| 0 <= a < other.len() && 0 <= b < other[a].queue().len() implies mid.orders@[
                    #[trigger] other[a].queue()[b]] == self.orders@[other[a].queue()[b]] by {
                    lemma_queued_is_live(mid.book, mid.symbol, mid.orders@, BookKind::Limit, !side, a, b);
                }
                lemma_flat_side_agree(other, mid.orders@, self.orders@);
                if q == front.leaves_quantity {
                    lemma_flat_after_front_filled(mid, *self, side, true);
                    assert(rest_of(big_f, volume, done) == rest_of(big_f.drop_first(), volume, (done + q) as u64));
                } else {
                    assert(q == rem);
                    assert(fills(flat_side(self.book.side(BookKind::Limit, side), self.orders@), volume, (done + q) as u64) == volume);
                    assert(fills(big_f.drop_first(), volume, (done + q) as u64) == volume);
                    lemma_flat_after_front_partial(mid, *self, side, q, true);
                    let nf = flat_side(self.book.side(BookKind::Limit, side), self.orders@);
                    assert(rest_of(nf, volume, (done + q) as u64) == nf);
                }
                lemma_limit_change(self.book, mid.book, side);
                lemma_changes_only_trans(start.orders@, mid.orders@, self.orders@, start.symbol);
                assert(kind_of(mid.orders@[id]) == BookKind::Limit);
                lemma_reduce_keeps_stops(mid, *self, id, q, true);
                lemma_stops_kept_trans(start.orders@, mid.orders@, self.orders@);
                lemma_reduce_only_executes(mid, *self, id, q, true);
                lemma_only_executed_trans(start.orders@, mid.orders@, self.orders@);
                assert(mid.orders@[id].spec_is_buy() == side);
                assert(mid.book.side(BookKind::Limit, side) == before.book.side(BookKind::Limit, side));
            }
            done = done + q;
        }
        done
    }
}

/// The items of limit side `side` of `c` in matching order.
#[verifier::opaque]
pub open spec fn side_items(c: ExecutionContext, side: bool) -> Seq<(u64, bool, u64, u64)> {
    flat_side(c.book.side(BookKind::Limit, side), c.orders@)
}

/// The items of the limit side opposite to order `o` in matching order.
pub open spec fn opposite_items(c: ExecutionContext, o: Order) -> Seq<(u64, bool, u64, u64)> {
    side_items(c, !o.spec_is_buy())
}

/// The chain an all-or-none or fill-or-kill order `o` can fill exactly
/// from the opposite side of `c`, or zero.
pub open spec fn chain_for(c: ExecutionContext, o: Order) -> u64 {
    chain_single(
        flat_side(opposite(c.book, o.spec_is_buy()), c.orders@),
        o.spec_is_buy(),
        o.price,
        o.leaves_quantity,
        0,
        0,
    )
}

/// `c2` and `o2` are what matching incoming order `o1` against engine
/// `c1` gives; the order's own side is left as it was. A fill-or-kill or
/// all-or-none order is filled completely when the opposite side can fill
/// it exactly within its price, taking the opposite orders in price-time
/// priority, and nothing changes otherwise. Any other order trades with
/// the opposite orders in price-time priority, best level first and
/// oldest order first, until it is filled, the next level no longer
/// crosses its price, or the next order is all-or-none and larger than
/// what remains; what it fills leaves the book. Every trade records its
/// price as the last and matching price of both sides: the order's own
/// price for a fill-or-kill or all-or-none order, the price of the last
/// level traded with for any other. Where nothing trades, the engine is
/// left as it was.
pub open spec fn matched(c1: ExecutionContext, c2: ExecutionContext, o1: Order, o2: Order) -> bool {
    let buy = o1.spec_is_buy();
    &&& c2.symbol == c1.symbol
    &&& changes_only(c1.orders@, c2.orders@, c1.symbol)
    &&& no_new_orders(c1.orders@, c2.orders@)
    &&& stops_kept(c1.orders@, c2.orders@)
    &&& only_executed(c1.orders@, c2.orders@)
    &&& stop_sides_same(c2.book, c1.book)
    &&& c2.book.side(BookKind::Limit, buy) == c1.book.side(BookKind::Limit, buy)
    &&& side_items(c2, buy) == side_items(c1, buy)
    &&& filled_from(o2, o1)
    &&& limit_volume(c2.book) <= limit_volume(c1.book)
    &&& (o1.spec_is_fok() || o1.spec_is_aon()) ==> if can_trade(c1.book, o1) && chain_for(c1, o1)
        != 0 {
        &&& o2.leaves_quantity == 0
        &&& limit_volume(c2.book) + o1.leaves_quantity == limit_volume(c1.book)
        &&& side_items(c2, !buy) == rest_of(side_items(c1, !buy), o1.leaves_quantity, 0)
        &&& traded_at(c2.book, c1.book, o1.price)
    } else {
        c2.same_state(&c1) && o2 == o1
    }
    &&& !(o1.spec_is_fok() || o1.spec_is_aon()) ==> {
        &&& limit_volume(c2.book) + (o1.leaves_quantity - o2.leaves_quantity) == limit_volume(
            c1.book,
        )
        &&& o1.leaves_quantity - o2.leaves_quantity == fills_within(
            side_items(c1, !buy),
            buy,
            o1.price,
            o1.leaves_quantity,
            0,
        )
        &&& side_items(c2, !buy) == rest_within(side_items(c1, !buy), buy, o1.price, o1.leaves_quantity, 0)
        &&& o2.leaves_quantity == 0 || !can_trade(c2.book, o2) || front_blocks(
            c2.book,
            c2.orders@,
            o2,
        )
        &&& o2.leaves_quantity == o1.leaves_quantity ==> c2.same_state(&c1)
        &&& o2.leaves_quantity < o1.leaves_quantity ==> traded_at(
            c2.book,
            c1.book,
            last_price_within(side_items(c1, !buy), buy, o1.price, o1.leaves_quantity, 0, 0),
        )
    }
}

/// The price a market order of side `buy` may trade at: the best opposite
/// price moved by the order's slippage, within the range of `u64`.
pub open spec fn slipped_price(b: OrderBook, o: Order) -> u64 {
    if o.spec_is_buy() {
        let p = b.asks@[0].price + o.slippage;
        if p > u64::MAX {
            u64::MAX
        } else {
            p as u64
        }
    } else {
        if b.bids@[0].price < o.slippage {
            0
        } else {
            (b.bids@[0].price - o.slippage) as u64
        }
    }
}

/// Where the matching loop of an incoming order stops, what it executed
/// and left is what `fills_within` and `rest_within` describe.
proof fn lemma_match_ends(
    c: ExecutionContext,
    o0: Order,
    o: Order,
    own0: Seq<(u64, bool, u64, u64)>,
    opp0: Seq<(u64, bool, u64, u64)>,
    volume: u64,
    last: u64,
)
    requires
        c.wf(),
        o.spec_is_buy() == o0.spec_is_buy(),
        o.price == o0.price,
        o.leaves_quantity <= volume,
        match_progress(
            own0,
            opp0,
            side_items(c, o0.spec_is_buy()),
            side_items(c, !o0.spec_is_buy()),
            o0.spec_is_buy(),
            o0.price,
            volume,
            (volume - o.leaves_quantity) as u64,
            last,
        ),
        o.leaves_quantity == 0 || !can_trade(c.book, o) || front_blocks(c.book, c.orders@, o),
    ensures
        last == last_price_within(opp0, o0.spec_is_buy(), o0.price, volume, 0, 0),
        side_items(c, o0.spec_is_buy()) == own0,
        volume - o.leaves_quantity == fills_within(opp0, o0.spec_is_buy(), o0.price, volume, 0),
        side_items(c, !o0.spec_is_buy()) == rest_within(opp0, o0.spec_is_buy(), o0.price, volume, 0),
{
    let buy = o0.spec_is_buy();
    if c.book.side(BookKind::Limit, !buy).len() == 0 {
        assert(side_items(c, !buy) =~= Seq::<(u64, bool, u64, u64)>::empty()) by {
            reveal(side_items);
        }
    } else {
        lemma_side_items_first(c, !buy);
    }
    lemma_match_stops(
        own0,
        opp0,
        side_items(c, buy),
        side_items(c, !buy),
        buy,
        o0.price,
        volume,
        (volume - o.leaves_quantity) as u64,
        last,
    );
}

impl ExecutionContext {
    /// Trades incoming `order` with the oldest order of the best opposite
    /// level at that level's price: both lose the smaller of what remains
    /// of them, and the book's market prices follow the trade.
    fn trade_front(
        &mut self,
        order: &mut Order,
        volume: u64,
        Ghost(own0): Ghost<Seq<(u64, bool, u64, u64)>>,
        Ghost(opp0): Ghost<Seq<(u64, bool, u64, u64)>>,
        Ghost(last): Ghost<u64>,
    )
        requires
            old(self).wf(),
            old(order).executed_quantity + old(order).leaves_quantity <= u64::MAX,
            0 < old(order).leaves_quantity <= volume,
            can_trade(old(self).book, *old(order)),
            !front_blocks(old(self).book, old(self).orders@, *old(order)),
            match_progress(
                own0,
                opp0,
                side_items(*old(self), old(order).spec_is_buy()),
                side_items(*old(self), !old(order).spec_is_buy()),
                old(order).spec_is_buy(),
                old(order).price,
                volume,
                (volume - old(order).leaves_quantity) as u64,
                last,
            ),
        ensures
            final(self).wf(),
            final(self).symbol == old(self).symbol,
            changes_only(old(self).orders@, final(self).orders@, old(self).symbol),
            no_new_orders(old(self).orders@, final(self).orders@),
            stop_sides_same(final(self).book, old(self).book),
            stops_kept(old(self).orders@, final(self).orders@),
            only_executed(old(self).orders@, final(self).orders@),
            filled_from(*final(order), *old(order)),
            final(order).leaves_quantity < old(order).leaves_quantity,
            limit_volume(final(self).book) + (old(order).leaves_quantity - final(order).leaves_quantity)
                == limit_volume(old(self).book),
            final(self).book.side(BookKind::Limit, old(order).spec_is_buy()) == old(self).book.side(
                BookKind::Limit,
                old(order).spec_is_buy(),
            ),
            match_progress(
                own0,
                opp0,
                side_items(*final(self), old(order).spec_is_buy()),
                side_items(*final(self), !old(order).spec_is_buy()),
                old(order).spec_is_buy(),
                old(order).price,
                volume,
                (volume - final(order).leaves_quantity) as u64,
                old(self).book.side(BookKind::Limit, !old(order).spec_is_buy())[0].price,
            ),
            traded_at(
                final(self).book,
                old(self).book,
                old(self).book.side(BookKind::Limit, !old(order).spec_is_buy())[0].price,
            ),
    {
        let buy = order.is_buy();
        let s = self.book.side_ref(BookKind::Limit, !buy);
        let lp = s[0].price;
        proof {
            lemma_front_live(*self, !buy);
        }
        let id = s[0].order_list.list[0];
        let front = self.orders.find(id).unwrap();
        let q = if front.leaves_quantity < order.leaves_quantity {
            front.leaves_quantity
        } else {
            order.leaves_quantity
        };
        let ghost before = *self;
        let ghost done = (volume - order.leaves_quantity) as u64;
        self.book.update_last_price(&front, lp);
        self.book.update_matching_price(&front, lp);
        proof {
            lemma_book_ok_prices(before.book, self.book, self.symbol, self.orders@);
            lemma_same_sides(self.book, before.book);
        }
        let ghost mid = *self;
        self.reduce_resting(id, q, true);
        let ghost after = *self;
        self.book.update_last_price(order, lp);
        self.book.update_matching_price(order, lp);
        proof {
            lemma_limit_change(after.book, mid.book, !buy);
            lemma_book_ok_prices(after.book, self.book, self.symbol, self.orders@);
            lemma_same_sides(self.book, after.book);
            assert(mid.book.side(BookKind::Limit, !buy) == before.book.side(BookKind::Limit, !buy));
            assert(mid.book.side(BookKind::Limit, buy) == before.book.side(BookKind::Limit, buy));
            assert(self.book.side(BookKind::Limit, buy) == after.book.side(BookKind::Limit, buy));
            assert(self.book.side(BookKind::Limit, !buy) == after.book.side(BookKind::Limit, !buy));
            lemma_side_items_same(mid, before);
            lemma_side_items_same(*self, after);
            assert(q == fill_of(
                item_of(mid.orders@, front_id(mid.book, !buy), mid.book.side(BookKind::Limit, !buy)[0].price),
                (volume - done) as u64,
            ));
            assert(crosses(buy, order.price, mid.book.side(BookKind::Limit, !buy)[0].price));
            assert(match_progress(own0, opp0, side_items(mid, buy), side_items(mid, !buy), buy, order.price, volume, done, last));
            lemma_match_step(own0, opp0, mid, after, buy, order.price, volume, done, q, last);
            lemma_reduce_keeps_stops(mid, after, id, q, true);
            lemma_reduce_only_executes(mid, after, id, q, true);
        }
        order.executed_quantity = order.executed_quantity + q;
        order.leaves_quantity = order.leaves_quantity - q;
        proof {
            assert((volume - order.leaves_quantity) as u64 == (done + q) as u64);
        }
    }
}

impl ExecutionContext {
    /// Matches incoming `order` against the opposite limit side; see
    /// `matched`.
    pub fn match_order(&mut self, order: &mut Order)
        requires
            old(self).wf(),
            old(order).executed_quantity + old(order).leaves_quantity <= u64::MAX,
        ensures
            final(self).wf(),
            matched(*old(self), *final(self), *old(order), *final(order)),
    {
        let buy = order.is_buy();
        let ghost start = *self;
        let ghost start_order = *order;
        if order.is_fok() || order.is_aon() {
            let s = self.book.side_ref(BookKind::Limit, !buy);
            if s.len() == 0 {
                return;
            }
            let lp = s[0].price;
            let crossing = if buy {
                order.price >= lp
            } else {
                order.price <= lp
            };
            if !crossing {
                return;
            }
            let chain = self.calculate_matching_chain_single_level(buy, order.price, order.leaves_quantity);
            if chain == 0 {
                return;
            }
            proof {
                let f = flat_side(opposite(self.book, buy), self.orders@);
                lemma_chain_single_values(f, buy, order.price, order.leaves_quantity, 0, 0);
                lemma_chain_single_fills(f, buy, order.price, order.leaves_quantity, 0, 0);
                assert(f.subrange(0, f.len() as int) =~= f);
            }
            self.execute_matching_chain(!buy, order.price, chain);
            let ghost mid = *self;
            self.book.update_last_price(order, order.price);
            self.book.update_matching_price(order, order.price);
            proof {
                lemma_book_ok_prices(mid.book, self.book, self.symbol, self.orders@);
                lemma_same_sides(self.book, mid.book);
                assert(self.book.side(BookKind::Limit, buy) == mid.book.side(BookKind::Limit, buy));
                assert(self.book.side(BookKind::Limit, !buy) == mid.book.side(BookKind::Limit, !buy));
                reveal(side_items);
            }
            order.executed_quantity = order.executed_quantity + order.leaves_quantity;
            order.leaves_quantity = 0;
            return;
        }
        let volume = order.leaves_quantity;
        let ghost mut last: u64 = 0;
        proof {
            lemma_match_begins(side_items(start, buy), side_items(start, !buy), buy, order.price, volume);
        }
        loop
            invariant
                self.wf(),
                !(start_order.spec_is_fok() || start_order.spec_is_aon()),
                buy == start_order.spec_is_buy(),
                volume == start_order.leaves_quantity,
                start_order.executed_quantity + start_order.leaves_quantity <= u64::MAX,
                self.symbol == start.symbol,
                changes_only(start.orders@, self.orders@, start.symbol),
                no_new_orders(start.orders@, self.orders@),
                stops_kept(start.orders@, self.orders@),
                only_executed(start.orders@, self.orders@),
                stop_sides_same(self.book, start.book),
                filled_from(*order, start_order),
                limit_volume(self.book) + (start_order.leaves_quantity - order.leaves_quantity)
                    == limit_volume(start.book),
                self.book.side(BookKind::Limit, buy) == start.book.side(BookKind::Limit, buy),
                match_progress(
                    side_items(start, buy),
                    side_items(start, !buy),
                    side_items(*self, buy),
                    side_items(*self, !buy),
                    buy,
                    start_order.price,
                    volume,
                    (volume - order.leaves_quantity) as u64,
                    last,
                ),
                order.leaves_quantity < volume ==> traded_at(self.book, start.book, last),
                order.leaves_quantity == volume ==> self.same_state(&start),
            ensures
                self.wf(),
                self.symbol == start.symbol,
                changes_only(start.orders@, self.orders@, start.symbol),
                no_new_orders(start.orders@, self.orders@),
                stops_kept(start.orders@, self.orders@),
                only_executed(start.orders@, self.orders@),
                stop_sides_same(self.book, start.book),
                filled_from(*order, start_order),
                limit_volume(self.book) + (start_order.leaves_quantity - order.leaves_quantity)
                    == limit_volume(start.book),
                order.leaves_quantity == 0 || !can_trade(self.book, *order) || front_blocks(
                    self.book,
                    self.orders@,
                    *order,
                ),
                self.book.side(BookKind::Limit, buy) == start.book.side(BookKind::Limit, buy),
                side_items(*self, buy) == side_items(start, buy),
                start_order.leaves_quantity - order.leaves_quantity == fills_within(
                    side_items(start, !buy),
                    buy,
                    start_order.price,
                    start_order.leaves_quantity,
                    0,
                ),
                side_items(*self, !buy) == rest_within(
                    side_items(start, !buy),
                    buy,
                    start_order.price,
                    start_order.leaves_quantity,
                    0,
                ),
                order.leaves_quantity < volume ==> traded_at(
                    self.book,
                    start.book,
                    last_price_within(side_items(start, !buy), buy, start_order.price, volume, 0, 0),
                ),
                order.leaves_quantity == volume ==> self.same_state(&start),
            decreases order.leaves_quantity,
        {
            let blocked = if order.leaves_quantity == 0 {
                true
            } else {
                let s = self.book.side_ref(BookKind::Limit, !buy);
                if s.len() == 0 {
                    true
                } else {
                    let lp = s[0].price;
                    let crossing = if buy {
                        order.price >= lp
                    } else {
                        order.price <= lp
                    };
                    if !crossing {
                        true
                    } else {
                        proof {
                            lemma_front_live(*self, !buy);
                        }
                        let id = s[0].order_list.list[0];
                        let front = self.orders.find(id).unwrap();
                        front.is_aon() && front.leaves_quantity > order.leaves_quantity
                    }
                }
            };
            if blocked {
                proof {
                    lemma_match_ends(*self, start_order, *order, side_items(start, buy), side_items(start, !buy), volume, last);
                }
                break;
            }
            let ghost prev = *self;
            let ghost prev_order = *order;
            self.trade_front(order, volume, Ghost(side_items(start, buy)), Ghost(side_items(start, !buy)), Ghost(last));
            proof {
                last = prev.book.side(BookKind::Limit, !buy)[0].price;
                lemma_changes_only_trans(start.orders@, prev.orders@, self.orders@, start.symbol);
                lemma_stops_kept_trans(start.orders@, prev.orders@, self.orders@);
                lemma_only_executed_trans(start.orders@, prev.orders@, self.orders@);
            }
        }
    }

    /// Matches a limit order: the same as `match_order`.
    pub fn match_limit(&mut self, order: &mut Order)
        requires
            old(self).wf(),
            old(order).executed_quantity + old(order).leaves_quantity <= u64::MAX,
        ensures
            final(self).wf(),
            matched(*old(self), *final(self), *old(order), *final(order)),
    {
        self.match_order(order);
    }

    /// Matches a market order: with no opposite level nothing happens;
    /// otherwise the order's price becomes the best opposite price moved by
    /// its slippage, and the order is matched at that price.
    pub fn match_market(&mut self, order: &mut Order)
        requires
            old(self).wf(),
            old(order).executed_quantity + old(order).leaves_quantity <= u64::MAX,
        ensures
            final(self).wf(),
            opposite(old(self).book, old(order).spec_is_buy()).len() == 0 ==> final(self).same_state(
                old(self),
            ) && *final(order) == *old(order),
            opposite(old(self).book, old(order).spec_is_buy()).len() > 0 ==> matched(
                *old(self),
                *final(self),
                Order { price: slipped_price(old(self).book, *old(order)), ..*old(order) },
                *final(order),
            ),
    {
        if order.is_buy() {
            if self.book.asks.len() == 0 {
                return;
            }
            order.price = self.book.asks[0].price.saturating_add(order.slippage);
        } else {
            if self.book.bids.len() == 0 {
                return;
            }
            order.price = self.book.bids[0].price.saturating_sub(order.slippage);
        }
        self.match_order(order);
    }
}

/// The chain between two sides walked from items `li` of `l`, the side of
/// the longest chain, and `si` of `s`: `s` fills towards `required` with
/// `available` filled so far; when it overfills, the sides swap roles and
/// what was filled becomes the new requirement. The result is the volume
/// at which both sides fill each other exactly, or zero.
pub open spec fn chain_cross(
    l: Seq<(u64, bool, u64, u64)>,
    s: Seq<(u64, bool, u64, u64)>,
    li: int,
    si: int,
    required: u64,
    available: u64,
) -> u64
    decreases l.len() + s.len() - li - si,
{
    if 0 <= li < l.len() && 0 <= si < s.len() && available < required {
        let need = (required - available) as u64;
        let q = fill_of(s[si], need);
        if q == need {
            required
        } else if q > need {
            if available + q > u64::MAX {
                0
            } else {
                chain_cross(s, l, si, li + 1, (available + q) as u64, required)
            }
        } else {
            chain_cross(l, s, li, si + 1, required, (available + q) as u64)
        }
    } else {
        0
    }
}

/// The chain between the bid items `fb` and the ask items `fa`: the
/// longest chain starts at the larger all-or-none front order, or at the
/// ask front when only it is all-or-none, and at the bid front otherwise.
pub open spec fn chain_cross_start(fb: Seq<(u64, bool, u64, u64)>, fa: Seq<(u64, bool, u64, u64)>) -> u64 {
    if fb.len() == 0 || fa.len() == 0 {
        0
    } else if (fb[0].1 && fa[0].1 && fa[0].0 > fb[0].0) || (!fb[0].1 && fa[0].1) {
        chain_cross(fa, fb, 0, 0, fa[0].0, 0)
    } else {
        chain_cross(fb, fa, 0, 0, fb[0].0, 0)
    }
}

/// A chain is never shorter than the requirement it started from.
pub proof fn lemma_chain_cross_bound(
    l: Seq<(u64, bool, u64, u64)>,
    s: Seq<(u64, bool, u64, u64)>,
    li: int,
    si: int,
    required: u64,
    available: u64,
)
    ensures
        chain_cross(l, s, li, si, required, available) == 0 || chain_cross(
            l,
            s,
            li,
            si,
            required,
            available,
        ) >= required,
    decreases l.len() + s.len() - li - si,
{
    if 0 <= li < l.len() && 0 <= si < s.len() && available < required {
        let need = (required - available) as u64;
        let q = fill_of(s[si], need);
        if q == need {
        } else if q > need {
            if available + q <= u64::MAX {
                lemma_chain_cross_bound(s, l, si, li + 1, (available + q) as u64, required);
            }
        } else {
            lemma_chain_cross_bound(l, s, li, si + 1, required, (available + q) as u64);
        }
    }
}

/// A chain covers every all-or-none front order whole.
pub proof fn lemma_chain_covers_fronts(fb: Seq<(u64, bool, u64, u64)>, fa: Seq<(u64, bool, u64, u64)>)
    requires
        chain_cross_start(fb, fa) != 0,
    ensures
        fb.len() > 0,
        fa.len() > 0,
        fb[0].1 ==> chain_cross_start(fb, fa) >= fb[0].0,
        fa[0].1 ==> chain_cross_start(fb, fa) >= fa[0].0,
{
    if (fb[0].1 && fa[0].1 && fa[0].0 > fb[0].0) || (!fb[0].1 && fa[0].1) {
        lemma_chain_cross_bound(fa, fb, 0, 0, fa[0].0, 0);
    } else {
        lemma_chain_cross_bound(fb, fa, 0, 0, fb[0].0, 0);
    }
}

/// The total remaining quantity of the first `n` items.
pub open spec fn prefix_sum(f: Seq<(u64, bool, u64, u64)>, n: int) -> nat
    decreases n,
{
    if n <= 0 {
        0
    } else {
        prefix_sum(f, n - 1) + f[n - 1].0 as nat
    }
}

/// Executing towards `c` takes whole items while they fit: when the first
/// `n` items add up to `c`, or fall short of it by exactly what item `n`
/// fills, the execution fills `c`.
proof fn lemma_fills_prefix(f: Seq<(u64, bool, u64, u64)>, c: u64, k: int, n: int)
    requires
        0 <= k <= n <= f.len(),
        prefix_sum(f, n) <= c,
        prefix_sum(f, n) == c || (n < f.len() && fill_of(f[n], (c - prefix_sum(f, n)) as u64) == c
            - prefix_sum(f, n)),
    ensures
        fills(f.skip(k), c, prefix_sum(f, k) as u64) == c,
    decreases n - k,
{
    lemma_prefix_sum_mono(f, k, n);
    let done = prefix_sum(f, k) as u64;
    let t = f.skip(k);
    if done >= c {
    } else if k < n {
        lemma_prefix_sum_mono(f, k + 1, n);
        assert(t[0] == f[k]);
        assert(fill_of(t[0], (c - done) as u64) == f[k].0);
        assert(t.drop_first() =~= f.skip(k + 1));
        lemma_fills_prefix(f, c, k + 1, n);
        assert(fills(t, c, done) == fills(t.drop_first(), c, (done + f[k].0) as u64));
    } else {
        assert(t[0] == f[k]);
        assert(fills(t.drop_first(), c, c) == c);
        assert(fills(t, c, done) == fills(t.drop_first(), c, c));
    }
}

proof fn lemma_prefix_sum_mono(f: Seq<(u64, bool, u64, u64)>, a: int, b: int)
    requires
        0 <= a <= b,
    ensures
        prefix_sum(f, a) <= prefix_sum(f, b),
    decreases b - a,
{
    if a < b {
        lemma_prefix_sum_mono(f, a, b - 1);
    }
}

/// While a cross-level chain is walked, the consumed items of each side
/// are whole and add up to what that side has filled; so a chain that is
/// found fills exactly on both sides.
proof fn lemma_chain_cross_fills(
    l: Seq<(u64, bool, u64, u64)>,
    s: Seq<(u64, bool, u64, u64)>,
    li: int,
    si: int,
    required: u64,
    available: u64,
)
    requires
        0 <= li,
        0 <= si <= s.len(),
        li < l.len() ==> prefix_sum(l, li + 1) == required,
        prefix_sum(s, si) == available,
        chain_cross(l, s, li, si, required, available) != 0,
    ensures
        fills(l, chain_cross(l, s, li, si, required, available), 0) == chain_cross(
            l,
            s,
            li,
            si,
            required,
            available,
        ),
        fills(s, chain_cross(l, s, li, si, required, available), 0) == chain_cross(
            l,
            s,
            li,
            si,
            required,
            available,
        ),
    decreases l.len() + s.len() - li - si,
{
    let need = (required - available) as u64;
    let q = fill_of(s[si], need);
    assert(l.skip(0) =~= l);
    assert(s.skip(0) =~= s);
    if q == need {
        lemma_fills_prefix(l, required, 0, li + 1);
        lemma_fills_prefix(s, required, 0, si);
    } else if q > need {
        assert(q == s[si].0);
        lemma_chain_cross_fills(s, l, si, li + 1, (available + q) as u64, required);
    } else {
        assert(q == s[si].0);
        lemma_chain_cross_fills(l, s, li, si + 1, required, (available + q) as u64);
    }
}

/// A chain found between the bid items and the ask items is filled
/// exactly when it is executed on either side.
pub proof fn lemma_cross_chain_fills_both_sides(fb: Seq<(u64, bool, u64, u64)>, fa: Seq<(u64, bool, u64, u64)>)
    requires
        chain_cross_start(fb, fa) != 0,
    ensures
        fills(fb, chain_cross_start(fb, fa), 0) == chain_cross_start(fb, fa),
        fills(fa, chain_cross_start(fb, fa), 0) == chain_cross_start(fb, fa),
{
    assert(prefix_sum(fb, 0) == 0);
    assert(prefix_sum(fa, 0) == 0);
    assert(prefix_sum(fa, 1) == fa[0].0);
    assert(prefix_sum(fb, 1) == fb[0].0);
    if (fb[0].1 && fa[0].1 && fa[0].0 > fb[0].0) || (!fb[0].1 && fa[0].1) {
        lemma_chain_cross_fills(fa, fb, 0, 0, fa[0].0, 0);
    } else {
        lemma_chain_cross_fills(fb, fa, 0, 0, fb[0].0, 0);
    }
}

/// `chain_cross_start` over vectors of items.
fn chain_cross_exec(fb: &Vec<(u64, bool, u64, u64)>, fa: &Vec<(u64, bool, u64, u64)>) -> (r: u64)
    ensures
        r == chain_cross_start(fb@, fa@),
{
    if fb.len() == 0 || fa.len() == 0 {
        return 0;
    }
    let mut longest_bid: bool = true;
    let mut required: u64 = fb[0].0;
    if (fb[0].1 && fa[0].1 && fa[0].0 > fb[0].0) || (!fb[0].1 && fa[0].1) {
        longest_bid = false;
        required = fa[0].0;
    }
    let mut available: u64 = 0;
    let mut li: usize = 0;
    let mut si: usize = 0;
    loop
        invariant
            li <= (if longest_bid {
                fb@.len()
            } else {
                fa@.len()
            }),
            si <= (if longest_bid {
                fa@.len()
            } else {
                fb@.len()
            }),
            chain_cross_start(fb@, fa@) == (if longest_bid {
                chain_cross(fb@, fa@, li as int, si as int, required, available)
            } else {
                chain_cross(fa@, fb@, li as int, si as int, required, available)
            }),
        decreases fb@.len() + fa@.len() - li - si,
    {
        let (llen, slen) = if longest_bid {
            (fb.len(), fa.len())
        } else {
            (fa.len(), fb.len())
        };
        if li >= llen || si >= slen || available >= required {
            return 0;
        }
        let item = if longest_bid {
            fa[si]
        } else {
            fb[si]
        };
        let need = required - available;
        let q = if item.1 {
            item.0
        } else if item.0 < need {
            item.0
        } else {
            need
        };
        if q == need {
            return required;
        }
        if q > need {
            if available > u64::MAX - q {
                return 0;
            }
            let next_required = available + q;
            let next_available = required;
            let next_li = si;
            let next_si = li + 1;
            longest_bid = !longest_bid;
            required = next_required;
            available = next_available;
            li = next_li;
            si = next_si;
        } else {
            available = available + q;
            si = si + 1;
        }
    }
}

impl ExecutionContext {
    /// The volume at which the bid side and the ask side fill each other
    /// exactly, walking both from their best levels; zero when they cannot.
    /// A non-zero chain covers every all-or-none front order whole.
    pub fn calculate_matching_chain_cross_levels(&self) -> (r: u64)
        requires
            self.wf(),
        ensures
            r == chain_cross_start(
                flat_side(self.book.bids@, self.orders@),
                flat_side(self.book.asks@, self.orders@),
            ),
    {
        let fb = self.flatten_side(true);
        let fa = self.flatten_side(false);
        chain_cross_exec(&fb, &fa)
    }
}

} // verus!
