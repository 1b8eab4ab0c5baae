//! Activation of stop orders whose stop price the market reached, and the
//! trailing of trailing stop orders behind the market.
use vstd::prelude::*;

use crate::consistency::{changes_only, lemma_changes_only_trans, lemma_queued_is_live, level_ok, live, order_fits, queue_sum, side_ok};
use crate::engine::{
    lemma_book_ok_prices, lemma_same_sides, limit_sides_same, no_new_orders, stop_sides_same,
    ExecutionContext,
};
use crate::level::Level;
use crate::levels::{side_can_add, side_reduced, side_wf, level_reduced};
use crate::matching::{chain_cross_start, flat_side, front_order, lemma_chain_covers_fronts, lemma_flat_side_first};
use crate::operations::{market_matched, rested};
use crate::engine::{lemma_insert_limit_keeps_stops, lemma_stops_kept_refl, lemma_stops_kept_trans, reduced_by, stops_kept};
use crate::engine::{lemma_only_executed_refl, lemma_only_executed_trans, lemma_reduce_only_executes, only_executed};
use crate::matching::{matched, rest_of, traded_at};
use crate::order::{ErrorCode, Order, OrderType, TimeInForce};
use crate::order_book::{kind_of, side_asc, BookKind, OrderBook};
use crate::volumes::{limit_volume, side_volume, stop_volume};

verus! {

broadcast use vstd::std_specs::hash::group_hash_axioms;

/// The market price reached the best level of stop side `(kind, buy)`:
/// a buy stop level at or below `stop_price`, a sell stop level at or
/// above it.
pub open spec fn stop_triggered(b: OrderBook, kind: BookKind, buy: bool, stop_price: u64) -> bool {
    &&& b.side(kind, buy).len() > 0
    &&& if side_asc(kind, buy) {
        stop_price >= b.side(kind, buy)[0].price
    } else {
        stop_price <= b.side(kind, buy)[0].price
    }
}

/// A stop order turned into a market order.
pub open spec fn as_market(o: Order) -> Order {
    Order {
        order_type: OrderType::Market,
        price: 0,
        stop_price: 0,
        time_in_force: if o.spec_is_fok() {
            TimeInForce::FOK
        } else {
            TimeInForce::IOC
        },
        ..o
    }
}

/// A stop-limit order turned into a limit order.
pub open spec fn as_limit(o: Order) -> Order {
    Order { order_type: OrderType::Limit, stop_price: 0, ..o }
}

/// Reducing a side at one price leaves the levels at any other price as
/// they were.
pub proof fn lemma_can_add_after_reduce(
    new: Seq<Level>,
    old: Seq<Level>,
    key: u64,
    id: u64,
    quantity: u64,
    hidden: u64,
    visible: u64,
    unlink: bool,
    r: (bool, Level),
    key2: u64,
    o: Order,
)
    requires
        side_reduced(new, old, key, id, quantity, hidden, visible, unlink, r),
        key2 != key,
        side_can_add(old, key2, o),
    ensures
        side_can_add(new, key2, o),
{
    let i = choose|i: int|
        0 <= i < old.len() && (#[trigger] old[i]).price == key && level_reduced(
            r.1,
            old[i],
            id,
            quantity,
            hidden,
            visible,
            unlink,
        ) && (r.0 <==> r.1.total_volume == 0) && (r.0 ==> new == old.remove(i)) && (!r.0 ==> new
            == old.update(i, new[i]) && level_reduced(
            new[i],
            old[i],
            id,
            quantity,
            hidden,
            visible,
            unlink,
        ));
    assert forall|j: int| 0 <= j < new.len() && (#[trigger] new[j]).price == key2 implies new[j].can_add(o) by {
        if r.0 {
            if j < i {
                assert(new[j] == old[j]);
            } else {
                assert(new[j] == old[j + 1]);
            }
        } else {
            assert(j != i);
            assert(new[j] == old[j]);
        }
    }
}

impl ExecutionContext {
    /// Activates stop order `id`: takes it out of the book and the orders,
    /// turns it into a market order (fill-or-kill when it was, else
    /// immediate-or-cancel) and matches it. Returns `true`.
    pub fn activate_stop_order(&mut self, id: u64) -> (r: bool)
        requires
            old(self).wf(),
            old(self).holds(id),
            old(self).orders@[id].order_type == OrderType::Stop || old(self).orders@[id].order_type
                == OrderType::TrailingStop,
        ensures
            final(self).wf(),
            r,
            final(self).symbol == old(self).symbol,
            changes_only(old(self).orders@, final(self).orders@, old(self).symbol),
            no_new_orders(old(self).orders@, final(self).orders@),
            !final(self).orders@.contains_key(id),
            stops_kept(old(self).orders@.remove(id), final(self).orders@),
            only_executed(old(self).orders@, final(self).orders@),
            stop_volume(final(self).book) + old(self).orders@[id].leaves_quantity == stop_volume(
                old(self).book,
            ),
            exists|mid: ExecutionContext, o1: Order|
                #![trigger market_matched(mid, *final(self), as_market(old(self).orders@[id]), o1, true)]
                reduced_by(*old(self), mid, id, old(self).orders@[id].leaves_quantity, false)
                    && market_matched(mid, *final(self), as_market(old(self).orders@[id]), o1, true),
    {
        let o = self.orders.find(id).unwrap();
        let ghost start = *self;
        self.reduce_resting(id, o.leaves_quantity, false);
        let ghost mid = *self;
        let mut m = o;
        m.order_type = OrderType::Market;
        m.price = 0;
        m.stop_price = 0;
        m.time_in_force = if o.is_fok() {
            TimeInForce::FOK
        } else {
            TimeInForce::IOC
        };
        proof {
            assert(live(id, o));
            assert(m == as_market(o));
        }
        self.match_market(&mut m);
        proof {
            lemma_stop_volume_of_side(start.book, mid.book, kind_of(o), o.spec_is_buy());
            lemma_changes_only_trans(start.orders@, mid.orders@, self.orders@, start.symbol);
            assert(market_matched(mid, *self, as_market(o), m, true));
            assert(mid.orders@ == start.orders@.remove(id));
            lemma_stops_kept_refl(mid.orders@);
            assert(stops_kept(mid.orders@, self.orders@));
            lemma_only_executed_refl(mid.orders@);
            lemma_reduce_only_executes(start, mid, id, o.leaves_quantity, false);
            assert(only_executed(mid.orders@, self.orders@));
            lemma_only_executed_trans(start.orders@, mid.orders@, self.orders@);
        }
        true
    }
}

/// Changing one stop side changes the stop volume by that side's change
/// and leaves the limit sides.
pub proof fn lemma_stop_volume_of_side(a: OrderBook, b: OrderBook, kind: BookKind, buy: bool)
    requires
        kind != BookKind::Limit,
        b.same_except(&a, kind, buy),
    ensures
        stop_volume(b) + side_volume(a.side(kind, buy)) == stop_volume(a) + side_volume(
            b.side(kind, buy),
        ),
        limit_sides_same(b, a),
{
    assert(b.side(BookKind::Limit, true) == a.side(BookKind::Limit, true));
    assert(b.side(BookKind::Limit, false) == a.side(BookKind::Limit, false));
    assert(b.side(BookKind::Stop, true) == a.side(BookKind::Stop, true) || (kind == BookKind::Stop
        && buy));
    assert(b.side(BookKind::Stop, false) == a.side(BookKind::Stop, false) || (kind == BookKind::Stop
        && !buy));
    assert(b.side(BookKind::TrailingStop, true) == a.side(BookKind::TrailingStop, true) || (kind
        == BookKind::TrailingStop && buy));
    assert(b.side(BookKind::TrailingStop, false) == a.side(BookKind::TrailingStop, false) || (kind
        == BookKind::TrailingStop && !buy));
}

/// Putting back order `id` with some of its remaining quantity executed
/// only executes.
proof fn lemma_readd_only_executes(m0: Map<u64, Order>, m1: Map<u64, Order>, m2: Map<u64, Order>, id: u64, o: Order)
    requires
        only_executed(m0, m1),
        m0.contains_key(id),
        o.leaves_quantity <= m0[id].leaves_quantity,
        o.leaves_quantity + o.executed_quantity == m0[id].leaves_quantity + m0[id].executed_quantity,
        m2 == m1 || m2 == m1.insert(id, o),
    ensures
        only_executed(m0, m2),
{
    assert forall|x: u64| #[trigger] m2.contains_key(x) implies m0.contains_key(x) && m2[x].leaves_quantity
        <= m0[x].leaves_quantity && m2[x].leaves_quantity + m2[x].executed_quantity
        == m0[x].leaves_quantity + m0[x].executed_quantity by {
        if x != id || m2 == m1 {
            assert(m1.contains_key(x));
        }
    }
}

/// The orders `ids` from position `k` on are as in `m0` and are no limit
/// orders, and those before `k` are gone or limit orders.
pub open spec fn activated_upto(ids: Seq<u64>, m0: Map<u64, Order>, m: Map<u64, Order>, k: int) -> bool {
    &&& forall|j: int|
        #![trigger ids[j]]
        k <= j < ids.len() ==> m.contains_key(ids[j]) && m0.contains_key(ids[j]) && m[ids[j]]
            == m0[ids[j]] && m0[ids[j]].order_type != OrderType::Limit
    &&& forall|j: int|
        #![trigger ids[j]]
        0 <= j < k ==> !m.contains_key(ids[j]) || m[ids[j]].order_type == OrderType::Limit
}

/// `c2` is what activating stop order `id` of `c1` gives: it leaves the
/// book and the orders, and a stop or trailing stop order is matched as a
/// market order, a stop-limit or trailing stop-limit order as a limit
/// order whose remainder rests.
pub open spec fn activated(c1: ExecutionContext, c2: ExecutionContext, id: u64) -> bool {
    let o = c1.orders@[id];
    if o.order_type == OrderType::Stop || o.order_type == OrderType::TrailingStop {
        exists|mid: ExecutionContext, o1: Order|
            #![trigger market_matched(mid, c2, as_market(o), o1, true)]
            reduced_by(c1, mid, id, o.leaves_quantity, false) && market_matched(mid, c2, as_market(o), o1, true)
    } else {
        exists|mid: ExecutionContext, c3: ExecutionContext, o1: Order, r: Result<(), ErrorCode>|
            #![trigger rested(c3, c2, o1, r), matched(mid, c3, as_limit(o), o1)]
            reduced_by(c1, mid, id, o.leaves_quantity, false) && matched(mid, c3, as_limit(o), o1) && rested(
                c3,
                c2,
                o1,
                r,
            )
    }
}

/// The engines `cs` lead from `c0` to `c` by activating the orders `ids`
/// one after the other, in their order.
pub open spec fn activation_trace(cs: Seq<ExecutionContext>, c0: ExecutionContext, c: ExecutionContext, ids: Seq<u64>) -> bool {
    &&& cs.len() == ids.len() + 1
    &&& cs[0] == c0
    &&& cs[ids.len() as int] == c
    &&& forall|j: int| 0 <= j < ids.len() ==> #[trigger] activated(cs[j], cs[j + 1], ids[j])
}

/// `c2` is `c1` after the best level of stop side `(kind, buy)` was
/// activated, order by order in queue order, because it was triggered at
/// `price`; `c2` is `c1` when it was not.
pub open spec fn level_activated(c1: ExecutionContext, c2: ExecutionContext, kind: BookKind, buy: bool, price: u64) -> bool {
    if stop_triggered(c1.book, kind, buy, price) {
        exists|cs: Seq<ExecutionContext>| #[trigger] activation_trace(cs, c1, c2, c1.book.side(kind, buy)[0].queue())
    } else {
        c2.same_state(&c1)
    }
}

/// The market price stop orders of side `buy` are triggered at: the
/// market ask for buy stops, the market bid for sell stops.
pub open spec fn trigger_price(b: OrderBook, buy: bool) -> u64 {
    if buy {
        b.market_ask()
    } else {
        b.market_bid()
    }
}

/// A plain or trailing stop level of side `buy` is triggered at the market.
pub open spec fn side_triggered(b: OrderBook, buy: bool) -> bool {
    stop_triggered(b, BookKind::Stop, buy, trigger_price(b, buy)) || stop_triggered(
        b,
        BookKind::TrailingStop,
        buy,
        trigger_price(b, buy),
    )
}

/// `c2` is `c1` after the stop orders of side `buy` had their turn in a
/// round: the best plain stop level when it is triggered at the market
/// price, or else the best trailing stop level when that one is.
pub open spec fn side_activated(c1: ExecutionContext, c2: ExecutionContext, buy: bool) -> bool {
    let price = trigger_price(c1.book, buy);
    if stop_triggered(c1.book, BookKind::Stop, buy, price) {
        level_activated(c1, c2, BookKind::Stop, buy, price)
    } else {
        level_activated(c1, c2, BookKind::TrailingStop, buy, price)
    }
}

/// `c2` is `c1` after one round of stop activation: buy stops, then the
/// trailing buy stops trail, then sell stops, then the trailing sell stops
/// trail. `activated` is whether a level was triggered in the round.
#[verifier::opaque]
pub open spec fn stop_round(c1: ExecutionContext, c2: ExecutionContext, activated: bool) -> bool {
    exists|s1: ExecutionContext, s2: ExecutionContext, s3: ExecutionContext|
        #![trigger side_activated(c1, s1, true), trailing_recalculated(s1, s2, true), side_activated(s2, s3, false), trailing_recalculated(s3, c2, false)]
        side_activated(c1, s1, true) && trailing_recalculated(s1, s2, true) && side_activated(s2, s3, false)
            && trailing_recalculated(s3, c2, false) && activated == (side_triggered(c1.book, true)
            || side_triggered(s2.book, false))
}

/// After a round that triggered nothing, a trailing stop side that the
/// round's trailing left as it was is not triggered at the market.
pub open spec fn quiet_exit(c1: ExecutionContext, c2: ExecutionContext) -> bool {
    &&& c2.book.side(BookKind::TrailingStop, true) == c1.book.side(BookKind::TrailingStop, true) ==> !stop_triggered(
        c2.book,
        BookKind::TrailingStop,
        true,
        c2.book.market_ask(),
    )
    &&& c2.book.side(BookKind::TrailingStop, false) == c1.book.side(BookKind::TrailingStop, false) ==> !stop_triggered(
        c2.book,
        BookKind::TrailingStop,
        false,
        c2.book.market_bid(),
    )
}

/// The engines `cs` lead from `c0` to `c` by rounds of stop activation:
/// rounds that triggered a level, then one that triggered none.
#[verifier::opaque]
pub open spec fn stop_rounds(cs: Seq<ExecutionContext>, c0: ExecutionContext, c: ExecutionContext) -> bool {
    &&& cs.len() >= 2
    &&& cs[0] == c0
    &&& cs.last() == c
    &&& forall|j: int| 0 <= j < cs.len() - 2 ==> #[trigger] stop_round(cs[j], cs[j + 1], true)
    &&& stop_round(cs[cs.len() - 2], c, false)
    &&& quiet_exit(cs[cs.len() - 2], c)
}

/// A single round that triggered nothing is a run of rounds.
proof fn lemma_rounds_one(c1: ExecutionContext, c2: ExecutionContext)
    requires
        stop_round(c1, c2, false),
        quiet_exit(c1, c2),
    ensures
        stop_rounds(seq![c1, c2], c1, c2),
        seq![c1, c2].len() == 2,
{
    reveal(stop_rounds);
    let t = seq![c1, c2];
    assert(t[0] == c1 && t[1] == c2);
}

/// A round that triggered a level, followed by a run of rounds, is a run
/// of rounds.
proof fn lemma_rounds_prepend(rs: Seq<ExecutionContext>, c0: ExecutionContext, c1: ExecutionContext, c: ExecutionContext)
    requires
        stop_round(c0, c1, true),
        stop_rounds(rs, c1, c),
    ensures
        stop_rounds(seq![c0] + rs, c0, c),
        (seq![c0] + rs).len() > 2,
{
    reveal(stop_rounds);
    let t = seq![c0] + rs;
    assert(t[0] == c0 && t[1] == rs[0]);
    assert(t.last() == rs.last());
    assert(t[t.len() - 2] == rs[rs.len() - 2]);
    assert forall|j: int| 0 <= j < t.len() - 2 implies #[trigger] stop_round(t[j], t[j + 1], true) by {
        if j > 0 {
            assert(t[j] == rs[j - 1] && t[j + 1] == rs[j]);
            assert(stop_round(rs[j - 1], rs[j - 1 + 1], true));
        } else {
            assert(t[j] == c0 && t[j + 1] == c1);
        }
    }
}

/// One more activation extends a trace.
proof fn lemma_trace_push(
    cs: Seq<ExecutionContext>,
    c0: ExecutionContext,
    c1: ExecutionContext,
    c2: ExecutionContext,
    ids: Seq<u64>,
    k: int,
)
    requires
        0 <= k < ids.len(),
        activation_trace(cs, c0, c1, ids.take(k)),
        activated(c1, c2, ids[k]),
    ensures
        activation_trace(cs.push(c2), c0, c2, ids.take(k + 1)),
{
    let t = ids.take(k + 1);
    let cs2 = cs.push(c2);
    assert forall|j: int| 0 <= j < t.len() implies #[trigger] activated(cs2[j], cs2[j + 1], t[j]) by {
        if j < k {
            assert(t[j] == ids.take(k)[j]);
            assert(cs2[j] == cs[j]);
            assert(cs2[j + 1] == cs[j + 1]);
            assert(activated(cs[j], cs[j + 1], ids.take(k)[j]));
        } else {
            assert(cs2[j] == c1);
        }
    }
}

/// Activating order `ids[k]` moves the activation on by one order.
proof fn lemma_activated_one(ids: Seq<u64>, m0: Map<u64, Order>, m1: Map<u64, Order>, m2: Map<u64, Order>, k: int)
    requires
        ids.no_duplicates(),
        0 <= k < ids.len(),
        activated_upto(ids, m0, m1, k),
        stops_kept(m1.remove(ids[k]), m2),
        !m2.contains_key(ids[k]) || m2[ids[k]].order_type == OrderType::Limit,
    ensures
        activated_upto(ids, m0, m2, k + 1),
{
    let m = m1.remove(ids[k]);
    assert forall|j: int| #![trigger ids[j]] k + 1 <= j < ids.len() implies m2.contains_key(ids[j]) && m0.contains_key(
        ids[j],
    ) && m2[ids[j]] == m0[ids[j]] && m0[ids[j]].order_type != OrderType::Limit by {
        assert(m1.contains_key(ids[j]));
        assert(ids[j] != ids[k]);
        assert(m.contains_key(ids[j]));
    }
    assert forall|j: int| #![trigger ids[j]] 0 <= j < k + 1 implies !m2.contains_key(ids[j]) || m2[ids[j]].order_type
        == OrderType::Limit by {
        if j < k && m2.contains_key(ids[j]) && m2[ids[j]].order_type != OrderType::Limit {
            assert(m.contains_key(ids[j]));
            assert(m1.contains_key(ids[j]));
        }
    }
}

impl ExecutionContext {
    /// Activates stop-limit order `id`: takes it out of the stop book,
    /// turns it into a limit order and matches it; what remains of it rests
    /// in the book unless it is immediate-or-cancel or fill-or-kill, and
    /// leaves the orders otherwise. Returns `true`.
    pub fn activate_stop_limit_order(&mut self, id: u64) -> (r: bool)
        requires
            old(self).wf(),
            old(self).holds(id),
            old(self).orders@[id].order_type == OrderType::StopLimit || old(self).orders@[id].order_type
                == OrderType::TrailingStopLimit,
        ensures
            final(self).wf(),
            r,
            final(self).symbol == old(self).symbol,
            changes_only(old(self).orders@, final(self).orders@, old(self).symbol),
            no_new_orders(old(self).orders@, final(self).orders@),
            final(self).orders@.contains_key(id) ==> final(self).orders@[id].order_type
                == OrderType::Limit && final(self).orders@[id].stop_price == 0,
            stops_kept(old(self).orders@.remove(id), final(self).orders@),
            only_executed(old(self).orders@, final(self).orders@),
            stop_volume(final(self).book) + old(self).orders@[id].leaves_quantity == stop_volume(
                old(self).book,
            ),
            exists|mid: ExecutionContext, c1: ExecutionContext, o1: Order, r: Result<(), ErrorCode>|
                #![trigger rested(c1, *final(self), o1, r), matched(mid, c1, as_limit(old(self).orders@[id]), o1)]
                reduced_by(*old(self), mid, id, old(self).orders@[id].leaves_quantity, false)
                    && matched(mid, c1, as_limit(old(self).orders@[id]), o1) && rested(
                    c1,
                    *final(self),
                    o1,
                    r,
                ),
    {
        let o = self.orders.find(id).unwrap();
        let ghost start = *self;
        self.reduce_resting(id, o.leaves_quantity, false);
        let ghost mid = *self;
        let mut l = o;
        l.order_type = OrderType::Limit;
        l.stop_price = 0;
        proof {
            assert(live(id, o));
            lemma_stop_volume_of_side(start.book, mid.book, kind_of(o), o.spec_is_buy());
            assert(l == as_limit(o));
        }
        self.match_limit(&mut l);
        let ghost matched_state = *self;
        proof {
            lemma_changes_only_trans(start.orders@, mid.orders@, self.orders@, start.symbol);
            assert(!self.orders@.contains_key(id));
            assert(mid.orders@ == start.orders@.remove(id));
            lemma_stops_kept_refl(mid.orders@);
            lemma_reduce_only_executes(start, mid, id, o.leaves_quantity, false);
            lemma_only_executed_trans(start.orders@, mid.orders@, self.orders@);
        }
        if l.leaves_quantity > 0 && !l.is_ioc() && !l.is_fok() {
            let r = self.insert_resting(l);
            proof {
                assert(rested(matched_state, *self, l, r));
                if r is Ok {
                    lemma_insert_limit_keeps_stops(matched_state.orders@, id, l);
                } else {
                    lemma_stops_kept_refl(self.orders@);
                }
                lemma_stops_kept_trans(mid.orders@, matched_state.orders@, self.orders@);
                lemma_changes_only_trans(start.orders@, matched_state.orders@, self.orders@, start.symbol);
                lemma_readd_only_executes(start.orders@, matched_state.orders@, self.orders@, id, l);
                assert(stop_sides_same(self.book, matched_state.book)) by {
                    if !self.same_state(&matched_state) {
                        crate::engine::lemma_limit_change(self.book, matched_state.book, l.spec_is_buy());
                    }
                }
            }
        } else {
            proof {
                assert(rested(matched_state, *self, l, Ok(())));
            }
        }
        true
    }

    /// Activates every order of the best level of stop side `(kind, buy)`
    /// when `stop_price` reached it, oldest first: stop orders as market
    /// orders, stop-limit orders as limit orders: the level's whole volume
    /// leaves the stop sides, and each of its orders is gone or has become
    /// a limit order. When triggered, the engine goes through one state per
    /// queued order, in queue order, each reached from the one before by
    /// that order's activation (`activation_trace`). Returns whether the
    /// level was triggered; nothing changes when it was not.
    pub fn activate_individual_stop_orders(&mut self, kind: BookKind, buy: bool, stop_price: u64) -> (r:
        bool)
        requires
            old(self).wf(),
            kind != BookKind::Limit,
        ensures
            final(self).wf(),
            final(self).symbol == old(self).symbol,
            changes_only(old(self).orders@, final(self).orders@, old(self).symbol),
            no_new_orders(old(self).orders@, final(self).orders@),
            only_executed(old(self).orders@, final(self).orders@),
            r == stop_triggered(old(self).book, kind, buy, stop_price),
            r ==> stop_volume(final(self).book) < stop_volume(old(self).book),
            r ==> stop_volume(final(self).book) + old(self).book.side(kind, buy)[0].total_volume
                == stop_volume(old(self).book),
            r ==> activated_upto(
                old(self).book.side(kind, buy)[0].queue(),
                old(self).orders@,
                final(self).orders@,
                old(self).book.side(kind, buy)[0].queue().len() as int,
            ),
            r ==> exists|cs: Seq<ExecutionContext>|
                #[trigger] activation_trace(cs, *old(self), *final(self), old(self).book.side(kind, buy)[0].queue()),
            !r ==> *final(self) == *old(self),
            level_activated(*old(self), *final(self), kind, buy, stop_price),
    {
        let s = self.book.side_ref(kind, buy);
        if s.len() == 0 {
            return false;
        }
        let lp = s[0].price;
        let arbitrage = if s[0].is_bid() {
            stop_price <= lp
        } else {
            stop_price >= lp
        };
        if !arbitrage {
            return false;
        }
        let ids = s[0].order_list.list.clone();
        let ghost start = *self;
        proof {
            assert(side_ok(start.book.side(kind, buy), kind, buy, start.symbol, start.orders@));
            assert(level_ok(start.book.side(kind, buy)[0], kind, buy, start.symbol, start.orders@));
            assert(activated_upto(ids@, start.orders@, self.orders@, 0)) by {
                assert forall|j: int| #![trigger ids@[j]] 0 <= j < ids@.len() implies self.orders@.contains_key(ids@[j])
                    && start.orders@.contains_key(ids@[j]) && self.orders@[ids@[j]] == start.orders@[ids@[j]]
                    && start.orders@[ids@[j]].order_type != OrderType::Limit by {
                    assert(order_fits(
                        start.orders@,
                        start.book.side(kind, buy)[0].queue()[j],
                        kind,
                        buy,
                        start.symbol,
                        start.book.side(kind, buy)[0].price,
                    ));
                }
            }
            assert(ids@.take(0) =~= Seq::<u64>::empty());
        }
        let mut result = false;
        let mut k: usize = 0;
        let ghost mut cs: Seq<ExecutionContext> = seq![start];
        proof {
            assert(activation_trace(cs, start, *self, ids@.take(0)));
        }
        while k < ids.len()
            invariant
                self.wf(),
                kind != BookKind::Limit,
                self.symbol == start.symbol,
                changes_only(start.orders@, self.orders@, start.symbol),
                no_new_orders(start.orders@, self.orders@),
                only_executed(start.orders@, self.orders@),
                k <= ids@.len(),
                ids@ == start.book.side(kind, buy)[0].queue(),
                ids@.len() > 0,
                k > 0 ==> result,
                result ==> stop_volume(self.book) < stop_volume(start.book),
                !result ==> self.same_state(&start),
                start.wf(),
                start.book.side(kind, buy).len() > 0,
                level_ok(start.book.side(kind, buy)[0], kind, buy, start.symbol, start.orders@),
                activated_upto(ids@, start.orders@, self.orders@, k as int),
                stop_volume(self.book) + queue_sum(ids@.take(k as int), start.orders@, 0) == stop_volume(
                    start.book,
                ),
                activation_trace(cs, start, *self, ids@.take(k as int)),
            decreases ids@.len() - k,
        {
            let id = ids[k];
            proof {
                if k == 0 {
                    lemma_queued_is_live(start.book, start.symbol, start.orders@, kind, buy, 0, 0);
                }
                assert(order_fits(
                    start.orders@,
                    start.book.side(kind, buy)[0].queue()[k as int],
                    kind,
                    buy,
                    start.symbol,
                    start.book.side(kind, buy)[0].price,
                ));
                assert(ids@[k as int] == id);
                assert(self.orders@[id] == start.orders@[id]);
                assert(ids@.take(k + 1).drop_last() =~= ids@.take(k as int));
            }
            match self.orders.find(id) {
                Some(o) => {
                    if o.symbol_id == self.symbol {
                        let ghost before = *self;
                        if o.order_type == OrderType::Stop || o.order_type == OrderType::TrailingStop {
                            self.activate_stop_order(id);
                            result = true;
                        } else if o.order_type == OrderType::StopLimit || o.order_type
                            == OrderType::TrailingStopLimit {
                            self.activate_stop_limit_order(id);
                            result = true;
                        }
                        proof {
                            lemma_changes_only_trans(start.orders@, before.orders@, self.orders@, start.symbol);
                            lemma_only_executed_trans(start.orders@, before.orders@, self.orders@);
                            lemma_activated_one(ids@, start.orders@, before.orders@, self.orders@, k as int);
                            assert(activated(before, *self, ids@[k as int]));
                            lemma_trace_push(cs, start, before, *self, ids@, k as int);
                            cs = cs.push(*self);
                        }
                    }
                },
                None => {},
            }
            k = k + 1;
        }
        proof {
            assert(ids@.take(k as int) =~= ids@);
            assert(activation_trace(cs, start, *self, ids@));
        }
        result
    }

    /// Activates the best plain stop level of side `buy` when `stop_price`
    /// reached it; see `activate_individual_stop_orders`.
    pub fn activate_stop_orders_level(&mut self, buy: bool, stop_price: u64) -> (r: bool)
        requires
            old(self).wf(),
        ensures
            final(self).wf(),
            final(self).symbol == old(self).symbol,
            changes_only(old(self).orders@, final(self).orders@, old(self).symbol),
            no_new_orders(old(self).orders@, final(self).orders@),
            only_executed(old(self).orders@, final(self).orders@),
            r == stop_triggered(old(self).book, BookKind::Stop, buy, stop_price),
            r ==> stop_volume(final(self).book) < stop_volume(old(self).book),
            r ==> stop_volume(final(self).book) + old(self).book.side(BookKind::Stop, buy)[0].total_volume
                == stop_volume(old(self).book),
            r ==> activated_upto(
                old(self).book.side(BookKind::Stop, buy)[0].queue(),
                old(self).orders@,
                final(self).orders@,
                old(self).book.side(BookKind::Stop, buy)[0].queue().len() as int,
            ),
            r ==> exists|cs: Seq<ExecutionContext>|
                #[trigger] activation_trace(cs, *old(self), *final(self), old(self).book.side(BookKind::Stop, buy)[0].queue()),
            !r ==> final(self).same_state(old(self)),
            level_activated(*old(self), *final(self), BookKind::Stop, buy, stop_price),
    {
        self.activate_individual_stop_orders(BookKind::Stop, buy, stop_price)
    }
}

/// The limit price of a trailing stop-limit order whose stop price moves
/// from `stop` to `new_stop`: the same distance from the stop price as
/// before, within the range of `u64`.
pub open spec fn shifted_price(price: u64, stop: u64, new_stop: u64) -> u64 {
    let v = new_stop + price - stop;
    if v < 0 {
        0
    } else if v > u64::MAX {
        u64::MAX
    } else {
        v as u64
    }
}

pub(crate) fn shift_price(price: u64, stop: u64, new_stop: u64) -> (r: u64)
    ensures
        r == shifted_price(price, stop, new_stop),
{
    let v: i128 = new_stop as i128 + price as i128 - stop as i128;
    if v < 0 {
        0
    } else if v > u64::MAX as i128 {
        u64::MAX
    } else {
        v as u64
    }
}

/// Trailing stop order `o` with its stop price moved to `new_stop`.
pub open spec fn trailed(o: Order, new_stop: u64) -> Order {
    if o.order_type == OrderType::TrailingStopLimit {
        Order { stop_price: new_stop, price: shifted_price(o.price, o.stop_price, new_stop), ..o }
    } else {
        Order { stop_price: new_stop, ..o }
    }
}

/// `o2` is order `o` after the trailing stop orders of side `ask` of
/// symbol `sym` were recalculated in book `b`: unchanged, or, when `o` is
/// such an order, trailed to its new stop price.
#[verifier::opaque]
pub open spec fn retrailed(b: OrderBook, ask: bool, sym: u64, o: Order, o2: Order) -> bool {
    ||| o2 == o
    ||| o.is_trailing_kind() && o.spec_is_buy() == ask && o.symbol_id == sym && o2 == trailed(
        o,
        b.trailing_stop_price(o),
    )
}

/// A queue of orders that all have something left holds no more orders
/// than its total remaining quantity.
proof fn lemma_queue_len_le_sum(ids: Seq<u64>, m: Map<u64, Order>)
    requires
        forall|j: int| 0 <= j < ids.len() ==> m[#[trigger] ids[j]].leaves_quantity > 0,
    ensures
        ids.len() <= queue_sum(ids, m, 0),
    decreases ids.len(),
{
    if ids.len() > 0 {
        let t = ids.drop_last();
        assert forall|j: int| 0 <= j < t.len() implies m[#[trigger] t[j]].leaves_quantity > 0 by {
            assert(t[j] == ids[j]);
        }
        lemma_queue_len_le_sum(t, m);
        assert(m[ids[ids.len() - 1]].leaves_quantity > 0);
    }
}

/// Two different levels of a side hold no more than the whole side.
proof fn lemma_two_levels(s: Seq<Level>, i: int, j: int)
    requires
        0 <= i < s.len(),
        0 <= j < s.len(),
        i != j,
    ensures
        s[i].total_volume + s[j].total_volume <= side_volume(s),
{
    crate::volumes::lemma_side_volume_remove(s, i);
    let t = s.remove(i);
    let j2 = if j < i { j } else { j - 1 };
    assert(t[j2] == s[j]);
    crate::volumes::lemma_side_volume_remove(t, j2);
}

/// A live trailing stop order whose stop price changes fits at the level
/// of its new stop price when the volume of its whole side fits in `u64`.
proof fn lemma_move_fits(c: ExecutionContext, id: u64, o2: Order)
    requires
        c.wf(),
        c.holds(id),
        c.orders@[id].is_trailing_kind(),
        o2.leaves_quantity == c.orders@[id].leaves_quantity,
        o2.max_visible_quantity == c.orders@[id].max_visible_quantity,
        o2.stop_price != c.orders@[id].stop_price,
        side_volume(c.book.side(BookKind::TrailingStop, c.orders@[id].spec_is_buy())) <= u64::MAX,
    ensures
        side_can_add(c.book.side(BookKind::TrailingStop, c.orders@[id].spec_is_buy()), o2.stop_price, o2),
{
    let m = c.orders@;
    let o = m[id];
    let b = o.spec_is_buy();
    let s = c.book.side(BookKind::TrailingStop, b);
    assert(crate::consistency::placed(s, crate::order_book::key_of(o), id));
    let i = choose|i: int|
        0 <= i < s.len() && (#[trigger] s[i]).price == crate::order_book::key_of(o) && s[i].queue().contains(id);
    assert(side_ok(s, BookKind::TrailingStop, b, c.symbol, m));
    assert(level_ok(s[i], BookKind::TrailingStop, b, c.symbol, m));
    let qi = s[i].queue();
    let p = choose|p: int| 0 <= p < qi.len() && qi[p] == id;
    crate::consistency::lemma_sum_remove(qi, p, m, 0);
    crate::order::lemma_hidden_visible_sum(o2);
    crate::order::lemma_hidden_visible_sum(o);
    assert(c.book.wf());
    assert(side_wf(s, side_asc(BookKind::TrailingStop, b), if b {
        crate::level::LevelType::Ask
    } else {
        crate::level::LevelType::Bid
    }));
    assert forall|j: int| 0 <= j < s.len() && (#[trigger] s[j]).price == o2.stop_price implies s[j].can_add(o2) by {
        assert(j != i);
        lemma_two_levels(s, i, j);
        assert(level_ok(s[j], BookKind::TrailingStop, b, c.symbol, m));
        crate::laws::lemma_queue_sum_split(s[j].queue(), m);
        assert forall|k: int| 0 <= k < s[j].queue().len() implies m[#[trigger] s[j].queue()[k]].leaves_quantity > 0 by {
            assert(crate::consistency::order_fits(m, s[j].queue()[k], BookKind::TrailingStop, b, c.symbol, s[j].price));
        }
        lemma_queue_len_le_sum(s[j].queue(), m);
        assert(s[j].wf());
    }
}

/// `o` is a trailing stop order of side `ask` of symbol `sym`.
pub open spec fn trails_on(o: Order, ask: bool, sym: u64) -> bool {
    o.is_trailing_kind() && o.spec_is_buy() == ask && o.symbol_id == sym
}

/// Of the trailing stop orders of side `ask` of symbol `sym` in `m0`, those
/// among the first `k` of `ids` are trailed in `m` to their new stop price
/// in book `b`, and the others are as in `m0`.
#[verifier::opaque]
spec fn retrailed_upto(
    b: OrderBook,
    ask: bool,
    sym: u64,
    ids: Seq<u64>,
    m0: Map<u64, Order>,
    m: Map<u64, Order>,
    k: int,
) -> bool {
    forall|x: u64|
        #[trigger] m0.contains_key(x) && trails_on(m0[x], ask, sym) ==> m.contains_key(x) && (if ids.take(
            k,
        ).contains(x) {
            m[x] == trailed(m0[x], b.trailing_stop_price(m0[x]))
        } else {
            m[x] == m0[x]
        })
}

/// Before any order was looked at, none is trailed.
proof fn lemma_retrailed_begin(b: OrderBook, ask: bool, sym: u64, ids: Seq<u64>, m0: Map<u64, Order>)
    ensures
        retrailed_upto(b, ask, sym, ids, m0, m0, 0),
{
    reveal(retrailed_upto);
    assert(ids.take(0) =~= Seq::<u64>::empty());
}

/// Looking at order `ids[k]` without moving it: it is no such order, or
/// its stop price does not change.
proof fn lemma_retrailed_skip(
    b: OrderBook,
    b1: OrderBook,
    ask: bool,
    sym: u64,
    ids: Seq<u64>,
    m0: Map<u64, Order>,
    m1: Map<u64, Order>,
    k: int,
)
    requires
        0 <= k < ids.len(),
        retrailed_upto(b, ask, sym, ids, m0, m1, k),
        b1.asks@ == b.asks@,
        b1.bids@ == b.bids@,
        b1.last_bid_price == b.last_bid_price,
        b1.last_ask_price == b.last_ask_price,
        m1.contains_key(ids[k]) && trails_on(m1[ids[k]], ask, sym) ==> b1.trailing_stop_price(m1[ids[k]])
            == m1[ids[k]].stop_price,
    ensures
        retrailed_upto(b, ask, sym, ids, m0, m1, k + 1),
{
    reveal(retrailed_upto);
    let id = ids[k];
    assert(ids.take(k + 1) =~= ids.take(k).push(id));
    assert(b1.trailing_ask() == b.trailing_ask());
    assert(b1.trailing_bid() == b.trailing_bid());
    assert forall|x: u64| #[trigger] m0.contains_key(x) && trails_on(m0[x], ask, sym) implies m1.contains_key(x)
        && (if ids.take(k + 1).contains(x) {
        m1[x] == trailed(m0[x], b.trailing_stop_price(m0[x]))
    } else {
        m1[x] == m0[x]
    }) by {
        if x == id && !ids.take(k).contains(x) {
            assert(ids.take(k + 1)[k] == id);
            let o = m0[x];
            assert(trailed(o, o.stop_price) == o);
        }
        if x != id {
            lemma_take_contains(ids, k, x);
        } else {
            assert(ids.take(k + 1)[k] == id);
            if ids.take(k).contains(x) {
                lemma_trail_again(b, m0[x]);
            }
        }
    }
}

/// Moving order `ids[k]` to its new stop price.
proof fn lemma_retrailed_move(
    b: OrderBook,
    b1: OrderBook,
    ask: bool,
    sym: u64,
    ids: Seq<u64>,
    m0: Map<u64, Order>,
    m1: Map<u64, Order>,
    m2: Map<u64, Order>,
    k: int,
    new_stop: u64,
)
    requires
        0 <= k < ids.len(),
        retrailed_upto(b, ask, sym, ids, m0, m1, k),
        b1.asks@ == b.asks@,
        b1.bids@ == b.bids@,
        b1.last_bid_price == b.last_bid_price,
        b1.last_ask_price == b.last_ask_price,
        m1.contains_key(ids[k]),
        trails_on(m1[ids[k]], ask, sym),
        new_stop == b1.trailing_stop_price(m1[ids[k]]),
        new_stop != m1[ids[k]].stop_price,
        m2 == m1.insert(ids[k], trailed(m1[ids[k]], new_stop)),
    ensures
        retrailed_upto(b, ask, sym, ids, m0, m2, k + 1),
{
    reveal(retrailed_upto);
    let id = ids[k];
    assert(ids.take(k + 1) =~= ids.take(k).push(id));
    assert(b1.trailing_ask() == b.trailing_ask());
    assert(b1.trailing_bid() == b.trailing_bid());
    assert forall|x: u64| #[trigger] m0.contains_key(x) && trails_on(m0[x], ask, sym) implies m2.contains_key(x)
        && (if ids.take(k + 1).contains(x) {
        m2[x] == trailed(m0[x], b.trailing_stop_price(m0[x]))
    } else {
        m2[x] == m0[x]
    }) by {
        if x != id {
            lemma_take_contains(ids, k, x);
        } else {
            assert(ids.take(k + 1)[k] == id);
            if ids.take(k).contains(x) {
                lemma_trail_again(b, m0[x]);
            }
        }
    }
}

/// Another id is among the first `k + 1` ids exactly when it is among the
/// first `k`.
proof fn lemma_take_contains(ids: Seq<u64>, k: int, x: u64)
    requires
        0 <= k < ids.len(),
        x != ids[k],
    ensures
        ids.take(k + 1).contains(x) == ids.take(k).contains(x),
{
    let t0 = ids.take(k);
    let t1 = ids.take(k + 1);
    if t1.contains(x) {
        let j = choose|j: int| 0 <= j < t1.len() && t1[j] == x;
        assert(j < k);
        assert(t0[j] == x);
    }
    if t0.contains(x) {
        let j = choose|j: int| 0 <= j < t0.len() && t0[j] == x;
        assert(t1[j] == x);
    }
}

/// Every trailing stop order of side `ask` of symbol `sym` in `m0` is, in
/// `m`, trailed to its new stop price in book `b`.
#[verifier::opaque]
pub open spec fn all_trailed(b: OrderBook, ask: bool, sym: u64, m0: Map<u64, Order>, m: Map<u64, Order>) -> bool {
    forall|x: u64|
        #[trigger] m0.contains_key(x) && trails_on(m0[x], ask, sym) ==> m[x] == trailed(
            m0[x],
            b.trailing_stop_price(m0[x]),
        )
}

/// Every order queued on a side is among the side's queued ids.
proof fn lemma_placed_queued(s: Seq<Level>, key: u64, id: u64)
    requires
        crate::consistency::placed(s, key, id),
    ensures
        queued_ids(s).contains(id),
    decreases s.len(),
{
    let i = choose|i: int| 0 <= i < s.len() && (#[trigger] s[i]).price == key && s[i].queue().contains(id);
    let q = s.last().queue();
    if i == s.len() - 1 {
        let p = choose|p: int| 0 <= p < q.len() && q[p] == id;
        let t = queued_ids(s.drop_last());
        assert((t + q)[t.len() + p] == id);
    } else {
        assert(s.drop_last()[i] == s[i]);
        lemma_placed_queued(s.drop_last(), key, id);
        let t = queued_ids(s.drop_last());
        let p = choose|p: int| 0 <= p < t.len() && t[p] == id;
        assert((t + q)[p] == id);
    }
}

/// When all of `ids` were looked at and they cover the side, every
/// trailing stop order of the side is trailed.
proof fn lemma_retrailed_end(
    b: OrderBook,
    ask: bool,
    sym: u64,
    ids: Seq<u64>,
    m0: Map<u64, Order>,
    m: Map<u64, Order>,
)
    requires
        retrailed_upto(b, ask, sym, ids, m0, m, ids.len() as int),
        crate::consistency::book_ok(b, sym, m0),
        ids == queued_ids(b.side(BookKind::TrailingStop, ask)),
    ensures
        all_trailed(b, ask, sym, m0, m),
{
    reveal(retrailed_upto);
    reveal(all_trailed);
    assert(ids.take(ids.len() as int) =~= ids);
    assert forall|x: u64| #[trigger] m0.contains_key(x) && trails_on(m0[x], ask, sym) implies m[x] == trailed(
        m0[x],
        b.trailing_stop_price(m0[x]),
    ) by {
        assert(crate::consistency::placed(
            b.side(kind_of(m0[x]), m0[x].spec_is_buy()),
            crate::order_book::key_of(m0[x]),
            x,
        ));
        lemma_placed_queued(b.side(BookKind::TrailingStop, ask), crate::order_book::key_of(m0[x]), x);
    }
}

/// Trailing keeps what remains and what was executed of every order.
proof fn lemma_retrailed_only_executes(b: OrderBook, ask: bool, sym: u64, m0: Map<u64, Order>, m: Map<u64, Order>)
    requires
        m.dom() == m0.dom(),
        forall|x: u64| #[trigger] m0.contains_key(x) ==> retrailed(b, ask, sym, m0[x], m[x]),
    ensures
        only_executed(m0, m),
{
    reveal(retrailed);
    assert forall|x: u64| #[trigger] m.contains_key(x) implies m0.contains_key(x) && m[x].leaves_quantity
        <= m0[x].leaves_quantity && m[x].leaves_quantity + m[x].executed_quantity
        == m0[x].leaves_quantity + m0[x].executed_quantity by {
        assert(m0.contains_key(x));
        assert(retrailed(b, ask, sym, m0[x], m[x]));
    }
}

/// Nothing trailed: every order is as it was.
proof fn lemma_retrail_none(b: OrderBook, ask: bool, sym: u64, m: Map<u64, Order>)
    ensures
        forall|x: u64| #[trigger] m.contains_key(x) ==> retrailed(b, ask, sym, m[x], m[x]),
{
    reveal(retrailed);
}

/// Trailing one more order keeps every order either as it was or
/// trailed once.
proof fn lemma_retrail_step(
    b: OrderBook,
    b1: OrderBook,
    ask: bool,
    sym: u64,
    m0: Map<u64, Order>,
    m1: Map<u64, Order>,
    m2: Map<u64, Order>,
    id: u64,
    new_stop: u64,
)
    requires
        b1.asks@ == b.asks@,
        b1.bids@ == b.bids@,
        b1.last_bid_price == b.last_bid_price,
        b1.last_ask_price == b.last_ask_price,
        m1.dom() == m0.dom(),
        forall|x: u64| #[trigger] m0.contains_key(x) ==> retrailed(b, ask, sym, m0[x], m1[x]),
        m1.contains_key(id),
        m1[id].is_trailing_kind(),
        m1[id].spec_is_buy() == ask,
        m1[id].symbol_id == sym,
        new_stop == b1.trailing_stop_price(m1[id]),
        new_stop != m1[id].stop_price,
        m2 == m1.insert(id, trailed(m1[id], new_stop)),
    ensures
        m2.dom() == m0.dom(),
        forall|x: u64| #[trigger] m0.contains_key(x) ==> retrailed(b, ask, sym, m0[x], m2[x]),
{
    reveal(retrailed);
    assert(b1.trailing_ask() == b.trailing_ask());
    assert(b1.trailing_bid() == b.trailing_bid());
    assert(new_stop == b.trailing_stop_price(m1[id]));
    assert(m2.dom() =~= m0.dom());
    assert(m0.contains_key(id));
    if m1[id] != m0[id] {
        lemma_trail_again(b, m0[id]);
    }
    assert forall|x: u64| #[trigger] m0.contains_key(x) implies retrailed(b, ask, sym, m0[x], m2[x]) by {
        if x != id {
            assert(m2[x] == m1[x]);
        }
    }
}

/// Trailing an order to its new stop price leaves nothing more to trail.
proof fn lemma_trail_again(b: OrderBook, o: Order)
    ensures
        b.trailing_stop_price(trailed(o, b.trailing_stop_price(o))) == b.trailing_stop_price(o),
        trailed(o, b.trailing_stop_price(o)).spec_is_buy() == o.spec_is_buy(),
        trailed(o, b.trailing_stop_price(o)).order_type == o.order_type,
        trailed(o, b.trailing_stop_price(o)).symbol_id == o.symbol_id,
{
}

/// The book's trailing market price after a recalculation on the ask
/// side (`ask`) or the bid side: it only moves towards the market, and
/// only while that side has a level.
pub open spec fn next_trailing_price(b: OrderBook, ask: bool) -> u64 {
    if ask {
        if b.asks@.len() > 0 && b.trailing_ask() < b.trailing_ask_price {
            b.trailing_ask()
        } else {
            b.trailing_ask_price
        }
    } else {
        if b.bids@.len() > 0 && b.trailing_bid() > b.trailing_bid_price {
            b.trailing_bid()
        } else {
            b.trailing_bid_price
        }
    }
}

/// `c2` is `c1` after the trailing stop orders of side `ask` were
/// recalculated; see `ExecutionContext::recalculate_trailing_stop_price`.
pub open spec fn trailing_recalculated(c1: ExecutionContext, c2: ExecutionContext, ask: bool) -> bool {
    &&& c2.symbol == c1.symbol
    &&& changes_only(c1.orders@, c2.orders@, c1.symbol)
    &&& no_new_orders(c1.orders@, c2.orders@)
    &&& limit_sides_same(c2.book, c1.book)
    &&& stop_volume(c2.book) == stop_volume(c1.book)
    &&& c2.book.side(BookKind::Stop, true) == c1.book.side(BookKind::Stop, true)
    &&& c2.book.side(BookKind::Stop, false) == c1.book.side(BookKind::Stop, false)
    &&& c2.book.side(BookKind::TrailingStop, !ask) == c1.book.side(BookKind::TrailingStop, !ask)
    &&& c2.book.last_bid_price == c1.book.last_bid_price
    &&& c2.book.last_ask_price == c1.book.last_ask_price
    &&& c2.book.matching_bid_price == c1.book.matching_bid_price
    &&& c2.book.matching_ask_price == c1.book.matching_ask_price
    &&& ask ==> c2.book.trailing_ask_price == next_trailing_price(c1.book, true)
        && c2.book.trailing_bid_price == c1.book.trailing_bid_price
    &&& !ask ==> c2.book.trailing_bid_price == next_trailing_price(c1.book, false)
        && c2.book.trailing_ask_price == c1.book.trailing_ask_price
    &&& next_trailing_price(c1.book, ask) == (if ask {
        c1.book.trailing_ask_price
    } else {
        c1.book.trailing_bid_price
    }) ==> c2.same_state(&c1)
    &&& c2.orders@.dom() == c1.orders@.dom()
    &&& only_executed(c1.orders@, c2.orders@)
    &&& (if ask {
        c2.book.trailing_ask_price != c1.book.trailing_ask_price
    } else {
        c2.book.trailing_bid_price != c1.book.trailing_bid_price
    }) && side_volume(c1.book.side(BookKind::TrailingStop, ask)) <= u64::MAX ==> all_trailed(
        c1.book,
        ask,
        c1.symbol,
        c1.orders@,
        c2.orders@,
    )
    &&& forall|x: u64|
        #[trigger] c1.orders@.contains_key(x) ==> retrailed(c1.book, ask, c1.symbol, c1.orders@[x], c2.orders@[x])
}

/// The ids queued on the levels `s`, best level first and oldest first.
pub open spec fn queued_ids(s: Seq<Level>) -> Seq<u64>
    decreases s.len(),
{
    if s.len() == 0 {
        Seq::empty()
    } else {
        queued_ids(s.drop_last()) + s.last().queue()
    }
}

impl ExecutionContext {
    /// The ids queued on a side, best level first and oldest first.
    fn side_ids(&self, kind: BookKind, buy: bool) -> (v: Vec<u64>)
        ensures
            v@ == queued_ids(self.book.side(kind, buy)),
    {
        let s = self.book.side_ref(kind, buy);
        let mut v: Vec<u64> = Vec::new();
        let mut i: usize = 0;
        proof {
            assert(s@.take(0) =~= Seq::<Level>::empty());
        }
        while i < s.len()
            invariant
                s@ == self.book.side(kind, buy),
                i <= s@.len(),
                v@ == queued_ids(s@.take(i as int)),
            decreases s@.len() - i,
        {
            let q = &s[i].order_list.list;
            let mut j: usize = 0;
            let ghost v0 = v@;
            proof {
                assert(v@ =~= v0 + q@.take(0));
            }
            while j < q.len()
                invariant
                    i < s@.len(),
                    q@ == s@[i as int].queue(),
                    j <= q@.len(),
                    v0 == queued_ids(s@.take(i as int)),
                    v@ == v0 + q@.take(j as int),
                decreases q@.len() - j,
            {
                v.push(q[j]);
                proof {
                    assert(q@.take(j + 1) =~= q@.take(j as int).push(q@[j as int]));
                    assert(v@ =~= v0 + q@.take(j + 1));
                }
                j = j + 1;
            }
            proof {
                assert(q@.take(j as int) =~= q@);
                assert(s@.take(i + 1).drop_last() =~= s@.take(i as int));
                assert(s@.take(i + 1).last() == s@[i as int]);
            }
            i = i + 1;
        }
        proof {
            assert(s@.take(i as int) =~= s@);
        }
        v
    }

    /// Moves live trailing stop order `id`, `o`, of side `ask` to its
    /// trailed version `o2`, queued last at the level of its new stop
    /// price.
    #[verifier::spinoff_prover]
    fn move_trailing_order(&mut self, id: u64, o: Order, o2: Order, ask: bool)
        requires
            old(self).wf(),
            live(id, o),
            old(self).holds(id),
            old(self).orders@[id] == o,
            o.order_type == OrderType::TrailingStop || o.order_type == OrderType::TrailingStopLimit,
            o.spec_is_buy() == ask,
            o2 == (Order { stop_price: o2.stop_price, price: o2.price, ..o }),
            o2.stop_price != o.stop_price,
            side_can_add(old(self).book.side(BookKind::TrailingStop, ask), o2.stop_price, o2),
        ensures
            final(self).wf(),
            final(self).symbol == old(self).symbol,
            changes_only(old(self).orders@, final(self).orders@, old(self).symbol),
            no_new_orders(old(self).orders@, final(self).orders@),
            final(self).orders@ == old(self).orders@.insert(id, o2),
            limit_sides_same(final(self).book, old(self).book),
            stop_volume(final(self).book) == stop_volume(old(self).book),
            final(self).book.side(BookKind::Stop, true) == old(self).book.side(BookKind::Stop, true),
            final(self).book.side(BookKind::Stop, false) == old(self).book.side(BookKind::Stop, false),
            final(self).book.side(BookKind::TrailingStop, !ask) == old(self).book.side(
                BookKind::TrailingStop,
                !ask,
            ),
            final(self).book.same_prices(&old(self).book),
    {
        let ghost before = *self;
        let new_stop = o2.stop_price;
        self.reduce_resting(id, o.leaves_quantity, false);
        let ghost mid = *self;
        proof {
            let o_after = crate::engine::after_reduce(o, o.leaves_quantity, false);
            let h = crate::engine::hidden_delta(o, o_after);
            let v = crate::engine::visible_delta(o, o_after);
            let r = choose|r: (bool, Level)|
                #[trigger] side_reduced(
                    mid.book.side(BookKind::TrailingStop, ask),
                    before.book.side(BookKind::TrailingStop, ask),
                    o.stop_price,
                    id,
                    o.leaves_quantity,
                    h,
                    v,
                    crate::order_book::no_leaves(o_after),
                    r,
                );
            lemma_can_add_after_reduce(
                mid.book.side(BookKind::TrailingStop, ask),
                before.book.side(BookKind::TrailingStop, ask),
                o.stop_price,
                id,
                o.leaves_quantity,
                h,
                v,
                crate::order_book::no_leaves(o_after),
                r,
                new_stop,
                o2,
            );
            lemma_stop_volume_of_side(before.book, mid.book, BookKind::TrailingStop, ask);
            assert(mid.orders@ == before.orders@.remove(id));
            assert(!mid.orders@.contains_key(o2.id));
            assert(crate::consistency::resting(o2));
            assert(o2.symbol_id == mid.symbol);
            assert(kind_of(o2) == BookKind::TrailingStop && o2.spec_is_buy() == ask);
        }
        let res = self.insert_resting(o2);
        proof {
            assert(res is Ok);
            assert(self.orders@ =~= before.orders@.insert(id, o2));
            lemma_stop_volume_of_side(mid.book, self.book, BookKind::TrailingStop, ask);
            lemma_changes_only_trans(before.orders@, mid.orders@, self.orders@, before.symbol);
        }
    }

    /// Trails the trailing stop orders behind the market. With `ask`, when
    /// there is an ask level and the trailing ask price fell, the trailing
    /// buy stops are recalculated; without, when there is a bid level and
    /// the trailing bid price rose, the trailing sell stops are. Each order,
    /// best level first and oldest first, whose stop price changes moves to
    /// the level of its new stop price, a stop-limit order keeping the
    /// distance of its limit price; no order leaves, and no other order
    /// changes. When the trailing price moved and the side's volume fits a
    /// `u64`, every trailing order of the side ends at the stop price that
    /// the new trailing price gives it (`all_trailed`).
    pub fn recalculate_trailing_stop_price(&mut self, ask: bool)
        requires
            old(self).wf(),
        ensures
            final(self).wf(),
            trailing_recalculated(*old(self), *final(self), ask),
    {
        proof {
            lemma_retrail_none(old(self).book, ask, old(self).symbol, old(self).orders@);
            lemma_only_executed_refl(old(self).orders@);
        }
        if ask {
            if self.book.asks.len() == 0 {
                return;
            }
            let old_price = self.book.trailing_ask_price;
            let new_price = self.book.get_market_trailing_stop_price_ask();
            if new_price >= old_price {
                return;
            }
            let ghost before = *self;
            self.book.trailing_ask_price = new_price;
            proof {
                lemma_book_ok_prices(before.book, self.book, self.symbol, self.orders@);
            }
        } else {
            if self.book.bids.len() == 0 {
                return;
            }
            let old_price = self.book.trailing_bid_price;
            let new_price = self.book.get_market_trailing_stop_price_bid();
            if new_price <= old_price {
                return;
            }
            let ghost before = *self;
            self.book.trailing_bid_price = new_price;
            proof {
                lemma_book_ok_prices(before.book, self.book, self.symbol, self.orders@);
            }
        }
        self.trail_side(ask, Ghost(*old(self)));
    }

    /// Trails every trailing stop order of side `ask` whose stop price
    /// changes to the level of its new stop price; `start` is the engine
    /// before the book's trailing price moved.
    #[verifier::spinoff_prover]
    fn trail_side(&mut self, ask: bool, Ghost(start): Ghost<ExecutionContext>)
        requires
            old(self).wf(),
            start.wf(),
            old(self).symbol == start.symbol,
            old(self).orders@ == start.orders@,
            old(self).book.same_sides(&start.book),
            old(self).book.last_bid_price == start.book.last_bid_price,
            old(self).book.last_ask_price == start.book.last_ask_price,
            forall|x: u64|
                #[trigger] start.orders@.contains_key(x) ==> retrailed(
                    start.book,
                    ask,
                    start.symbol,
                    start.orders@[x],
                    start.orders@[x],
                ),
        ensures
            final(self).wf(),
            final(self).symbol == start.symbol,
            changes_only(start.orders@, final(self).orders@, start.symbol),
            no_new_orders(start.orders@, final(self).orders@),
            limit_sides_same(final(self).book, start.book),
            stop_volume(final(self).book) == stop_volume(start.book),
            final(self).book.side(BookKind::Stop, true) == start.book.side(BookKind::Stop, true),
            final(self).book.side(BookKind::Stop, false) == start.book.side(BookKind::Stop, false),
            final(self).book.side(BookKind::TrailingStop, !ask) == start.book.side(BookKind::TrailingStop, !ask),
            final(self).book.same_prices(&old(self).book),
            final(self).orders@.dom() == start.orders@.dom(),
            only_executed(start.orders@, final(self).orders@),
            side_volume(start.book.side(BookKind::TrailingStop, ask)) <= u64::MAX ==> all_trailed(
                start.book,
                ask,
                start.symbol,
                start.orders@,
                final(self).orders@,
            ),
            forall|x: u64|
                #[trigger] start.orders@.contains_key(x) ==> retrailed(
                    start.book,
                    ask,
                    start.symbol,
                    start.orders@[x],
                    final(self).orders@[x],
                ),
    {
        proof {
            lemma_same_sides(old(self).book, start.book);
            assert(stop_volume(old(self).book) == stop_volume(start.book));
            assert(old(self).book.side(BookKind::Stop, true) == start.book.side(BookKind::Stop, true));
            assert(old(self).book.side(BookKind::Stop, false) == start.book.side(BookKind::Stop, false));
            assert(old(self).book.side(BookKind::TrailingStop, true) == start.book.side(BookKind::TrailingStop, true));
            assert(old(self).book.side(BookKind::TrailingStop, false) == start.book.side(BookKind::TrailingStop, false));
            lemma_same_sides(old(self).book, start.book);
        }
        let ghost priced = *self;
        let ids = self.side_ids(BookKind::TrailingStop, ask);
        let mut k: usize = 0;
        proof {
            assert(priced.book.side(BookKind::TrailingStop, ask) == start.book.side(BookKind::TrailingStop, ask));
            lemma_retrailed_begin(start.book, ask, start.symbol, ids@, start.orders@);
        }
        while k < ids.len()
            invariant
                self.wf(),
                self.symbol == start.symbol,
                changes_only(start.orders@, self.orders@, start.symbol),
                no_new_orders(start.orders@, self.orders@),
                limit_sides_same(self.book, start.book),
                stop_volume(self.book) == stop_volume(start.book),
                self.book.side(BookKind::Stop, true) == start.book.side(BookKind::Stop, true),
                self.book.side(BookKind::Stop, false) == start.book.side(BookKind::Stop, false),
                self.book.side(BookKind::TrailingStop, !ask) == start.book.side(BookKind::TrailingStop, !ask),
                self.book.same_prices(&priced.book),
                priced.book.last_bid_price == start.book.last_bid_price,
                priced.book.last_ask_price == start.book.last_ask_price,
                self.orders@.dom() == start.orders@.dom(),
                ids@ == queued_ids(start.book.side(BookKind::TrailingStop, ask)),
                side_volume(self.book.side(BookKind::TrailingStop, ask)) == side_volume(
                    start.book.side(BookKind::TrailingStop, ask),
                ),
                side_volume(start.book.side(BookKind::TrailingStop, ask)) <= u64::MAX ==> retrailed_upto(
                    start.book,
                    ask,
                    start.symbol,
                    ids@,
                    start.orders@,
                    self.orders@,
                    k as int,
                ),
                forall|x: u64|
                    #[trigger] start.orders@.contains_key(x) ==> retrailed(
                        start.book,
                        ask,
                        start.symbol,
                        start.orders@[x],
                        self.orders@[x],
                    ),
                k <= ids@.len(),
            decreases ids@.len() - k,
        {
            let id = ids[k];
            match self.orders.find(id) {
                Some(o) => {
                    if o.symbol_id == self.symbol && o.is_buy() == ask && (o.order_type
                        == OrderType::TrailingStop || o.order_type == OrderType::TrailingStopLimit) {
                        let new_stop = self.book.calculate_trailing_stop_price(&o);
                        if new_stop != o.stop_price {
                            let mut o2 = o;
                            o2.stop_price = new_stop;
                            if o.order_type == OrderType::TrailingStopLimit {
                                o2.price = shift_price(o.price, o.stop_price, new_stop);
                            }
                            if self.book.can_add_to_side(BookKind::TrailingStop, ask, new_stop, &o2) {
                                let ghost before = *self;
                                proof {
                                    assert(live(id, o));
                                }
                                self.move_trailing_order(id, o, o2, ask);
                                proof {
                                    assert(o2 == trailed(o, new_stop));
                                    assert(before.book.asks@ == start.book.asks@);
                                    assert(before.book.bids@ == start.book.bids@);
                                    assert(before.book.last_bid_price == start.book.last_bid_price);
                                    assert(before.book.last_ask_price == start.book.last_ask_price);
                                    assert(before.orders@[id] == o);
                                    lemma_retrail_step(
                                        start.book,
                                        before.book,
                                        ask,
                                        start.symbol,
                                        start.orders@,
                                        before.orders@,
                                        self.orders@,
                                        id,
                                        new_stop,
                                    );
                                    lemma_changes_only_trans(start.orders@, before.orders@, self.orders@, start.symbol);
                                    if side_volume(start.book.side(BookKind::TrailingStop, ask)) <= u64::MAX {
                                        lemma_retrailed_move(
                                            start.book,
                                            before.book,
                                            ask,
                                            start.symbol,
                                            ids@,
                                            start.orders@,
                                            before.orders@,
                                            self.orders@,
                                            k as int,
                                            new_stop,
                                        );
                                    }
                                }
                            } else {
                                proof {
                                    if side_volume(start.book.side(BookKind::TrailingStop, ask)) <= u64::MAX {
                                        lemma_move_fits(*self, id, o2);
                                    }
                                }
                            }
                        } else {
                            proof {
                                if side_volume(start.book.side(BookKind::TrailingStop, ask)) <= u64::MAX {
                                    lemma_retrailed_skip(
                                        start.book,
                                        self.book,
                                        ask,
                                        start.symbol,
                                        ids@,
                                        start.orders@,
                                        self.orders@,
                                        k as int,
                                    );
                                }
                            }
                        }
                    } else {
                        proof {
                            if side_volume(start.book.side(BookKind::TrailingStop, ask)) <= u64::MAX {
                                lemma_retrailed_skip(
                                    start.book,
                                    self.book,
                                    ask,
                                    start.symbol,
                                    ids@,
                                    start.orders@,
                                    self.orders@,
                                    k as int,
                                );
                            }
                        }
                    }
                },
                None => {
                    proof {
                        if side_volume(start.book.side(BookKind::TrailingStop, ask)) <= u64::MAX {
                            lemma_retrailed_skip(
                                start.book,
                                self.book,
                                ask,
                                start.symbol,
                                ids@,
                                start.orders@,
                                self.orders@,
                                k as int,
                            );
                        }
                    }
                },
            }
            k = k + 1;
        }
        proof {
            lemma_retrailed_only_executes(start.book, ask, start.symbol, start.orders@, self.orders@);
            if side_volume(start.book.side(BookKind::TrailingStop, ask)) <= u64::MAX {
                assert(all_trailed(start.book, ask, start.symbol, start.orders@, self.orders@)) by {
                    lemma_retrailed_end(start.book, ask, start.symbol, ids@, start.orders@, self.orders@);
                }
            }
        }
    }

    /// One round of stop activation; see `stop_round`. Returns whether a
    /// level was triggered.
    fn activation_round(&mut self) -> (activated: bool)
        requires
            old(self).wf(),
        ensures
            final(self).wf(),
            final(self).symbol == old(self).symbol,
            changes_only(old(self).orders@, final(self).orders@, old(self).symbol),
            no_new_orders(old(self).orders@, final(self).orders@),
            only_executed(old(self).orders@, final(self).orders@),
            stop_round(*old(self), *final(self), activated),
            activated ==> stop_volume(final(self).book) < stop_volume(old(self).book),
            !activated ==> limit_sides_same(final(self).book, old(self).book) && stop_volume(final(self).book)
                == stop_volume(old(self).book),
            !activated ==> !stop_triggered(final(self).book, BookKind::Stop, true, final(self).book.market_ask()),
            !activated ==> !stop_triggered(final(self).book, BookKind::Stop, false, final(self).book.market_bid()),
            !activated ==> next_trailing_price(final(self).book, true) == final(self).book.trailing_ask_price,
            !activated ==> next_trailing_price(final(self).book, false) == final(self).book.trailing_bid_price,
            !activated ==> quiet_exit(*old(self), *final(self)),
    {
        let ghost round = *self;
        let mut activated = false;
        let ask_price = self.book.get_market_ask_price();
        if self.activate_individual_stop_orders(BookKind::Stop, true, ask_price) {
            activated = true;
        } else {
            let ask_price = self.book.get_market_ask_price();
            if self.activate_individual_stop_orders(BookKind::TrailingStop, true, ask_price) {
                activated = true;
            }
        }
        let ghost s1 = *self;
        self.recalculate_trailing_stop_price(true);
        let ghost s2 = *self;
        let mut sold = false;
        let bid_price = self.book.get_market_bid_price();
        if self.activate_individual_stop_orders(BookKind::Stop, false, bid_price) {
            sold = true;
        } else {
            let bid_price = self.book.get_market_bid_price();
            if self.activate_individual_stop_orders(BookKind::TrailingStop, false, bid_price) {
                sold = true;
            }
        }
        let ghost s3 = *self;
        self.recalculate_trailing_stop_price(false);
        proof {
            lemma_changes_only_trans(round.orders@, s1.orders@, s2.orders@, round.symbol);
            lemma_changes_only_trans(round.orders@, s2.orders@, s3.orders@, round.symbol);
            lemma_changes_only_trans(round.orders@, s3.orders@, self.orders@, round.symbol);
            lemma_only_executed_trans(round.orders@, s1.orders@, s2.orders@);
            lemma_only_executed_trans(round.orders@, s2.orders@, s3.orders@);
            lemma_only_executed_trans(round.orders@, s3.orders@, self.orders@);
            assert(side_activated(round, s1, true));
            assert(side_activated(s2, s3, false));
            assert(activated == side_triggered(round.book, true));
            assert(sold == side_triggered(s2.book, false));
            reveal(stop_round);
            assert(stop_round(round, *self, activated || sold));
        }
        if !activated && !sold {
            proof {
                assert(s1.book.side(BookKind::Stop, true) == round.book.side(BookKind::Stop, true));
                assert(self.book.side(BookKind::Stop, true) == round.book.side(BookKind::Stop, true));
                assert(self.book.side(BookKind::Stop, false) == s2.book.side(BookKind::Stop, false));
                assert(self.book.market_ask() == round.book.market_ask());
                assert(self.book.market_bid() == s2.book.market_bid());
                assert(s2.book.trailing_ask() == s1.book.trailing_ask());
                assert(next_trailing_price(s2.book, true) == s2.book.trailing_ask_price);
                assert(self.book.trailing_ask() == s2.book.trailing_ask());
                assert(self.book.trailing_bid() == s3.book.trailing_bid());
                assert(quiet_exit(round, *self));
            }
        }
        activated || sold
    }

    /// Activates triggered stop orders until none is triggered: in each
    /// round the best buy stop level, or else the best trailing buy stop
    /// level, at the market ask price; then the trailing buy stops trail;
    /// then the best sell stop level, or else the best trailing sell stop
    /// level, at the market bid price; then the trailing sell stops trail.
    /// The engine goes through these rounds (`stop_rounds`): each level
    /// activated was the best of its side and triggered at the market price
    /// of that moment, and the last round triggered nothing. Returns
    /// whether any order was activated; when none was, the limit sides and
    /// the stop volume are as they were. Afterwards neither plain stop side
    /// is triggered at the market prices, a trailing stop side that the last
    /// round's trailing did not move is not triggered either, and the
    /// trailing prices are settled: recalculating the trailing stops again
    /// would change nothing.
    pub fn activate_stop_orders(&mut self) -> (r: bool)
        requires
            old(self).wf(),
        ensures
            final(self).wf(),
            final(self).symbol == old(self).symbol,
            changes_only(old(self).orders@, final(self).orders@, old(self).symbol),
            no_new_orders(old(self).orders@, final(self).orders@),
            only_executed(old(self).orders@, final(self).orders@),
            r ==> stop_volume(final(self).book) < stop_volume(old(self).book),
            !r ==> limit_sides_same(final(self).book, old(self).book) && stop_volume(final(self).book)
                == stop_volume(old(self).book),
            !stop_triggered(final(self).book, BookKind::Stop, true, final(self).book.market_ask()),
            !stop_triggered(final(self).book, BookKind::Stop, false, final(self).book.market_bid()),
            next_trailing_price(final(self).book, true) == final(self).book.trailing_ask_price,
            next_trailing_price(final(self).book, false) == final(self).book.trailing_bid_price,
            exists|rs: Seq<ExecutionContext>| #[trigger] stop_rounds(rs, *old(self), *final(self)) && r == (rs.len() > 2),
        decreases stop_volume(old(self).book),
    {
        let ghost start = *self;
        let act = self.activation_round();
        let ghost mid = *self;
        if !act {
            proof {
                lemma_rounds_one(start, mid);
            }
            return false;
        }
        self.activate_stop_orders();
        proof {
            lemma_changes_only_trans(start.orders@, mid.orders@, self.orders@, start.symbol);
            lemma_only_executed_trans(start.orders@, mid.orders@, self.orders@);
            let rs = choose|rs: Seq<ExecutionContext>| #[trigger] stop_rounds(rs, mid, *self);
            lemma_rounds_prepend(rs, start, mid, *self);
        }
        true
    }
}

/// The quantity two front orders of opposite sides trade: the smaller of
/// what remains of them.
pub open spec fn pair_quantity(bo: Order, ao: Order) -> u64 {
    if bo.leaves_quantity <= ao.leaves_quantity {
        bo.leaves_quantity
    } else {
        ao.leaves_quantity
    }
}

/// The price two front orders of opposite sides trade at: the price of the
/// one executed whole, the bid on a tie.
pub open spec fn pair_price(bo: Order, ao: Order) -> u64 {
    if bo.leaves_quantity <= ao.leaves_quantity {
        bo.price
    } else {
        ao.price
    }
}

/// `m` after `q` of the remaining quantity of order `id` was executed: the
/// order is updated, or leaves when nothing of it remains.
pub open spec fn executed_in(m: Map<u64, Order>, id: u64, q: u64) -> Map<u64, Order> {
    if m[id].leaves_quantity == q {
        m.remove(id)
    } else {
        m.insert(id, crate::engine::after_reduce(m[id], q, true))
    }
}

/// `c2` is `c1` after the oldest orders of its best bid and best ask,
/// neither all-or-none, traded: both lost the smaller of what remains of
/// them, at the price of the one executed whole, and each side lost that
/// much volume.
pub open spec fn pair_step(c1: ExecutionContext, c2: ExecutionContext) -> bool {
    let bid_id = c1.book.bids@[0].queue()[0];
    let ask_id = c1.book.asks@[0].queue()[0];
    let bo = c1.orders@[bid_id];
    let ao = c1.orders@[ask_id];
    &&& crossed(c1.book)
    &&& !bo.spec_is_aon() && !ao.spec_is_aon()
    &&& c2.orders@ == executed_in(executed_in(c1.orders@, bid_id, pair_quantity(bo, ao)), ask_id, pair_quantity(bo, ao))
    &&& side_volume(c2.book.bids@) + pair_quantity(bo, ao) == side_volume(c1.book.bids@)
    &&& side_volume(c2.book.asks@) + pair_quantity(bo, ao) == side_volume(c1.book.asks@)
    &&& stop_sides_same(c2.book, c1.book)
    &&& traded_at(c2.book, c1.book, pair_price(bo, ao))
}

/// `c2` is `c1` after its bid and ask sides, one of whose best fronts is
/// all-or-none, traded their exact chain: each side gave up that volume,
/// best level first and oldest first, at the all-or-none order's price.
pub open spec fn chain_step(c1: ExecutionContext, c2: ExecutionContext) -> bool {
    let bo = front_order(c1.book, c1.orders@, true);
    let ao = front_order(c1.book, c1.orders@, false);
    let chain = chain_cross_start(flat_side(c1.book.bids@, c1.orders@), flat_side(c1.book.asks@, c1.orders@));
    &&& crossed(c1.book)
    &&& bo.spec_is_aon() || ao.spec_is_aon()
    &&& chain != 0
    &&& flat_side(c2.book.bids@, c2.orders@) == rest_of(flat_side(c1.book.bids@, c1.orders@), chain, 0)
    &&& flat_side(c2.book.asks@, c2.orders@) == rest_of(flat_side(c1.book.asks@, c1.orders@), chain, 0)
    &&& side_volume(c2.book.bids@) + chain == side_volume(c1.book.bids@)
    &&& side_volume(c2.book.asks@) + chain == side_volume(c1.book.asks@)
    &&& stop_sides_same(c2.book, c1.book)
    &&& traded_at(c2.book, c1.book, if bo.spec_is_aon() {
        bo.price
    } else {
        ao.price
    })
}

/// `c2` is `c1` after the best plain stop level of either side had its
/// turn at the market price: activated when triggered, `c1` itself when
/// not.
pub open spec fn level_step(c1: ExecutionContext, c2: ExecutionContext) -> bool {
    ||| level_activated(c1, c2, BookKind::Stop, true, c1.book.market_ask())
    ||| level_activated(c1, c2, BookKind::Stop, false, c1.book.market_bid())
}

/// `c2` is `c1` after rounds of stop activation; see `stop_rounds`.
pub open spec fn rounds_step(c1: ExecutionContext, c2: ExecutionContext) -> bool {
    exists|rs: Seq<ExecutionContext>| #[trigger] stop_rounds(rs, c1, c2)
}

/// `c2` is `c1` after a single round of stop activation that triggered
/// nothing.
pub open spec fn quiet_step(c1: ExecutionContext, c2: ExecutionContext) -> bool {
    exists|rs: Seq<ExecutionContext>| #[trigger] stop_rounds(rs, c1, c2) && rs.len() <= 2
}

/// One step of matching a book with itself.
pub open spec fn book_step(c1: ExecutionContext, c2: ExecutionContext) -> bool {
    pair_step(c1, c2) || chain_step(c1, c2) || level_step(c1, c2) || rounds_step(c1, c2)
}

/// How matching a book with itself starts from `c0`: a crossed book whose
/// front orders are not all-or-none trades them; one with an
/// all-or-none front order trades the exact chain, or stays as it is when
/// there is none; a book that does not cross goes to stop activation.
pub open spec fn trace_opens(cs: Seq<ExecutionContext>, c0: ExecutionContext) -> bool {
    if crossed(c0.book) {
        if front_order(c0.book, c0.orders@, true).spec_is_aon() || front_order(
            c0.book,
            c0.orders@,
            false,
        ).spec_is_aon() {
            (cs.len() > 1 && chain_step(cs[0], cs[1])) || (cs.len() == 1 && aon_stuck(c0))
        } else {
            cs.len() > 1 && pair_step(cs[0], cs[1])
        }
    } else {
        cs.len() > 1 && rounds_step(cs[0], cs[1])
    }
}

/// How matching a book with itself ends at `c`: unless the book is left
/// crossed, with a round of stop activation that triggered nothing.
pub open spec fn trace_closes(cs: Seq<ExecutionContext>, c: ExecutionContext) -> bool {
    !crossed(c.book) ==> cs.len() > 1 && quiet_step(cs[cs.len() - 2], c)
}

/// The engines `cs` lead from `c0` to `c`, each from the one before by
/// one step of matching the book with itself.
pub open spec fn book_trace(cs: Seq<ExecutionContext>, c0: ExecutionContext, c: ExecutionContext) -> bool {
    &&& cs.len() > 0
    &&& cs[0] == c0
    &&& cs.last() == c
    &&& forall|j: int| 0 <= j < cs.len() - 1 ==> #[trigger] book_step(cs[j], cs[j + 1])
}

/// One more step extends a trace.
proof fn lemma_book_trace_push(cs: Seq<ExecutionContext>, c0: ExecutionContext, c1: ExecutionContext, c2: ExecutionContext)
    requires
        book_trace(cs, c0, c1),
        book_step(c1, c2),
    ensures
        book_trace(cs.push(c2), c0, c2),
{
    let t = cs.push(c2);
    assert forall|j: int| 0 <= j < t.len() - 1 implies #[trigger] book_step(t[j], t[j + 1]) by {
        if j < cs.len() - 1 {
            assert(t[j] == cs[j] && t[j + 1] == cs[j + 1]);
        } else {
            assert(t[j] == c1);
        }
    }
}

/// A trace from `c0` to `c` that has taken no step yet is at `c0`, and
/// one that has opens as `trace_opens` says.
#[verifier::opaque]
spec fn opened(cs: Seq<ExecutionContext>, c0: ExecutionContext, c: ExecutionContext) -> bool {
    &&& cs.len() == 1 ==> c == c0
    &&& cs.len() > 1 ==> trace_opens(cs, c0)
}

/// A trace that has taken no step is opened.
proof fn lemma_opened_start(c0: ExecutionContext)
    ensures
        opened(seq![c0], c0, c0),
{
    reveal(opened);
}

/// One more step keeps a trace opened; the first step must open it.
proof fn lemma_opened_push(cs: Seq<ExecutionContext>, c0: ExecutionContext, c1: ExecutionContext, c2: ExecutionContext)
    requires
        opened(cs, c0, c1),
        cs.len() >= 1,
        cs[0] == c0,
        cs.len() == 1 ==> trace_opens(seq![c1, c2], c1),
    ensures
        opened(cs.push(c2), c0, c2),
        cs.len() == 1 ==> c1 == c0,
{
    reveal(opened);
    let t = cs.push(c2);
    if cs.len() == 1 {
        assert(t[0] == cs[0]);
        assert(t =~= seq![c1, c2]) by {
            assert(cs[0] == c0);
        }
    } else {
        assert(t[0] == cs[0] && t[1] == cs[1]);
    }
}

/// A trace opened from `c0` that took a step, or stayed at a book stuck
/// on all-or-none orders, opens as `trace_opens` says.
proof fn lemma_opened_final(cs: Seq<ExecutionContext>, c0: ExecutionContext, c: ExecutionContext)
    requires
        opened(cs, c0, c),
        cs.len() >= 1,
        cs.len() == 1 ==> aon_stuck(c),
    ensures
        trace_opens(cs, c0),
{
    reveal(opened);
}

/// `c` is what matching the book of `c0` with itself gives; see
/// `ExecutionContext::match_order_book`.
pub open spec fn book_matched(c0: ExecutionContext, c: ExecutionContext) -> bool {
    &&& c.symbol == c0.symbol
    &&& changes_only(c0.orders@, c.orders@, c0.symbol)
    &&& no_new_orders(c0.orders@, c.orders@)
    &&& only_executed(c0.orders@, c.orders@)
    &&& stop_volume(c0.book) == 0 ==> balanced(c0.book, c.book)
    &&& !crossed(c.book) || aon_stuck(c)
    &&& !crossed(c.book) ==> !stop_triggered(c.book, BookKind::Stop, true, c.book.market_ask())
        && !stop_triggered(c.book, BookKind::Stop, false, c.book.market_bid())
    &&& !crossed(c.book) ==> next_trailing_price(c.book, true) == c.book.trailing_ask_price
        && next_trailing_price(c.book, false) == c.book.trailing_bid_price
    &&& exists|cs: Seq<ExecutionContext>|
        #[trigger] book_trace(cs, c0, c) && trace_opens(cs, c0) && trace_closes(cs, c)
}

/// The bid side lost as much volume as the ask side between `b0` and `b`.
pub open spec fn balanced(b0: OrderBook, b: OrderBook) -> bool {
    side_volume(b0.bids@) - side_volume(b.bids@) == side_volume(b0.asks@) - side_volume(b.asks@)
}

/// The best bid is at or above the best ask.
pub open spec fn crossed(b: OrderBook) -> bool {
    b.bids@.len() > 0 && b.asks@.len() > 0 && b.bids@[0].price >= b.asks@[0].price
}

/// The book is crossed, an all-or-none order is at the front of the best
/// bid or the best ask, and the two sides have no chain that fills each
/// other exactly: matching cannot go on.
pub open spec fn aon_stuck(c: ExecutionContext) -> bool {
    &&& crossed(c.book)
    &&& front_order(c.book, c.orders@, true).spec_is_aon() || front_order(
        c.book,
        c.orders@,
        false,
    ).spec_is_aon()
    &&& chain_cross_start(flat_side(c.book.bids@, c.orders@), flat_side(c.book.asks@, c.orders@))
        == 0
}

impl ExecutionContext {
    /// Trades the oldest orders of the best bid and the best ask, neither
    /// all-or-none: the smaller one is executed whole at its own price and
    /// the other by the same quantity.
    #[verifier::spinoff_prover]
    fn trade_fronts(&mut self, bid_id: u64, ask_id: u64, bo: Order, ao: Order)
        requires
            old(self).wf(),
            old(self).book.bids@.len() > 0,
            old(self).book.asks@.len() > 0,
            bid_id == old(self).book.bids@[0].queue()[0],
            ask_id == old(self).book.asks@[0].queue()[0],
            old(self).book.bids@[0].queue().len() > 0,
            old(self).book.asks@[0].queue().len() > 0,
            crate::consistency::order_fits(old(self).orders@, bid_id, BookKind::Limit, true, old(self).symbol, old(self).book.bids@[0].price),
            crate::consistency::order_fits(old(self).orders@, ask_id, BookKind::Limit, false, old(self).symbol, old(self).book.asks@[0].price),
            bo == old(self).orders@[bid_id],
            ao == old(self).orders@[ask_id],
        ensures
            final(self).wf(),
            final(self).symbol == old(self).symbol,
            changes_only(old(self).orders@, final(self).orders@, old(self).symbol),
            no_new_orders(old(self).orders@, final(self).orders@),
            only_executed(old(self).orders@, final(self).orders@),
            stop_sides_same(final(self).book, old(self).book),
            limit_volume(final(self).book) < limit_volume(old(self).book),
            final(self).orders@ == executed_in(
                executed_in(old(self).orders@, bid_id, pair_quantity(bo, ao)),
                ask_id,
                pair_quantity(bo, ao),
            ),
            side_volume(final(self).book.bids@) + pair_quantity(bo, ao) == side_volume(
                old(self).book.bids@,
            ),
            side_volume(final(self).book.asks@) + pair_quantity(bo, ao) == side_volume(
                old(self).book.asks@,
            ),
            traded_at(final(self).book, old(self).book, pair_price(bo, ao)),
    {
        let ghost start = *self;
        let bid_executes = bo.leaves_quantity <= ao.leaves_quantity;
        let (ex_id, ex, red_id, red) = if bid_executes {
            (bid_id, bo, ask_id, ao)
        } else {
            (ask_id, ao, bid_id, bo)
        };
        let q = ex.leaves_quantity;
        let price = ex.price;
        self.book.update_last_price(&ex, price);
        self.book.update_matching_price(&ex, price);
        proof {
            lemma_book_ok_prices(start.book, self.book, self.symbol, self.orders@);
            lemma_same_sides(self.book, start.book);
        }
        let ghost s1 = *self;
        self.reduce_resting(ex_id, q, true);
        let ghost s2 = *self;
        proof {
            crate::engine::lemma_limit_change(s2.book, s1.book, ex.spec_is_buy());
            assert(ex_id != red_id);
        }
        self.book.update_last_price(&red, price);
        self.book.update_matching_price(&red, price);
        proof {
            lemma_book_ok_prices(s2.book, self.book, self.symbol, self.orders@);
            lemma_same_sides(self.book, s2.book);
        }
        let ghost s3 = *self;
        self.reduce_resting(red_id, q, true);
        proof {
            crate::engine::lemma_limit_change(self.book, s3.book, red.spec_is_buy());
            assert(s3.orders@ == s2.orders@);
            assert(s2.orders@ =~= executed_in(start.orders@, ex_id, q));
            assert(s3.orders@[red_id] == red);
            assert(self.orders@ =~= executed_in(s3.orders@, red_id, q));
            if !bid_executes {
                assert(executed_in(executed_in(start.orders@, ask_id, q), bid_id, q) =~= executed_in(
                    executed_in(start.orders@, bid_id, q),
                    ask_id,
                    q,
                ));
            }
            lemma_changes_only_trans(start.orders@, s2.orders@, self.orders@, start.symbol);
            lemma_reduce_only_executes(s1, s2, ex_id, q, true);
            lemma_reduce_only_executes(s3, *self, red_id, q, true);
            lemma_only_executed_trans(start.orders@, s2.orders@, self.orders@);
        }
    }

    /// Trades the exact chain `chain` between the bid and the ask sides at
    /// the price of the all-or-none front order, the bid's when it is one:
    /// that side first, then the other.
    fn trade_chain(&mut self, bo: Order, ao: Order, chain: u64)
        requires
            old(self).wf(),
            old(self).book.bids@.len() > 0,
            old(self).book.asks@.len() > 0,
            old(self).book.bids@[0].queue().len() > 0,
            old(self).book.asks@[0].queue().len() > 0,
            bo == front_order(old(self).book, old(self).orders@, true),
            ao == front_order(old(self).book, old(self).orders@, false),
            bo.spec_is_aon() || ao.spec_is_aon(),
            chain != 0,
            chain == chain_cross_start(
                flat_side(old(self).book.bids@, old(self).orders@),
                flat_side(old(self).book.asks@, old(self).orders@),
            ),
        ensures
            final(self).wf(),
            final(self).symbol == old(self).symbol,
            changes_only(old(self).orders@, final(self).orders@, old(self).symbol),
            no_new_orders(old(self).orders@, final(self).orders@),
            only_executed(old(self).orders@, final(self).orders@),
            stop_sides_same(final(self).book, old(self).book),
            limit_volume(final(self).book) + 2 * chain == limit_volume(old(self).book),
            side_volume(final(self).book.bids@) + chain == side_volume(old(self).book.bids@),
            side_volume(final(self).book.asks@) + chain == side_volume(old(self).book.asks@),
            flat_side(final(self).book.bids@, final(self).orders@) == rest_of(
                flat_side(old(self).book.bids@, old(self).orders@),
                chain,
                0,
            ),
            flat_side(final(self).book.asks@, final(self).orders@) == rest_of(
                flat_side(old(self).book.asks@, old(self).orders@),
                chain,
                0,
            ),
            traded_at(final(self).book, old(self).book, if bo.spec_is_aon() {
                bo.price
            } else {
                ao.price
            }),
    {
        let ghost start = *self;
        proof {
            lemma_chain_covers_fronts(
                flat_side(self.book.bids@, self.orders@),
                flat_side(self.book.asks@, self.orders@),
            );
            lemma_flat_side_first(self.book.bids@, self.orders@);
            lemma_flat_side_first(self.book.asks@, self.orders@);
            crate::matching::lemma_cross_chain_fills_both_sides(
                flat_side(self.book.bids@, self.orders@),
                flat_side(self.book.asks@, self.orders@),
            );
        }
        if bo.is_aon() {
            let price = bo.price;
            self.execute_matching_chain(true, price, chain);
            let ghost s1 = *self;
            self.execute_matching_chain(false, price, chain);
            proof {
                lemma_changes_only_trans(start.orders@, s1.orders@, self.orders@, start.symbol);
                lemma_only_executed_trans(start.orders@, s1.orders@, self.orders@);
            }
        } else {
            let price = ao.price;
            self.execute_matching_chain(false, price, chain);
            let ghost s1 = *self;
            self.execute_matching_chain(true, price, chain);
            proof {
                lemma_changes_only_trans(start.orders@, s1.orders@, self.orders@, start.symbol);
                lemma_only_executed_trans(start.orders@, s1.orders@, self.orders@);
            }
        }
    }
}

impl ExecutionContext {
    /// Whether the best bid is at or above the best ask.
    fn is_crossed(&self) -> (b: bool)
        ensures
            b == crossed(self.book),
    {
        self.book.bids.len() > 0 && self.book.asks.len() > 0 && self.book.bids[0].price
            >= self.book.asks[0].price
    }

    /// Matches the book with itself: while the best bid crosses the best
    /// ask, the oldest orders of the two best levels trade, the smaller
    /// one whole at its own price and the other by the same quantity,
    /// until one of the two levels is used up; an all-or-none order at
    /// either front makes the two sides trade their exact chain instead,
    /// at the all-or-none order's price, and stops matching when there is
    /// none. After each pair of levels the stop levels the market reached
    /// are activated, and when the book no longer crosses, stop orders are
    /// activated until none is triggered, matching again after each round.
    /// The engine goes through a sequence of states (`book_trace`), each
    /// reached from the one before by a trade of the two front orders
    /// (`pair_step`), a trade of an exact chain (`chain_step`), the turn of
    /// the best plain stop level of a side at the market price
    /// (`level_step`), or rounds of stop activation (`rounds_step`). The
    /// first step is the trade of the front orders, or of their chain, when
    /// the book crosses, and stop activation when it does not
    /// (`trace_opens`); unless the book is left crossed, the last step is a
    /// round of stop activation that triggered nothing (`trace_closes`).
    /// Every order still there afterwards has at most had some of its
    /// remaining quantity executed, and when the book holds no stop order
    /// the bid side loses exactly as much volume as the ask side. Ends with
    /// a book that does not cross, where neither plain stop side is
    /// triggered at the market prices and the trailing prices are settled,
    /// or with a crossed book that is stuck on all-or-none orders, where
    /// it stops without activating stop orders.
    pub fn match_order_book(&mut self)
        requires
            old(self).wf(),
        ensures
            final(self).wf(),
            book_matched(*old(self), *final(self)),
    {
        let ghost start = *self;
        let ghost mut cs: Seq<ExecutionContext> = seq![*self];
        proof {
            lemma_opened_start(start);
        }
        loop
            invariant
                start == *old(self),
                self.wf(),
                self.symbol == start.symbol,
                changes_only(start.orders@, self.orders@, start.symbol),
                no_new_orders(start.orders@, self.orders@),
                only_executed(start.orders@, self.orders@),
                stop_volume(start.book) == 0 ==> stop_volume(self.book) == 0 && balanced(start.book, self.book),
                book_trace(cs, start, *self),
                opened(cs, start, *self),            ensures
                self.wf(),
                self.symbol == start.symbol,
                changes_only(start.orders@, self.orders@, start.symbol),
                no_new_orders(start.orders@, self.orders@),
                only_executed(start.orders@, self.orders@),
                stop_volume(start.book) == 0 ==> stop_volume(self.book) == 0 && balanced(start.book, self.book),
                book_trace(cs, start, *self),
                opened(cs, start, *self),                !crossed(self.book) || aon_stuck(*self),
                !crossed(self.book) ==> !stop_triggered(self.book, BookKind::Stop, true, self.book.market_ask())
                    && !stop_triggered(self.book, BookKind::Stop, false, self.book.market_bid()),
                !crossed(self.book) ==> next_trailing_price(self.book, true) == self.book.trailing_ask_price
                    && next_trailing_price(self.book, false) == self.book.trailing_bid_price,
                cs.len() > 1,
                trace_closes(cs, *self),
            decreases stop_volume(self.book),
        {
            let ghost outer = *self;
            loop
                invariant
                    start == *old(self),
                    self.wf(),
                    self.symbol == start.symbol,
                    changes_only(start.orders@, self.orders@, start.symbol),
                    no_new_orders(start.orders@, self.orders@),
                    only_executed(start.orders@, self.orders@),
                    stop_volume(start.book) == 0 ==> stop_volume(self.book) == 0 && balanced(start.book, self.book),
                    book_trace(cs, start, *self),
                    opened(cs, start, *self),                    stop_volume(self.book) <= stop_volume(outer.book),
                ensures
                    self.wf(),
                    self.symbol == start.symbol,
                    changes_only(start.orders@, self.orders@, start.symbol),
                    no_new_orders(start.orders@, self.orders@),
                    only_executed(start.orders@, self.orders@),
                    stop_volume(start.book) == 0 ==> stop_volume(self.book) == 0 && balanced(start.book, self.book),
                    book_trace(cs, start, *self),
                    opened(cs, start, *self),                    stop_volume(self.book) <= stop_volume(outer.book),
                    !crossed(self.book),
                decreases stop_volume(self.book), limit_volume(self.book),
            {
                if !self.is_crossed() {
                    break;
                }
                let ghost middle = *self;
                let pb = self.book.bids[0].price;
                let pa = self.book.asks[0].price;
                loop
                    invariant
                        start == *old(self),
                        self.wf(),
                        self.symbol == start.symbol,
                        changes_only(start.orders@, self.orders@, start.symbol),
                        no_new_orders(start.orders@, self.orders@),
                        only_executed(start.orders@, self.orders@),
                        stop_volume(start.book) == 0 ==> stop_volume(self.book) == 0 && balanced(start.book, self.book),
                        book_trace(cs, start, *self),
                        opened(cs, start, *self),                        stop_sides_same(self.book, middle.book),
                        limit_volume(self.book) <= limit_volume(middle.book),
                        self.same_state(&middle) || limit_volume(self.book) < limit_volume(middle.book),
                        self.same_state(&middle) || cs.len() > 1,
                        middle.book.bids@.len() > 0,
                        middle.book.asks@.len() > 0,
                        middle.book.bids@[0].price == pb,
                        middle.book.asks@[0].price == pa,
                        pb >= pa,
                        stop_volume(middle.book) <= stop_volume(outer.book),
                    ensures
                        self.wf(),
                        self.symbol == start.symbol,
                        changes_only(start.orders@, self.orders@, start.symbol),
                        no_new_orders(start.orders@, self.orders@),
                        only_executed(start.orders@, self.orders@),
                        stop_volume(start.book) == 0 ==> stop_volume(self.book) == 0 && balanced(start.book, self.book),
                        book_trace(cs, start, *self),
                        opened(cs, start, *self),                        stop_sides_same(self.book, middle.book),
                        limit_volume(self.book) < limit_volume(middle.book),
                        cs.len() > 1,
                    decreases limit_volume(self.book),
                {
                    if self.book.bids.len() == 0 || self.book.asks.len() == 0
                        || self.book.bids[0].price != pb || self.book.asks[0].price != pa {
                        break;
                    }
                    proof {
                        crate::matching::lemma_front_live(*self, true);
                        crate::matching::lemma_front_live(*self, false);
                    }
                    let bid_id = self.book.bids[0].order_list.list[0];
                    let ask_id = self.book.asks[0].order_list.list[0];
                    let bo = self.orders.find(bid_id).unwrap();
                    let ao = self.orders.find(ask_id).unwrap();
                    let ghost step = *self;
                    if bo.is_aon() || ao.is_aon() {
                        let chain = self.calculate_matching_chain_cross_levels();
                        if chain == 0 {
                            proof {
                                assert(crossed(self.book));
                                assert(aon_stuck(*self));
                                lemma_opened_final(cs, start, *self);
                            }
                            return;
                        }
                        self.trade_chain(bo, ao, chain);
                        proof {
                            lemma_book_trace_push(cs, start, step, *self);
                            lemma_opened_push(cs, start, step, *self);
                            cs = cs.push(*self);
                            lemma_changes_only_trans(start.orders@, step.orders@, self.orders@, start.symbol);
                            lemma_only_executed_trans(start.orders@, step.orders@, self.orders@);
                        }
                        break;
                    }
                    self.trade_fronts(bid_id, ask_id, bo, ao);
                    proof {
                        lemma_book_trace_push(cs, start, step, *self);
                        lemma_opened_push(cs, start, step, *self);
                        cs = cs.push(*self);
                        lemma_changes_only_trans(start.orders@, step.orders@, self.orders@, start.symbol);
                        lemma_only_executed_trans(start.orders@, step.orders@, self.orders@);
                    }
                }
                let ghost paired = *self;
                let ask_price = self.book.get_market_ask_price();
                self.activate_stop_orders_level(true, ask_price);
                let ghost a1 = *self;
                proof {
                    lemma_book_trace_push(cs, start, paired, a1);
                    lemma_opened_push(cs, start, paired, a1);
                    cs = cs.push(a1);
                }
                let bid_price = self.book.get_market_bid_price();
                self.activate_stop_orders_level(false, bid_price);
                proof {
                    lemma_book_trace_push(cs, start, a1, *self);
                    lemma_opened_push(cs, start, a1, *self);
                    cs = cs.push(*self);
                    lemma_changes_only_trans(start.orders@, paired.orders@, a1.orders@, start.symbol);
                    lemma_changes_only_trans(start.orders@, a1.orders@, self.orders@, start.symbol);
                    lemma_only_executed_trans(start.orders@, paired.orders@, a1.orders@);
                    lemma_only_executed_trans(start.orders@, a1.orders@, self.orders@);
                }
            }
            let ghost settled = *self;
            let activated = self.activate_stop_orders();
            proof {
                lemma_book_trace_push(cs, start, settled, *self);
                lemma_opened_push(cs, start, settled, *self);
                cs = cs.push(*self);
                lemma_changes_only_trans(start.orders@, settled.orders@, self.orders@, start.symbol);
                lemma_only_executed_trans(start.orders@, settled.orders@, self.orders@);
            }
            if !activated {
                break;
            }
        }
        proof {
            lemma_opened_final(cs, start, *self);
        }
    }
}

} // verus!
