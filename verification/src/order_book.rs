use vstd::prelude::*;

use crate::level::{lemma_first_index_of, Level, LevelType, LevelUpdate, UpdateType};
use crate::levels::{better, insert, remove, find_node_by_price, get_next_higher_level, get_next_lower_level, has_level, side_add_order, side_can_add, side_reduce, side_wf, sorted_side, side_added, side_reduced, level_added, level_reduced};
use crate::order::{Order, OrderType};

verus! {

/// Errors of order book lookups.
#[derive(Clone, Copy, Debug, PartialEq, Eq, Structural)]
pub enum OrderBookError {
    OrderNotFound,
    LevelNotFound,
}

/// The three pairs of sides of a book: limit orders, stop orders and
/// trailing stop orders.
#[derive(Clone, Copy, Debug, PartialEq, Eq, Structural)]
pub enum BookKind {
    Limit,
    Stop,
    TrailingStop,
}

/// The pair of sides an order rests on, by its type.
pub open spec fn kind_of(o: Order) -> BookKind {
    if o.order_type == OrderType::Limit {
        BookKind::Limit
    } else if o.order_type == OrderType::TrailingStop || o.order_type
        == OrderType::TrailingStopLimit {
        BookKind::TrailingStop
    } else {
        BookKind::Stop
    }
}

/// The price by which an order is queued: its limit price on the limit
/// sides, its stop price on the stop sides.
pub open spec fn key_of(o: Order) -> u64 {
    if o.order_type == OrderType::Limit {
        o.price
    } else {
        o.stop_price
    }
}

/// Whether a side is ordered by increasing price: asks, buy stops and
/// trailing buy stops.
pub open spec fn side_asc(kind: BookKind, buy: bool) -> bool {
    if kind == BookKind::Limit {
        !buy
    } else {
        buy
    }
}

/// The level type of a side: bids, sell stops and trailing sell stops
/// hold bid levels.
pub open spec fn side_type(kind: BookKind, buy: bool) -> LevelType {
    if side_asc(kind, buy) {
        LevelType::Ask
    } else {
        LevelType::Bid
    }
}

/// An order book of one symbol. Every side holds its levels best first:
/// bids by decreasing price, asks by increasing price, buy stops by
/// increasing stop price, sell stops by decreasing stop price.
pub struct OrderBook {
    pub bids: Vec<Level>,
    pub asks: Vec<Level>,
    pub buy_stop: Vec<Level>,
    pub sell_stop: Vec<Level>,
    pub trailing_buy_stop: Vec<Level>,
    pub trailing_sell_stop: Vec<Level>,
    pub last_bid_price: u64,
    pub last_ask_price: u64,
    pub matching_bid_price: u64,
    pub matching_ask_price: u64,
    pub trailing_bid_price: u64,
    pub trailing_ask_price: u64,
}

/// `b1` is `b0` with limit order `o` added to its side, and `u` reports
/// the level that took it: a new level (`Add`) or an existing one
/// (`Update`).
pub open spec fn book_added(b1: OrderBook, b0: OrderBook, o: Order, u: LevelUpdate) -> bool {
    &&& b1.same_except(&b0, BookKind::Limit, o.spec_is_buy())
    &&& exists|r: (bool, usize)|
        #[trigger] side_added(
            b1.side(BookKind::Limit, o.spec_is_buy()),
            b0.side(BookKind::Limit, o.spec_is_buy()),
            side_type(BookKind::Limit, o.spec_is_buy()),
            o.price,
            o,
            r,
        ) && u.update_type == (if r.0 {
            UpdateType::Add
        } else {
            UpdateType::Update
        }) && level_snapshot(u.update, b1.side(BookKind::Limit, o.spec_is_buy())[r.1 as int])
}

/// `b1` is `b0` with all of limit order `o` taken out of its side, and `u`
/// reports its level: removed (`Delete`) or still holding volume
/// (`Update`).
pub open spec fn book_deleted(b1: OrderBook, b0: OrderBook, o: Order, u: LevelUpdate) -> bool {
    &&& b1.same_except(&b0, BookKind::Limit, o.spec_is_buy())
    &&& exists|r: (bool, Level)|
        #[trigger] side_reduced(
            b1.side(BookKind::Limit, o.spec_is_buy()),
            b0.side(BookKind::Limit, o.spec_is_buy()),
            o.price,
            o.id,
            o.leaves_quantity,
            o.hidden() as u64,
            o.visible() as u64,
            true,
            r,
        ) && u.update_type == (if r.0 {
            UpdateType::Delete
        } else {
            UpdateType::Update
        }) && level_snapshot(u.update, r.1)
}

impl OrderBook {
    /// One side of the book.
    pub open spec fn side(&self, kind: BookKind, buy: bool) -> Seq<Level> {
        match kind {
            BookKind::Limit => if buy {
                self.bids@
            } else {
                self.asks@
            },
            BookKind::Stop => if buy {
                self.buy_stop@
            } else {
                self.sell_stop@
            },
            BookKind::TrailingStop => if buy {
                self.trailing_buy_stop@
            } else {
                self.trailing_sell_stop@
            },
        }
    }

    /// Every side is ordered best first and holds levels of its type.
    pub open spec fn wf(&self) -> bool {
        &&& side_wf(self.bids@, false, LevelType::Bid)
        &&& side_wf(self.asks@, true, LevelType::Ask)
        &&& side_wf(self.buy_stop@, true, LevelType::Ask)
        &&& side_wf(self.sell_stop@, false, LevelType::Bid)
        &&& side_wf(self.trailing_buy_stop@, true, LevelType::Ask)
        &&& side_wf(self.trailing_sell_stop@, false, LevelType::Bid)
    }

    /// The market prices of the book.
    pub open spec fn same_prices(&self, other: &OrderBook) -> bool {
        &&& self.last_bid_price == other.last_bid_price
        &&& self.last_ask_price == other.last_ask_price
        &&& self.matching_bid_price == other.matching_bid_price
        &&& self.matching_ask_price == other.matching_ask_price
        &&& self.trailing_bid_price == other.trailing_bid_price
        &&& self.trailing_ask_price == other.trailing_ask_price
    }

    /// `self` differs from `other` at most in the given side.
    pub open spec fn same_except(&self, other: &OrderBook, kind: BookKind, buy: bool) -> bool {
        &&& self.same_prices(other)
        &&& forall|k: BookKind, b: bool|
            !(k == kind && b == buy) ==> #[trigger] self.side(k, b) == other.side(k, b)
    }

    /// `self` and `other` have the same levels.
    pub open spec fn same_sides(&self, other: &OrderBook) -> bool {
        forall|k: BookKind, b: bool| #[trigger] self.side(k, b) == other.side(k, b)
    }

    /// The market ask price: the best ask, or the matching ask price when
    /// that is lower.
    pub open spec fn market_ask(&self) -> u64 {
        let best = if self.asks@.len() > 0 {
            self.asks@[0].price
        } else {
            u64::MAX
        };
        if best < self.matching_ask_price {
            best
        } else {
            self.matching_ask_price
        }
    }

    /// The market bid price: the best bid, or the matching bid price when
    /// that is higher.
    pub open spec fn market_bid(&self) -> u64 {
        let best = if self.bids@.len() > 0 {
            self.bids@[0].price
        } else {
            0
        };
        if best > self.matching_bid_price {
            best
        } else {
            self.matching_bid_price
        }
    }

    /// The ask price trailing buy stops follow: the best ask, or the last
    /// ask price when that is higher.
    pub open spec fn trailing_ask(&self) -> u64 {
        let best = if self.asks@.len() > 0 {
            self.asks@[0].price
        } else {
            u64::MAX
        };
        if self.last_ask_price > best {
            self.last_ask_price
        } else {
            best
        }
    }

    /// The bid price trailing sell stops follow: the best bid, or the last
    /// bid price when that is lower.
    pub open spec fn trailing_bid(&self) -> u64 {
        let best = if self.bids@.len() > 0 {
            self.bids@[0].price
        } else {
            0
        };
        if self.last_bid_price < best {
            self.last_bid_price
        } else {
            best
        }
    }

    /// An empty book: no levels, and every last, matching and trailing
    /// price zero.
    pub fn new() -> (b: OrderBook)
        ensures
            b.wf(),
            forall|k: BookKind, bb: bool| #[trigger] b.side(k, bb).len() == 0,
            b.last_bid_price == 0,
            b.last_ask_price == 0,
            b.matching_bid_price == 0,
            b.matching_ask_price == 0,
            b.trailing_bid_price == 0,
            b.trailing_ask_price == 0,
    {
        OrderBook {
            bids: Vec::new(),
            asks: Vec::new(),
            buy_stop: Vec::new(),
            sell_stop: Vec::new(),
            trailing_buy_stop: Vec::new(),
            trailing_sell_stop: Vec::new(),
            last_bid_price: 0,
            last_ask_price: 0,
            matching_bid_price: 0,
            matching_ask_price: 0,
            trailing_bid_price: 0,
            trailing_ask_price: 0,
        }
    }

    /// The best bid level.
    pub fn best_bid(&self) -> (r: Option<&Level>)
        ensures
            r == (if self.bids@.len() > 0 {
                Some(&self.bids@[0])
            } else {
                None
            }),
    {
        if self.bids.len() > 0 {
            Some(&self.bids[0])
        } else {
            None
        }
    }

    /// The best ask level.
    pub fn best_ask(&self) -> (r: Option<&Level>)
        ensures
            r == (if self.asks@.len() > 0 {
                Some(&self.asks@[0])
            } else {
                None
            }),
    {
        if self.asks.len() > 0 {
            Some(&self.asks[0])
        } else {
            None
        }
    }

    /// The buy stop level with the lowest stop price.
    pub fn best_buy_stop(&self) -> (r: Option<&Level>)
        ensures
            r == (if self.buy_stop@.len() > 0 {
                Some(&self.buy_stop@[0])
            } else {
                None
            }),
    {
        if self.buy_stop.len() > 0 {
            Some(&self.buy_stop[0])
        } else {
            None
        }
    }

    /// The sell stop level with the highest stop price.
    pub fn best_sell_stop(&self) -> (r: Option<&Level>)
        ensures
            r == (if self.sell_stop@.len() > 0 {
                Some(&self.sell_stop@[0])
            } else {
                None
            }),
    {
        if self.sell_stop.len() > 0 {
            Some(&self.sell_stop[0])
        } else {
            None
        }
    }

    /// The trailing buy stop level with the lowest stop price.
    pub fn best_trailing_buy_stop(&self) -> (r: Option<&Level>)
        ensures
            r == (if self.trailing_buy_stop@.len() > 0 {
                Some(&self.trailing_buy_stop@[0])
            } else {
                None
            }),
    {
        if self.trailing_buy_stop.len() > 0 {
            Some(&self.trailing_buy_stop[0])
        } else {
            None
        }
    }

    /// The trailing sell stop level with the highest stop price.
    pub fn best_trailing_sell_stop(&self) -> (r: Option<&Level>)
        ensures
            r == (if self.trailing_sell_stop@.len() > 0 {
                Some(&self.trailing_sell_stop@[0])
            } else {
                None
            }),
    {
        if self.trailing_sell_stop.len() > 0 {
            Some(&self.trailing_sell_stop[0])
        } else {
            None
        }
    }
}

/// The level at `price` on a side, if any.
fn level_by_price(levels: &Vec<Level>, price: u64) -> (r: Option<&Level>)
    ensures
        match r {
            Some(l) => exists|i: int|
                0 <= i < levels@.len() && levels@[i] == *l && (#[trigger] levels@[i]).price
                    == price,
            None => !has_level(levels@, price),
        },
{
    match find_node_by_price(levels, price) {
        Some(i) => Some(&levels[i]),
        None => None,
    }
}

impl OrderBook {
    /// The bid level at `price`.
    pub fn get_bid(&self, price: u64) -> (r: Option<&Level>)
        ensures
            match r {
                Some(l) => l.price == price && self.bids@.contains(*l),
                None => !has_level(self.bids@, price),
            },
    {
        level_by_price(&self.bids, price)
    }

    /// The ask level at `price`.
    pub fn get_ask(&self, price: u64) -> (r: Option<&Level>)
        ensures
            match r {
                Some(l) => l.price == price && self.asks@.contains(*l),
                None => !has_level(self.asks@, price),
            },
    {
        level_by_price(&self.asks, price)
    }

    /// The trailing buy stop level at stop price `price`.
    pub fn get_trailing_buy_stop_level(&self, price: u64) -> (r: Option<&Level>)
        ensures
            match r {
                Some(l) => l.price == price && self.trailing_buy_stop@.contains(*l),
                None => !has_level(self.trailing_buy_stop@, price),
            },
    {
        level_by_price(&self.trailing_buy_stop, price)
    }

    /// The trailing sell stop level at stop price `price`.
    pub fn get_trailing_sell_stop_level(&self, price: u64) -> (r: Option<&Level>)
        ensures
            match r {
                Some(l) => l.price == price && self.trailing_sell_stop@.contains(*l),
                None => !has_level(self.trailing_sell_stop@, price),
            },
    {
        level_by_price(&self.trailing_sell_stop, price)
    }

    /// The level that follows `level` in priority on the limit side of its
    /// type: the next lower bid, or the next higher ask.
    pub fn get_next_level(&self, level: &Level) -> (r: Option<&Level>)
        requires
            sorted_side(self.bids@, false),
            sorted_side(self.asks@, true),
        ensures
            level.level_type == LevelType::Bid ==> match r {
                Some(l) => self.bids@.contains(*l) && l.price < level.price && forall|j: int|
                    0 <= j < self.bids@.len() && (#[trigger] self.bids@[j]).price < level.price
                        ==> self.bids@[j].price <= l.price,
                None => forall|j: int|
                    0 <= j < self.bids@.len() ==> (#[trigger] self.bids@[j]).price >= level.price,
            },
            level.level_type == LevelType::Ask ==> match r {
                Some(l) => self.asks@.contains(*l) && l.price > level.price && forall|j: int|
                    0 <= j < self.asks@.len() && (#[trigger] self.asks@[j]).price > level.price
                        ==> self.asks@[j].price >= l.price,
                None => forall|j: int|
                    0 <= j < self.asks@.len() ==> (#[trigger] self.asks@[j]).price <= level.price,
            },
    {
        if level.is_bid() {
            match get_next_lower_level(&self.bids, level.price) {
                Some(i) => {
                    let l = &self.bids[i];
                    assert(self.bids@[i as int] == *l);
                    Some(l)
                },
                None => None,
            }
        } else {
            match get_next_higher_level(&self.asks, level.price) {
                Some(i) => {
                    let l = &self.asks[i];
                    assert(self.asks@[i as int] == *l);
                    Some(l)
                },
                None => None,
            }
        }
    }

    /// The index of the level that follows the level at `price` on the
    /// limit side of the given type.
    pub fn get_next_level_node(&self, level_type: LevelType, price: u64) -> (r: Option<usize>)
        requires
            self.wf(),
        ensures
            level_type == LevelType::Bid ==> match r {
                Some(i) => i < self.bids@.len() && self.bids@[i as int].price < price && forall|
                    j: int,
                | 0 <= j < i ==> (#[trigger] self.bids@[j]).price >= price,
                None => forall|j: int|
                    0 <= j < self.bids@.len() ==> (#[trigger] self.bids@[j]).price >= price,
            },
            level_type == LevelType::Ask ==> match r {
                Some(i) => i < self.asks@.len() && self.asks@[i as int].price > price && forall|
                    j: int,
                | 0 <= j < i ==> (#[trigger] self.asks@[j]).price <= price,
                None => forall|j: int|
                    0 <= j < self.asks@.len() ==> (#[trigger] self.asks@[j]).price <= price,
            },
    {
        match level_type {
            LevelType::Bid => get_next_lower_level(&self.bids, price),
            LevelType::Ask => get_next_higher_level(&self.asks, price),
        }
    }

    /// The level that follows `level` in priority among the trailing stop
    /// levels of its type: the next lower trailing sell stop, or the next
    /// higher trailing buy stop.
    pub fn get_next_trailing_stop_level(&self, level: &Level) -> (r: Option<&Level>)
        requires
            sorted_side(self.trailing_sell_stop@, false),
            sorted_side(self.trailing_buy_stop@, true),
        ensures
            level.level_type == LevelType::Bid ==> match r {
                Some(l) => self.trailing_sell_stop@.contains(*l) && l.price < level.price
                    && forall|j: int|
                    0 <= j < self.trailing_sell_stop@.len() && (
                    #[trigger] self.trailing_sell_stop@[j]).price < level.price
                        ==> self.trailing_sell_stop@[j].price <= l.price,
                None => forall|j: int|
                    0 <= j < self.trailing_sell_stop@.len() ==> (
                    #[trigger] self.trailing_sell_stop@[j]).price >= level.price,
            },
            level.level_type == LevelType::Ask ==> match r {
                Some(l) => self.trailing_buy_stop@.contains(*l) && l.price > level.price
                    && forall|j: int|
                    0 <= j < self.trailing_buy_stop@.len() && (
                    #[trigger] self.trailing_buy_stop@[j]).price > level.price
                        ==> self.trailing_buy_stop@[j].price >= l.price,
                None => forall|j: int|
                    0 <= j < self.trailing_buy_stop@.len() ==> (
                    #[trigger] self.trailing_buy_stop@[j]).price <= level.price,
            },
    {
        if level.is_bid() {
            match get_next_lower_level(&self.trailing_sell_stop, level.price) {
                Some(i) => {
                    let l = &self.trailing_sell_stop[i];
                    assert(self.trailing_sell_stop@[i as int] == *l);
                    Some(l)
                },
                None => None,
            }
        } else {
            match get_next_higher_level(&self.trailing_buy_stop, level.price) {
                Some(i) => {
                    let l = &self.trailing_buy_stop[i];
                    assert(self.trailing_buy_stop@[i as int] == *l);
                    Some(l)
                },
                None => None,
            }
        }
    }
}

impl OrderBook {
    /// Adds `order` at `key` on one side, creating its level when needed.
    pub(crate) fn add_to_side(&mut self, kind: BookKind, buy: bool, key: u64, order: &Order) -> (r: (
        bool,
        usize,
    ))
        requires
            old(self).wf(),
            side_can_add(old(self).side(kind, buy), key, *order),
        ensures
            final(self).wf(),
            final(self).same_except(old(self), kind, buy),
            side_added(
                final(self).side(kind, buy),
                old(self).side(kind, buy),
                side_type(kind, buy),
                key,
                *order,
                r,
            ),
    {
        match kind {
            BookKind::Limit => if buy {
                side_add_order(&mut self.bids, false, LevelType::Bid, key, order)
            } else {
                side_add_order(&mut self.asks, true, LevelType::Ask, key, order)
            },
            BookKind::Stop => if buy {
                side_add_order(&mut self.buy_stop, true, LevelType::Ask, key, order)
            } else {
                side_add_order(&mut self.sell_stop, false, LevelType::Bid, key, order)
            },
            BookKind::TrailingStop => if buy {
                side_add_order(&mut self.trailing_buy_stop, true, LevelType::Ask, key, order)
            } else {
                side_add_order(&mut self.trailing_sell_stop, false, LevelType::Bid, key, order)
            },
        }
    }

    /// Reduces the level at `key` on one side, deleting it when empty.
    pub(crate) fn reduce_in_side(
        &mut self,
        kind: BookKind,
        buy: bool,
        key: u64,
        id: u64,
        quantity: u64,
        hidden: u64,
        visible: u64,
        unlink: bool,
    ) -> (r: (bool, Level))
        requires
            old(self).wf(),
            side_can_reduce(old(self).side(kind, buy), key, quantity, hidden, visible),
        ensures
            final(self).wf(),
            final(self).same_except(old(self), kind, buy),
            side_reduced(
                final(self).side(kind, buy),
                old(self).side(kind, buy),
                key,
                id,
                quantity,
                hidden,
                visible,
                unlink,
                r,
            ),
    {
        match kind {
            BookKind::Limit => if buy {
                side_reduce(&mut self.bids, false, LevelType::Bid, key, id, quantity, hidden, visible, unlink)
            } else {
                side_reduce(&mut self.asks, true, LevelType::Ask, key, id, quantity, hidden, visible, unlink)
            },
            BookKind::Stop => if buy {
                side_reduce(&mut self.buy_stop, true, LevelType::Ask, key, id, quantity, hidden, visible, unlink)
            } else {
                side_reduce(&mut self.sell_stop, false, LevelType::Bid, key, id, quantity, hidden, visible, unlink)
            },
            BookKind::TrailingStop => if buy {
                side_reduce(&mut self.trailing_buy_stop, true, LevelType::Ask, key, id, quantity, hidden, visible, unlink)
            } else {
                side_reduce(&mut self.trailing_sell_stop, false, LevelType::Bid, key, id, quantity, hidden, visible, unlink)
            },
        }
    }

    /// Whether the side's best level is at `key`.
    pub(crate) fn is_best(&self, kind: BookKind, buy: bool, key: u64) -> (b: bool)
        ensures
            b == (self.side(kind, buy).len() > 0 && self.side(kind, buy)[0].price == key),
    {
        let s = match kind {
            BookKind::Limit => if buy {
                &self.bids
            } else {
                &self.asks
            },
            BookKind::Stop => if buy {
                &self.buy_stop
            } else {
                &self.sell_stop
            },
            BookKind::TrailingStop => if buy {
                &self.trailing_buy_stop
            } else {
                &self.trailing_sell_stop
            },
        };
        s.len() > 0 && s[0].price == key
    }

    /// Adds a limit order to the level at its price, creating the level
    /// when needed, and reports the level's change.
    pub fn add_order(&mut self, order: &Order) -> (u: LevelUpdate)
        requires
            old(self).wf(),
            side_can_add(old(self).side(BookKind::Limit, order.spec_is_buy()), order.price, *order),
        ensures
            final(self).wf(),
            book_added(*final(self), *old(self), *order, u),
            u.top == (r_top(final(self).side(BookKind::Limit, order.spec_is_buy()), order.price)),
    {
        let buy = order.is_buy();
        let r = self.add_to_side(BookKind::Limit, buy, order.price, order);
        let snap = if buy {
            self.bids[r.1].snapshot()
        } else {
            self.asks[r.1].snapshot()
        };
        let top = self.is_best(BookKind::Limit, buy, order.price);
        LevelUpdate {
            update_type: if r.0 {
                UpdateType::Add
            } else {
                UpdateType::Update
            },
            update: snap,
            top,
        }
    }

    /// Reduces the level of a limit order by the given volumes, unlinking
    /// the order when nothing of it is left, and deletes the level when its
    /// total volume becomes zero. Reports the level's change; `top` tells
    /// whether the level was the best of its side.
    pub fn reduce_order(&mut self, order: &Order, quantity: u64, hidden: u64, visible: u64) -> (u:
        LevelUpdate)
        requires
            old(self).wf(),
            side_can_reduce(
                old(self).side(BookKind::Limit, order.spec_is_buy()),
                order.price,
                quantity,
                hidden,
                visible,
            ),
        ensures
            final(self).wf(),
            final(self).same_except(old(self), BookKind::Limit, order.spec_is_buy()),
            exists|r: (bool, Level)|
                #[trigger] side_reduced(
                    final(self).side(BookKind::Limit, order.spec_is_buy()),
                    old(self).side(BookKind::Limit, order.spec_is_buy()),
                    order.price,
                    order.id,
                    quantity,
                    hidden,
                    visible,
                    no_leaves(*order),
                    r,
                ) && u.update_type == (if r.0 {
                    UpdateType::Delete
                } else {
                    UpdateType::Update
                }) && level_snapshot(u.update, r.1),
            u.top == r_top(old(self).side(BookKind::Limit, order.spec_is_buy()), order.price),
    {
        let buy = order.is_buy();
        let top = self.is_best(BookKind::Limit, buy, order.price);
        let r = self.reduce_in_side(
            BookKind::Limit,
            buy,
            order.price,
            order.id,
            quantity,
            hidden,
            visible,
            order.leaves_quantity == 0,
        );
        assert(side_reduced(
            self.side(BookKind::Limit, buy),
            old(self).side(BookKind::Limit, buy),
            order.price,
            order.id,
            quantity,
            hidden,
            visible,
            no_leaves(*order),
            r,
        ));
        LevelUpdate {
            update_type: if r.0 {
                UpdateType::Delete
            } else {
                UpdateType::Update
            },
            update: r.1,
            top,
        }
    }

    /// Takes a limit order out of its level, deleting the level when its
    /// total volume becomes zero, and reports the level's change.
    pub fn delete_order(&mut self, order: &Order) -> (u: LevelUpdate)
        requires
            old(self).wf(),
            side_can_reduce(
                old(self).side(BookKind::Limit, order.spec_is_buy()),
                order.price,
                order.leaves_quantity,
                order.hidden() as u64,
                order.visible() as u64,
            ),
        ensures
            final(self).wf(),
            book_deleted(*final(self), *old(self), *order, u),
            u.top == r_top(old(self).side(BookKind::Limit, order.spec_is_buy()), order.price),
    {
        let buy = order.is_buy();
        let top = self.is_best(BookKind::Limit, buy, order.price);
        let r = self.reduce_in_side(
            BookKind::Limit,
            buy,
            order.price,
            order.id,
            order.leaves_quantity,
            order.hidden_quantity(),
            order.visible_quantity(),
            true,
        );
        LevelUpdate {
            update_type: if r.0 {
                UpdateType::Delete
            } else {
                UpdateType::Update
            },
            update: r.1,
            top,
        }
    }

    /// Adds a stop or stop-limit order to the stop level at its stop
    /// price, creating the level when needed.
    pub fn add_stop_order(&mut self, order: &Order)
        requires
            old(self).wf(),
            side_can_add(old(self).side(BookKind::Stop, order.spec_is_buy()), order.stop_price, *order),
        ensures
            final(self).wf(),
            final(self).same_except(old(self), BookKind::Stop, order.spec_is_buy()),
            exists|r: (bool, usize)|
                #[trigger] side_added(
                    final(self).side(BookKind::Stop, order.spec_is_buy()),
                    old(self).side(BookKind::Stop, order.spec_is_buy()),
                    side_type(BookKind::Stop, order.spec_is_buy()),
                    order.stop_price,
                    *order,
                    r,
                ),
    {
        let buy = order.is_buy();
        let _r = self.add_to_side(BookKind::Stop, buy, order.stop_price, order);
    }

    /// Reduces the stop level of a stop order by the given volumes,
    /// unlinking the order when nothing of it is left, and deletes the
    /// level when its total volume becomes zero.
    pub fn reduce_stop_order(&mut self, order: &Order, quantity: u64, hidden: u64, visible: u64)
        requires
            old(self).wf(),
            side_can_reduce(
                old(self).side(BookKind::Stop, order.spec_is_buy()),
                order.stop_price,
                quantity,
                hidden,
                visible,
            ),
        ensures
            final(self).wf(),
            final(self).same_except(old(self), BookKind::Stop, order.spec_is_buy()),
            exists|r: (bool, Level)|
                #[trigger] side_reduced(
                    final(self).side(BookKind::Stop, order.spec_is_buy()),
                    old(self).side(BookKind::Stop, order.spec_is_buy()),
                    order.stop_price,
                    order.id,
                    quantity,
                    hidden,
                    visible,
                    no_leaves(*order),
                    r,
                ),
    {
        let buy = order.is_buy();
        let _r = self.reduce_in_side(
            BookKind::Stop,
            buy,
            order.stop_price,
            order.id,
            quantity,
            hidden,
            visible,
            order.leaves_quantity == 0,
        );
        assert(side_reduced(
            self.side(BookKind::Stop, buy),
            old(self).side(BookKind::Stop, buy),
            order.stop_price,
            order.id,
            quantity,
            hidden,
            visible,
            no_leaves(*order),
            _r,
        ));
    }

    /// Takes a stop order out of its stop level, deleting the level when
    /// its total volume becomes zero.
    pub fn delete_stop_order(&mut self, order: &Order)
        requires
            old(self).wf(),
            side_can_reduce(
                old(self).side(BookKind::Stop, order.spec_is_buy()),
                order.stop_price,
                order.leaves_quantity,
                order.hidden() as u64,
                order.visible() as u64,
            ),
        ensures
            final(self).wf(),
            final(self).same_except(old(self), BookKind::Stop, order.spec_is_buy()),
            exists|r: (bool, Level)|
                #[trigger] side_reduced(
                    final(self).side(BookKind::Stop, order.spec_is_buy()),
                    old(self).side(BookKind::Stop, order.spec_is_buy()),
                    order.stop_price,
                    order.id,
                    order.leaves_quantity,
                    order.hidden() as u64,
                    order.visible() as u64,
                    true,
                    r,
                ),
    {
        let buy = order.is_buy();
        let _r = self.reduce_in_side(
            BookKind::Stop,
            buy,
            order.stop_price,
            order.id,
            order.leaves_quantity,
            order.hidden_quantity(),
            order.visible_quantity(),
            true,
        );
    }

    /// Adds a trailing stop order to the trailing stop level at its stop
    /// price, creating the level when needed.
    pub fn add_trailing_stop_order(&mut self, order: &Order)
        requires
            old(self).wf(),
            side_can_add(
                old(self).side(BookKind::TrailingStop, order.spec_is_buy()),
                order.stop_price,
                *order,
            ),
        ensures
            final(self).wf(),
            final(self).same_except(old(self), BookKind::TrailingStop, order.spec_is_buy()),
            exists|r: (bool, usize)|
                #[trigger] side_added(
                    final(self).side(BookKind::TrailingStop, order.spec_is_buy()),
                    old(self).side(BookKind::TrailingStop, order.spec_is_buy()),
                    side_type(BookKind::TrailingStop, order.spec_is_buy()),
                    order.stop_price,
                    *order,
                    r,
                ),
    {
        let buy = order.is_buy();
        let _r = self.add_to_side(BookKind::TrailingStop, buy, order.stop_price, order);
    }

    /// Reduces the trailing stop level of an order by the given volumes,
    /// unlinking the order when nothing of it is left, and deletes the
    /// level when its total volume becomes zero.
    pub fn reduce_trailing_stop_order(
        &mut self,
        order: &Order,
        quantity: u64,
        hidden: u64,
        visible: u64,
    )
        requires
            old(self).wf(),
            side_can_reduce(
                old(self).side(BookKind::TrailingStop, order.spec_is_buy()),
                order.stop_price,
                quantity,
                hidden,
                visible,
            ),
        ensures
            final(self).wf(),
            final(self).same_except(old(self), BookKind::TrailingStop, order.spec_is_buy()),
            exists|r: (bool, Level)|
                #[trigger] side_reduced(
                    final(self).side(BookKind::TrailingStop, order.spec_is_buy()),
                    old(self).side(BookKind::TrailingStop, order.spec_is_buy()),
                    order.stop_price,
                    order.id,
                    quantity,
                    hidden,
                    visible,
                    no_leaves(*order),
                    r,
                ),
    {
        let buy = order.is_buy();
        let _r = self.reduce_in_side(
            BookKind::TrailingStop,
            buy,
            order.stop_price,
            order.id,
            quantity,
            hidden,
            visible,
            order.leaves_quantity == 0,
        );
        assert(side_reduced(
            self.side(BookKind::TrailingStop, buy),
            old(self).side(BookKind::TrailingStop, buy),
            order.stop_price,
            order.id,
            quantity,
            hidden,
            visible,
            no_leaves(*order),
            _r,
        ));
    }

    /// Takes a trailing stop order out of its level, deleting the level
    /// when its total volume becomes zero.
    pub fn delete_trailing_stop_order(&mut self, order: &Order)
        requires
            old(self).wf(),
            side_can_reduce(
                old(self).side(BookKind::TrailingStop, order.spec_is_buy()),
                order.stop_price,
                order.leaves_quantity,
                order.hidden() as u64,
                order.visible() as u64,
            ),
        ensures
            final(self).wf(),
            final(self).same_except(old(self), BookKind::TrailingStop, order.spec_is_buy()),
            exists|r: (bool, Level)|
                #[trigger] side_reduced(
                    final(self).side(BookKind::TrailingStop, order.spec_is_buy()),
                    old(self).side(BookKind::TrailingStop, order.spec_is_buy()),
                    order.stop_price,
                    order.id,
                    order.leaves_quantity,
                    order.hidden() as u64,
                    order.visible() as u64,
                    true,
                    r,
                ),
    {
        let buy = order.is_buy();
        let _r = self.reduce_in_side(
            BookKind::TrailingStop,
            buy,
            order.stop_price,
            order.id,
            order.leaves_quantity,
            order.hidden_quantity(),
            order.visible_quantity(),
            true,
        );
    }
}

impl OrderBook {
    /// The market ask price: the best ask, or the matching ask price when
    /// that is lower.
    pub fn get_market_ask_price(&self) -> (p: u64)
        ensures
            p == self.market_ask(),
    {
        let best = if self.asks.len() > 0 {
            self.asks[0].price
        } else {
            u64::MAX
        };
        if best < self.matching_ask_price {
            best
        } else {
            self.matching_ask_price
        }
    }

    /// The market bid price: the best bid, or the matching bid price when
    /// that is higher.
    pub fn get_market_bid_price(&self) -> (p: u64)
        ensures
            p == self.market_bid(),
    {
        let best = if self.bids.len() > 0 {
            self.bids[0].price
        } else {
            0
        };
        if best > self.matching_bid_price {
            best
        } else {
            self.matching_bid_price
        }
    }

    /// The price trailing buy stops follow: the higher of the best ask and
    /// the last ask price.
    pub fn get_market_trailing_stop_price_ask(&self) -> (p: u64)
        ensures
            p == self.trailing_ask(),
    {
        let best = if self.asks.len() > 0 {
            self.asks[0].price
        } else {
            u64::MAX
        };
        if self.last_ask_price > best {
            self.last_ask_price
        } else {
            best
        }
    }

    /// The price trailing sell stops follow: the lower of the best bid and
    /// the last bid price.
    pub fn get_market_trailing_stop_price_bid(&self) -> (p: u64)
        ensures
            p == self.trailing_bid(),
    {
        let best = if self.bids.len() > 0 {
            self.bids[0].price
        } else {
            0
        };
        if self.last_bid_price < best {
            self.last_bid_price
        } else {
            best
        }
    }

    /// Forgets the prices of the current matching round.
    pub fn reset_matching_price(&mut self)
        ensures
            final(self).matching_bid_price == 0,
            final(self).matching_ask_price == u64::MAX,
            final(self).same_sides(old(self)),
            final(self).last_bid_price == old(self).last_bid_price,
            final(self).last_ask_price == old(self).last_ask_price,
            final(self).trailing_bid_price == old(self).trailing_bid_price,
            final(self).trailing_ask_price == old(self).trailing_ask_price,
    {
        self.matching_bid_price = 0;
        self.matching_ask_price = u64::MAX;
    }

    /// Records `price` as the last price traded on the order's side.
    pub fn update_last_price(&mut self, order: &Order, price: u64)
        ensures
            order.spec_is_buy() ==> final(self).last_bid_price == price && final(self).last_ask_price
                == old(self).last_ask_price,
            !order.spec_is_buy() ==> final(self).last_ask_price == price
                && final(self).last_bid_price == old(self).last_bid_price,
            final(self).same_sides(old(self)),
            final(self).matching_bid_price == old(self).matching_bid_price,
            final(self).matching_ask_price == old(self).matching_ask_price,
            final(self).trailing_bid_price == old(self).trailing_bid_price,
            final(self).trailing_ask_price == old(self).trailing_ask_price,
    {
        if order.is_buy() {
            self.last_bid_price = price;
        } else {
            self.last_ask_price = price;
        }
    }

    /// Records `price` as the matching price on the order's side.
    pub fn update_matching_price(&mut self, order: &Order, price: u64)
        ensures
            order.spec_is_buy() ==> final(self).matching_bid_price == price
                && final(self).matching_ask_price == old(self).matching_ask_price,
            !order.spec_is_buy() ==> final(self).matching_ask_price == price
                && final(self).matching_bid_price == old(self).matching_bid_price,
            final(self).same_sides(old(self)),
            final(self).last_bid_price == old(self).last_bid_price,
            final(self).last_ask_price == old(self).last_ask_price,
            final(self).trailing_bid_price == old(self).trailing_bid_price,
            final(self).trailing_ask_price == old(self).trailing_ask_price,
    {
        if order.is_buy() {
            self.matching_bid_price = price;
        } else {
            self.matching_ask_price = price;
        }
    }

    /// Whether the order rests in the best limit level of its side: false
    /// for an order that is queued in no level of the best price.
    pub fn is_top_of_book(&self, order: &Order) -> (b: bool)
        ensures
            b == queued_at_top(self.side(BookKind::Limit, order.spec_is_buy()), order.id),
    {
        let s = self.side_ref(BookKind::Limit, order.is_buy());
        if s.len() == 0 {
            return false;
        }
        let q = &s[0].order_list.list;
        let mut j: usize = 0;
        while j < q.len()
            invariant
                s@ == self.side(BookKind::Limit, order.spec_is_buy()),
                s@.len() > 0,
                q@ == s@[0].queue(),
                j <= q@.len(),
                forall|k: int| 0 <= k < j ==> q@[k] != order.id,
            decreases q@.len() - j,
        {
            if q[j] == order.id {
                return true;
            }
            j = j + 1;
        }
        false
    }

    /// Nothing to do for a trailing stop order here: trailing stops move
    /// when the trailing stop prices are recalculated.
    pub fn on_trailing_stop(&mut self, order: &Order)
        ensures
            *final(self) == *old(self),
    {
    }

    /// The trailing stop price of `order` at the book's current trailing
    /// market price.
    pub open spec fn trailing_stop_price(&self, o: Order) -> u64 {
        trailing_stop_price_at(
            o,
            if o.spec_is_buy() {
                self.trailing_ask()
            } else {
                self.trailing_bid()
            },
        )
    }

    /// The new stop price of a trailing stop order: the market price moved
    /// away by the trailing distance, taken only when it is better than the
    /// current stop price by at least the trailing step.
    pub fn calculate_trailing_stop_price(&self, order: &Order) -> (p: u64)
        ensures
            p == self.trailing_stop_price(*order),
    {
        let market_price = if order.is_buy() {
            self.get_market_trailing_stop_price_ask()
        } else {
            self.get_market_trailing_stop_price_bid()
        };
        trailing_stop_price_exec(order, market_price)
    }

    /// Creates an empty level at `price` on the limit side of the given
    /// type, unless the side already has one. Returns the level's index.
    pub fn create_and_insert_level(&mut self, price: u64, level_type: LevelType) -> (idx: usize)
        requires
            old(self).wf(),
        ensures
            final(self).wf(),
            final(self).same_except(old(self), BookKind::Limit, level_type == LevelType::Bid),
            level_created(
                final(self).side(BookKind::Limit, level_type == LevelType::Bid),
                old(self).side(BookKind::Limit, level_type == LevelType::Bid),
                level_type,
                price,
                idx,
            ),
    {
        match level_type {
            LevelType::Bid => create_level(&mut self.bids, false, LevelType::Bid, price),
            LevelType::Ask => create_level(&mut self.asks, true, LevelType::Ask, price),
        }
    }

    /// Creates the limit level at the order's price on the order's side,
    /// unless there is one. Returns the level's index.
    pub fn add_level(&mut self, order: &Order) -> (idx: usize)
        requires
            old(self).wf(),
        ensures
            final(self).wf(),
            final(self).same_except(old(self), BookKind::Limit, order.spec_is_buy()),
            level_created(
                final(self).side(BookKind::Limit, order.spec_is_buy()),
                old(self).side(BookKind::Limit, order.spec_is_buy()),
                side_type(BookKind::Limit, order.spec_is_buy()),
                order.price,
                idx,
            ),
    {
        if order.is_buy() {
            create_level(&mut self.bids, false, LevelType::Bid, order.price)
        } else {
            create_level(&mut self.asks, true, LevelType::Ask, order.price)
        }
    }

    /// Removes the limit level at the order's price from the order's side
    /// and returns it.
    pub fn delete_level(&mut self, order: &Order) -> (r: Option<Level>)
        requires
            old(self).wf(),
        ensures
            final(self).wf(),
            final(self).same_except(old(self), BookKind::Limit, order.spec_is_buy()),
            level_removed(
                final(self).side(BookKind::Limit, order.spec_is_buy()),
                old(self).side(BookKind::Limit, order.spec_is_buy()),
                order.price,
                r,
            ),
    {
        if order.is_buy() {
            remove_level(&mut self.bids, false, LevelType::Bid, order.price)
        } else {
            remove_level(&mut self.asks, true, LevelType::Ask, order.price)
        }
    }

    /// Creates the stop level at the order's stop price, unless there is
    /// one. Returns the level's index.
    pub fn add_stop_level(&mut self, order: &Order) -> (idx: usize)
        requires
            old(self).wf(),
        ensures
            final(self).wf(),
            final(self).same_except(old(self), BookKind::Stop, order.spec_is_buy()),
            level_created(
                final(self).side(BookKind::Stop, order.spec_is_buy()),
                old(self).side(BookKind::Stop, order.spec_is_buy()),
                side_type(BookKind::Stop, order.spec_is_buy()),
                order.stop_price,
                idx,
            ),
    {
        if order.is_buy() {
            create_level(&mut self.buy_stop, true, LevelType::Ask, order.stop_price)
        } else {
            create_level(&mut self.sell_stop, false, LevelType::Bid, order.stop_price)
        }
    }

    /// Removes the stop level at the order's stop price and returns it.
    pub fn delete_stop_level(&mut self, order: &Order) -> (r: Option<Level>)
        requires
            old(self).wf(),
        ensures
            final(self).wf(),
            final(self).same_except(old(self), BookKind::Stop, order.spec_is_buy()),
            level_removed(
                final(self).side(BookKind::Stop, order.spec_is_buy()),
                old(self).side(BookKind::Stop, order.spec_is_buy()),
                order.stop_price,
                r,
            ),
    {
        if order.is_buy() {
            remove_level(&mut self.buy_stop, true, LevelType::Ask, order.stop_price)
        } else {
            remove_level(&mut self.sell_stop, false, LevelType::Bid, order.stop_price)
        }
    }

    /// Creates the trailing stop level at the order's stop price, unless
    /// there is one. Returns the level's index.
    pub fn add_trailing_stop_level(&mut self, order: &Order) -> (idx: usize)
        requires
            old(self).wf(),
        ensures
            final(self).wf(),
            final(self).same_except(old(self), BookKind::TrailingStop, order.spec_is_buy()),
            level_created(
                final(self).side(BookKind::TrailingStop, order.spec_is_buy()),
                old(self).side(BookKind::TrailingStop, order.spec_is_buy()),
                side_type(BookKind::TrailingStop, order.spec_is_buy()),
                order.stop_price,
                idx,
            ),
    {
        if order.is_buy() {
            create_level(&mut self.trailing_buy_stop, true, LevelType::Ask, order.stop_price)
        } else {
            create_level(&mut self.trailing_sell_stop, false, LevelType::Bid, order.stop_price)
        }
    }

    /// Removes the trailing stop level at the order's stop price and
    /// returns it.
    pub fn delete_trailing_stop_level(&mut self, order: &Order) -> (r: Option<Level>)
        requires
            old(self).wf(),
        ensures
            final(self).wf(),
            final(self).same_except(old(self), BookKind::TrailingStop, order.spec_is_buy()),
            level_removed(
                final(self).side(BookKind::TrailingStop, order.spec_is_buy()),
                old(self).side(BookKind::TrailingStop, order.spec_is_buy()),
                order.stop_price,
                r,
            ),
    {
        if order.is_buy() {
            remove_level(&mut self.trailing_buy_stop, true, LevelType::Ask, order.stop_price)
        } else {
            remove_level(&mut self.trailing_sell_stop, false, LevelType::Bid, order.stop_price)
        }
    }

    /// Adds the volumes of `order` to `level` and queues the order there.
    pub fn link_order(level: &mut Level, order: &Order)
        requires
            old(level).can_add(*order),
        ensures
            level_added(*final(level), *old(level), *order),
    {
        level.add_volumes(order);
        level.link_order(order);
    }

    /// Subtracts the volumes of `order` from `level` and takes the order
    /// out of its queue.
    pub fn unlink_order(level: &mut Level, order: &Order)
        requires
            old(level).wf(),
            old(level).total_volume >= order.leaves_quantity,
            old(level).hidden_volume >= order.hidden(),
            old(level).visible_volume >= order.visible(),
        ensures
            level_reduced(
                *final(level),
                *old(level),
                order.id,
                order.leaves_quantity,
                order.hidden() as u64,
                order.visible() as u64,
                true,
            ),
    {
        proof {
            lemma_first_index_of(level.queue(), order.id);
        }
        level.subtract_volumes(order);
        level.unlink_order(order);
    }
}

/// `new` is side `old` with an empty level of type `t` at `price`
/// inserted at `idx`, or `old` itself when it had a level at `price`.
pub open spec fn level_created(new: Seq<Level>, old: Seq<Level>, t: LevelType, price: u64, idx: usize) -> bool {
    &&& idx < new.len()
    &&& new[idx as int].price == price
    &&& has_level(old, price) ==> new == old
    &&& !has_level(old, price) ==> new == old.insert(idx as int, new[idx as int]) && new[idx as int].level_type == t
        && new[idx as int].queue().len() == 0 && new[idx as int].total_volume == 0
        && new[idx as int].hidden_volume == 0 && new[idx as int].visible_volume == 0
}

/// `new` is side `old` without its level at `price`, which `r` holds.
pub open spec fn level_removed(new: Seq<Level>, old: Seq<Level>, price: u64, r: Option<Level>) -> bool {
    match r {
        Some(l) => l.price == price && exists|i: int|
            0 <= i < old.len() && #[trigger] old[i] == l && new == old.remove(i),
        None => !has_level(old, price) && new == old,
    }
}

/// Creates an empty level at `price` unless the side has one.
fn create_level(levels: &mut Vec<Level>, asc: bool, t: LevelType, price: u64) -> (idx: usize)
    requires
        side_wf(old(levels)@, asc, t),
    ensures
        side_wf(final(levels)@, asc, t),
        level_created(final(levels)@, old(levels)@, t, price, idx),
{
    match find_node_by_price(levels, price) {
        Some(i) => i,
        None => {
            let lv = Level::with_price(t, price);
            let idx = insert(levels, lv, asc);
            proof {
                assert forall|j: int| 0 <= j < levels@.len() implies (#[trigger] levels@[j]).level_type
                    == t && levels@[j].wf() by {
                    if j < idx {
                        assert(levels@[j] == old(levels)@[j]);
                    } else if j > idx {
                        assert(levels@[j] == old(levels)@[j - 1]);
                    }
                }
            }
            idx
        },
    }
}

/// Removes the level at `price` from a side.
fn remove_level(levels: &mut Vec<Level>, asc: bool, t: LevelType, price: u64) -> (r: Option<Level>)
    requires
        side_wf(old(levels)@, asc, t),
    ensures
        side_wf(final(levels)@, asc, t),
        level_removed(final(levels)@, old(levels)@, price, r),
{
    let r = remove(levels, price);
    proof {
        if r is Some {
            let i = choose|i: int|
                0 <= i < old(levels)@.len() && old(levels)@[i] == r->0 && levels@ == old(
                    levels,
                )@.remove(i);
            assert(old(levels)@[i] == r->0);
            assert forall|a: int, b: int| 0 <= a < b < levels@.len() implies better(
                asc,
                #[trigger] levels@[a].price,
                #[trigger] levels@[b].price,
            ) by {
                let o = old(levels)@;
                if b < i {
                    assert(levels@[a] == o[a] && levels@[b] == o[b]);
                } else if a < i {
                    assert(levels@[a] == o[a] && levels@[b] == o[b + 1]);
                } else {
                    assert(levels@[a] == o[a + 1] && levels@[b] == o[b + 1]);
                }
            }
            assert forall|j: int| 0 <= j < levels@.len() implies (#[trigger] levels@[j]).level_type
                == t && levels@[j].wf() by {
                if j < i {
                    assert(levels@[j] == old(levels)@[j]);
                } else {
                    assert(levels@[j] == old(levels)@[j + 1]);
                }
            }
        }
    }
    r
}

/// `x * market / 10000`, capped at `u64::MAX`.
#[verifier::opaque]
pub open spec fn percent_of(x: int, market: u64) -> u64 {
    let v = x * market / 10000;
    if v > u64::MAX {
        u64::MAX
    } else {
        v as u64
    }
}

/// The absolute trailing distance of `o` at market price `market`.
pub open spec fn trailing_distance_abs(o: Order, market: u64) -> u64 {
    if o.trailing_distance < 0 {
        percent_of(-o.trailing_distance, market)
    } else {
        o.trailing_distance as u64
    }
}

/// The absolute trailing step of `o` at market price `market`; `None`
/// when the step's sign does not match the distance's, which holds the
/// stop price where it is.
pub open spec fn trailing_step_abs(o: Order, market: u64) -> Option<u64> {
    if o.trailing_distance < 0 {
        if o.trailing_step <= 0 {
            Some(percent_of(-o.trailing_step, market))
        } else {
            None
        }
    } else {
        if o.trailing_step >= 0 {
            Some(o.trailing_step as u64)
        } else {
            None
        }
    }
}

/// The stop price of trailing order `o` at market price `market`: a buy
/// stop follows the market down to market plus distance, a sell stop
/// follows it up to market minus distance, each only by at least a step.
pub open spec fn trailing_stop_price_at(o: Order, market: u64) -> u64 {
    let dist = trailing_distance_abs(o, market);
    let old_price = o.stop_price;
    match trailing_step_abs(o, market) {
        None => old_price,
        Some(step) => if o.spec_is_buy() {
            let new_price: u64 = if market + dist > u64::MAX {
                u64::MAX
            } else {
                (market + dist) as u64
            };
            if new_price < old_price && old_price - new_price >= step {
                new_price
            } else {
                old_price
            }
        } else {
            let new_price: u64 = if market < dist {
                0
            } else {
                (market - dist) as u64
            };
            if new_price > old_price && new_price - old_price >= step {
                new_price
            } else {
                old_price
            }
        },
    }
}

/// `x * market / 10000` for `0 <= x <= 2^63`, capped at `u64::MAX`.
fn percent_of_exec(x: u64, market: u64) -> (r: u64)
    requires
        x <= 0x8000_0000_0000_0000,
    ensures
        r == percent_of(x as int, market),
{
    proof {
        reveal(percent_of);
    }
    let a = x as u128;
    let b = market as u128;
    assert(a * b <= 0x8000_0000_0000_0000 * 0xffff_ffff_ffff_ffff) by (nonlinear_arith)
        requires
            a <= 0x8000_0000_0000_0000,
            b <= 0xffff_ffff_ffff_ffff,
    ;
    let v = a * b / 10000;
    if v > u64::MAX as u128 {
        u64::MAX
    } else {
        v as u64
    }
}

/// The magnitude of a negative value.
fn magnitude(x: i64) -> (r: u64)
    requires
        x < 0,
    ensures
        r == -x,
        r <= 0x8000_0000_0000_0000,
{
    if x == i64::MIN {
        0x8000_0000_0000_0000
    } else {
        (-x) as u64
    }
}

fn trailing_stop_price_exec(order: &Order, market: u64) -> (p: u64)
    ensures
        p == trailing_stop_price_at(*order, market),
{
    assert(percent_of(0, market) == 0) by {
        reveal(percent_of);
    }
    let dist: u64 = if order.trailing_distance < 0 {
        percent_of_exec(magnitude(order.trailing_distance), market)
    } else {
        order.trailing_distance as u64
    };
    let step: Option<u64> = if order.trailing_distance < 0 {
        if order.trailing_step < 0 {
            Some(percent_of_exec(magnitude(order.trailing_step), market))
        } else if order.trailing_step == 0 {
            Some(0)
        } else {
            None
        }
    } else {
        if order.trailing_step >= 0 {
            Some(order.trailing_step as u64)
        } else {
            None
        }
    };
    let old_price = order.stop_price;
    match step {
        None => old_price,
        Some(step) => {
            if order.is_buy() {
                let new_price = market.checked_add(dist).unwrap_or(u64::MAX);
                if new_price < old_price && old_price - new_price >= step {
                    new_price
                } else {
                    old_price
                }
            } else {
                let new_price = market.checked_sub(dist).unwrap_or(0);
                if new_price > old_price && new_price - old_price >= step {
                    new_price
                } else {
                    old_price
                }
            }
        },
    }
}

/// A buy trailing stop price never moves up and a sell one never moves
/// down; a move is at least one trailing step.
pub proof fn lemma_trailing_stop_moves_toward_market(o: Order, market: u64)
    ensures
        o.spec_is_buy() ==> trailing_stop_price_at(o, market) <= o.stop_price,
        !o.spec_is_buy() ==> trailing_stop_price_at(o, market) >= o.stop_price,
        trailing_stop_price_at(o, market) != o.stop_price ==> trailing_step_abs(o, market) is Some
            && (if o.spec_is_buy() {
            o.stop_price - trailing_stop_price_at(o, market)
        } else {
            trailing_stop_price_at(o, market) - o.stop_price
        }) >= trailing_step_abs(o, market)->0,
{
}

/// Recalculating at an unchanged market price leaves a recalculated stop
/// price where it is.
pub proof fn lemma_trailing_stop_settles(o: Order, market: u64)
    ensures
        trailing_stop_price_at(
            Order { stop_price: trailing_stop_price_at(o, market), ..o },
            market,
        ) == trailing_stop_price_at(o, market),
{
}

/// `a` carries the same data as `b`.
pub open spec fn level_snapshot(a: Level, b: Level) -> bool {
    &&& a.level_type == b.level_type
    &&& a.price == b.price
    &&& a.total_volume == b.total_volume
    &&& a.hidden_volume == b.hidden_volume
    &&& a.visible_volume == b.visible_volume
    &&& a.queue() == b.queue()
    &&& a.orders == b.orders
}

/// Nothing of the order is left.
pub open spec fn no_leaves(o: Order) -> bool {
    o.leaves_quantity == 0
}

/// Order `id` is queued in the best level of side `s`.
pub open spec fn queued_at_top(s: Seq<Level>, id: u64) -> bool {
    s.len() > 0 && s[0].queue().contains(id)
}

/// The side's best level is at `key`.
pub open spec fn r_top(s: Seq<Level>, key: u64) -> bool {
    s.len() > 0 && s[0].price == key
}

/// The level at `key` can give up the given volumes.
pub open spec fn side_can_reduce(s: Seq<Level>, key: u64, quantity: u64, hidden: u64, visible: u64) -> bool {
    &&& has_level(s, key)
    &&& forall|i: int|
        0 <= i < s.len() && (#[trigger] s[i]).price == key ==> s[i].total_volume >= quantity
            && s[i].hidden_volume >= hidden && s[i].visible_volume >= visible
}

/// The pair of sides `order` rests on.
pub fn book_kind(order: &Order) -> (k: BookKind)
    ensures
        k == kind_of(*order),
{
    if order.order_type == OrderType::Limit {
        BookKind::Limit
    } else if order.order_type == OrderType::TrailingStop || order.order_type
        == OrderType::TrailingStopLimit {
        BookKind::TrailingStop
    } else {
        BookKind::Stop
    }
}

/// The price `order` is queued by.
pub fn book_key(order: &Order) -> (p: u64)
    ensures
        p == key_of(*order),
{
    if order.order_type == OrderType::Limit {
        order.price
    } else {
        order.stop_price
    }
}

impl OrderBook {
    /// One side of the book.
    pub(crate) fn side_ref(&self, kind: BookKind, buy: bool) -> (r: &Vec<Level>)
        ensures
            r@ == self.side(kind, buy),
    {
        match kind {
            BookKind::Limit => if buy {
                &self.bids
            } else {
                &self.asks
            },
            BookKind::Stop => if buy {
                &self.buy_stop
            } else {
                &self.sell_stop
            },
            BookKind::TrailingStop => if buy {
                &self.trailing_buy_stop
            } else {
                &self.trailing_sell_stop
            },
        }
    }

    /// Whether the level at `key` on a side can take the volumes of
    /// `order` without overflow.
    pub(crate) fn can_add_to_side(&self, kind: BookKind, buy: bool, key: u64, order: &Order) -> (b:
        bool)
        requires
            self.wf(),
        ensures
            b == side_can_add(self.side(kind, buy), key, *order),
    {
        let s = self.side_ref(kind, buy);
        proof {
            assert(sorted_side(s@, side_asc(kind, buy)));
        }
        match find_node_by_price(s, key) {
            Some(i) => {
                let l = &s[i];
                let ok = l.total_volume <= u64::MAX - order.leaves_quantity && l.hidden_volume
                    <= u64::MAX - order.hidden_quantity() && l.visible_volume <= u64::MAX
                    - order.visible_quantity() && l.orders < u64::MAX;
                proof {
                    assert forall|j: int| 0 <= j < s@.len() && (#[trigger] s@[j]).price
                        == key implies j == i as int by {
                        crate::levels::lemma_unique_price(s@, side_asc(kind, buy), i as int, j);
                    }
                }
                ok
            },
            None => true,
        }
    }
}

} // verus!
