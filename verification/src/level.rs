use vstd::prelude::*;

use crate::order::Order;

verus! {

/// Which side of the book a price level belongs to.
#[derive(Clone, Copy, Debug, PartialEq, Eq, Structural)]
pub enum LevelType {
    Bid,
    Ask,
}

/// The queue of order ids at a price level, oldest first.
#[derive(Clone, Debug, PartialEq, Eq)]
pub struct OrderList {
    pub list: Vec<u64>,
}

/// The index of the first occurrence of `v` in `s`, or `s.len()`.
pub open spec fn first_index_of(s: Seq<u64>, v: u64) -> int
    decreases s.len(),
{
    if s.len() == 0 {
        0
    } else if s[0] == v {
        0
    } else {
        1 + first_index_of(s.drop_first(), v)
    }
}

pub proof fn lemma_first_index_of(s: Seq<u64>, v: u64)
    ensures
        0 <= first_index_of(s, v) <= s.len(),
        first_index_of(s, v) < s.len() <==> s.contains(v),
        first_index_of(s, v) < s.len() ==> s[first_index_of(s, v)] == v,
        forall|j: int| 0 <= j < first_index_of(s, v) ==> s[j] != v,
    decreases s.len(),
{
    if s.len() > 0 && s[0] != v {
        lemma_first_index_of(s.drop_first(), v);
        if s.contains(v) {
            let k = choose|k: int| 0 <= k < s.len() && s[k] == v;
            assert(s.drop_first()[k - 1] == v);
        }
        assert forall|j: int| 0 <= j < first_index_of(s, v) implies s[j] != v by {
            if j > 0 {
                assert(s[j] == s.drop_first()[j - 1]);
            }
        }
        if s.drop_first().contains(v) {
            let k = choose|k: int| 0 <= k < s.drop_first().len() && s.drop_first()[k] == v;
            assert(s[k + 1] == v);
        }
    } else if s.len() > 0 {
        assert(s.contains(v)) by {
            assert(s[0] == v);
        }
    }
}

/// `s` with the first occurrence of `v` removed; `s` itself when `v` does
/// not occur.
pub open spec fn remove_first(s: Seq<u64>, v: u64) -> Seq<u64> {
    let i = first_index_of(s, v);
    if i < s.len() {
        s.remove(i)
    } else {
        s
    }
}

impl OrderList {
    pub open spec fn view(&self) -> Seq<u64> {
        self.list@
    }

    /// Removes the first occurrence of `value` from the queue and returns
    /// it; keeps the queue as it was when `value` does not occur.
    pub fn pop_current(&mut self, value: &u64) -> (r: Option<u64>)
        ensures
            final(self).list@ == remove_first(old(self).list@, *value),
            r == (if old(self).list@.contains(*value) {
                Some(*value)
            } else {
                None
            }),
    {
        proof {
            lemma_first_index_of(self.list@, *value);
        }
        let mut i: usize = 0;
        let n = self.list.len();
        while i < n
            invariant
                n == self.list@.len(),
                self.list@ == old(self).list@,
                i <= n,
                forall|j: int| 0 <= j < i ==> self.list@[j] != *value,
                0 <= first_index_of(self.list@, *value) <= n,
                first_index_of(self.list@, *value) < n <==> self.list@.contains(*value),
                first_index_of(self.list@, *value) < n ==> self.list@[first_index_of(
                    self.list@,
                    *value,
                )] == *value,
                forall|j: int| 0 <= j < first_index_of(self.list@, *value) ==> self.list@[j] != *value,
            decreases n - i,
        {
            if self.list[i] == *value {
                let removed = self.list.remove(i);
                return Some(removed);
            }
            i = i + 1;
        }
        None
    }
}

/// A price level: its side, its price, the volumes of the orders queued
/// there, their count and their queue.
#[derive(Clone, Debug, PartialEq, Eq)]
pub struct Level {
    pub level_type: LevelType,
    pub price: u64,
    pub total_volume: u64,
    pub hidden_volume: u64,
    pub visible_volume: u64,
    pub order_list: OrderList,
    pub orders: u64,
}

/// `l2` is `l1` with the remaining, hidden and visible quantities of
/// `order` added, everything else as it was.
pub open spec fn volumes_added(l2: Level, l1: Level, order: Order) -> bool {
    &&& l2.total_volume == l1.total_volume + order.leaves_quantity
    &&& l2.hidden_volume == l1.hidden_volume + order.hidden()
    &&& l2.visible_volume == l1.visible_volume + order.visible()
    &&& l2.level_type == l1.level_type
    &&& l2.price == l1.price
    &&& l2.order_list == l1.order_list
    &&& l2.orders == l1.orders
}

/// Adding the volumes of an order to a level and subtracting them again
/// gives the level back.
pub proof fn lemma_add_then_subtract_volumes(l0: Level, l1: Level, l2: Level, order: Order)
    requires
        volumes_added(l1, l0, order),
        volumes_added(l1, l2, order),
    ensures
        l2 == l0,
{
}

impl Level {
    /// The order count matches the queue.
    pub open spec fn wf(&self) -> bool {
        self.orders == self.order_list.list@.len()
    }

    pub open spec fn queue(&self) -> Seq<u64> {
        self.order_list.list@
    }

    /// An empty level of the given side and price.
    pub fn with_price(level_type: LevelType, price: u64) -> (l: Level)
        ensures
            l.level_type == level_type,
            l.price == price,
            l.total_volume == 0,
            l.hidden_volume == 0,
            l.visible_volume == 0,
            l.orders == 0,
            l.queue() == Seq::<u64>::empty(),
            l.wf(),
    {
        Level {
            level_type,
            price,
            total_volume: 0,
            hidden_volume: 0,
            visible_volume: 0,
            order_list: OrderList { list: Vec::new() },
            orders: 0,
        }
    }

    /// An empty level of the given price and side.
    pub fn new_from_order(price: u64, level_type: LevelType) -> (l: Level)
        ensures
            l.level_type == level_type,
            l.price == price,
            l.total_volume == 0,
            l.hidden_volume == 0,
            l.visible_volume == 0,
            l.orders == 0,
            l.queue() == Seq::<u64>::empty(),
            l.wf(),
    {
        Level::with_price(level_type, price)
    }

    pub fn is_bid(&self) -> (b: bool)
        ensures
            b == (self.level_type == LevelType::Bid),
    {
        self.level_type == LevelType::Bid
    }

    pub fn is_ask(&self) -> (b: bool)
        ensures
            b == (self.level_type == LevelType::Ask),
    {
        self.level_type == LevelType::Ask
    }

    /// Whether the volumes of `order` fit in the level's counters.
    pub open spec fn volumes_fit(&self, order: Order) -> bool {
        &&& self.total_volume + order.leaves_quantity <= u64::MAX
        &&& self.hidden_volume + order.hidden() <= u64::MAX
        &&& self.visible_volume + order.visible() <= u64::MAX
    }

    /// Whether `order` can be queued without overflow: its volumes fit and
    /// the order count can grow.
    pub open spec fn can_add(&self, order: Order) -> bool {
        &&& self.volumes_fit(order)
        &&& self.orders < u64::MAX
    }

    /// Adds the remaining, hidden and visible quantities of `order`.
    pub fn add_volumes(&mut self, order: &Order)
        requires
            old(self).volumes_fit(*order),
        ensures
            volumes_added(*final(self), *old(self), *order),
    {
        self.total_volume = self.total_volume + order.leaves_quantity();
        self.hidden_volume = self.hidden_volume + order.hidden_quantity();
        self.visible_volume = self.visible_volume + order.visible_quantity();
    }

    /// Subtracts the remaining, hidden and visible quantities of `order`.
    pub fn subtract_volumes(&mut self, order: &Order)
        requires
            old(self).total_volume >= order.leaves_quantity,
            old(self).hidden_volume >= order.hidden(),
            old(self).visible_volume >= order.visible(),
        ensures
            volumes_added(*old(self), *final(self), *order),
    {
        self.total_volume = self.total_volume - order.leaves_quantity();
        self.hidden_volume = self.hidden_volume - order.hidden_quantity();
        self.visible_volume = self.visible_volume - order.visible_quantity();
    }

    /// Appends `order` to the back of the queue.
    pub fn link_order(&mut self, order: &Order)
        requires
            old(self).orders < u64::MAX,
        ensures
            final(self).queue() == old(self).queue().push(order.id),
            final(self).orders == old(self).orders + 1,
            final(self).level_type == old(self).level_type,
            final(self).price == old(self).price,
            final(self).total_volume == old(self).total_volume,
            final(self).hidden_volume == old(self).hidden_volume,
            final(self).visible_volume == old(self).visible_volume,
    {
        self.order_list.list.push(order.id);
        self.orders = self.orders + 1;
    }

    /// Removes `order` from the queue.
    pub fn unlink_order(&mut self, order: &Order)
        ensures
            final(self).queue() == remove_first(old(self).queue(), order.id),
            final(self).orders == (if old(self).queue().contains(order.id) && old(self).orders
                > 0 {
                old(self).orders - 1
            } else {
                old(self).orders as int
            }),
            final(self).level_type == old(self).level_type,
            final(self).price == old(self).price,
            final(self).total_volume == old(self).total_volume,
            final(self).hidden_volume == old(self).hidden_volume,
            final(self).visible_volume == old(self).visible_volume,
    {
        self.unlink_id(order.id);
    }

    /// Removes the first occurrence of `id` from the queue.
    pub(crate) fn unlink_id(&mut self, id: u64)
        ensures
            final(self).queue() == remove_first(old(self).queue(), id),
            final(self).orders == (if old(self).queue().contains(id) && old(self).orders > 0 {
                old(self).orders - 1
            } else {
                old(self).orders as int
            }),
            final(self).level_type == old(self).level_type,
            final(self).price == old(self).price,
            final(self).total_volume == old(self).total_volume,
            final(self).hidden_volume == old(self).hidden_volume,
            final(self).visible_volume == old(self).visible_volume,
    {
        let removed = self.order_list.pop_current(&id);
        if removed.is_some() && self.orders > 0 {
            self.orders = self.orders - 1;
        }
    }
}

/// What happened to a price level.
#[derive(Clone, Copy, Debug, PartialEq, Eq, Structural)]
pub enum UpdateType {
    Add,
    Update,
    Delete,
}

/// A change of a price level: its kind, the level after the change, and
/// whether the level is (or, for a deleted level, was) the best one of
/// its side.
#[derive(Clone, Debug, PartialEq, Eq)]
pub struct LevelUpdate {
    pub update_type: UpdateType,
    pub update: Level,
    pub top: bool,
}

} // verus!
