//! A side of an order book: price levels kept in priority order, the
//! best level first. Bids and sell stops are kept by decreasing price,
//! asks and buy stops by increasing price.
use vstd::prelude::*;

use crate::level::{Level, LevelType, OrderList, remove_first, lemma_first_index_of};
use crate::order::Order;

verus! {

/// Price `a` comes before price `b` on a side ordered increasingly
/// (`asc`) or decreasingly.
pub open spec fn better(asc: bool, a: u64, b: u64) -> bool {
    if asc {
        a < b
    } else {
        a > b
    }
}

/// The levels are strictly ordered by price, best first.
pub open spec fn sorted_side(s: Seq<Level>, asc: bool) -> bool {
    forall|i: int, j: int| 0 <= i < j < s.len() ==> better(asc, #[trigger] s[i].price, #[trigger] s[j].price)
}

/// A well-formed side: ordered, every level of the side's type, and every
/// level's order count matching its queue.
pub open spec fn side_wf(s: Seq<Level>, asc: bool, t: LevelType) -> bool {
    &&& sorted_side(s, asc)
    &&& forall|i: int| 0 <= i < s.len() ==> (#[trigger] s[i]).level_type == t && s[i].wf()
}

/// The side holds a level at price `p`.
pub open spec fn has_level(s: Seq<Level>, p: u64) -> bool {
    exists|i: int| 0 <= i < s.len() && (#[trigger] s[i]).price == p
}

/// On an ordered side two levels with one price are one level.
pub proof fn lemma_unique_price(s: Seq<Level>, asc: bool, i: int, j: int)
    requires
        sorted_side(s, asc),
        0 <= i < s.len(),
        0 <= j < s.len(),
        s[i].price == s[j].price,
    ensures
        i == j,
{
    if i < j {
        assert(better(asc, s[i].price, s[j].price));
    } else if j < i {
        assert(better(asc, s[j].price, s[i].price));
    }
}

/// The index of the level at price `price`, if there is one.
pub fn find_node_by_price(levels: &Vec<Level>, price: u64) -> (r: Option<usize>)
    ensures
        match r {
            Some(i) => i < levels@.len() && levels@[i as int].price == price,
            None => !has_level(levels@, price),
        },
{
    let n = levels.len();
    let mut i: usize = 0;
    while i < n
        invariant
            n == levels@.len(),
            i <= n,
            forall|j: int| 0 <= j < i ==> (#[trigger] levels@[j]).price != price,
        decreases n - i,
    {
        if levels[i].price == price {
            return Some(i);
        }
        i = i + 1;
    }
    None
}

/// Price `a` comes before price `b`, or is the same price.
pub open spec fn not_worse(asc: bool, a: u64, b: u64) -> bool {
    a == b || better(asc, a, b)
}

/// The levels are ordered by price, best first, equal prices allowed.
pub open spec fn weakly_sorted(s: Seq<Level>, asc: bool) -> bool {
    forall|i: int, j: int| 0 <= i < j < s.len() ==> not_worse(asc, #[trigger] s[i].price, #[trigger] s[j].price)
}

/// Inserts `level` at its place by price, after every level of the same
/// price, and returns that place. A side without a level of that price
/// stays strictly ordered.
pub fn insert(levels: &mut Vec<Level>, level: Level, asc: bool) -> (idx: usize)
    requires
        weakly_sorted(old(levels)@, asc),
    ensures
        idx <= old(levels)@.len(),
        final(levels)@ == old(levels)@.insert(idx as int, level),
        weakly_sorted(final(levels)@, asc),
        forall|j: int| 0 <= j < idx ==> not_worse(asc, #[trigger] old(levels)@[j].price, level.price),
        forall|j: int|
            idx <= j < old(levels)@.len() ==> better(asc, level.price, #[trigger] old(levels)@[j].price),
        sorted_side(old(levels)@, asc) && !has_level(old(levels)@, level.price) ==> sorted_side(
            final(levels)@,
            asc,
        ),
        !has_level(old(levels)@, level.price) ==> forall|j: int|
            0 <= j < idx ==> better(asc, #[trigger] old(levels)@[j].price, level.price),
{
    let n = levels.len();
    let mut i: usize = 0;
    while i < n
        invariant
            n == levels@.len(),
            levels@ == old(levels)@,
            weakly_sorted(levels@, asc),
            i <= n,
            forall|j: int| 0 <= j < i ==> not_worse(asc, #[trigger] levels@[j].price, level.price),
        ensures
            i <= n,
            levels@ == old(levels)@,
            forall|j: int| 0 <= j < i ==> not_worse(asc, #[trigger] levels@[j].price, level.price),
            i < n ==> better(asc, level.price, levels@[i as int].price),
        decreases n - i,
    {
        let p = levels[i].price;
        if (asc && level.price < p) || (!asc && level.price > p) {
            break;
        }
        i = i + 1;
    }
    proof {
        assert forall|j: int| i <= j < n implies better(asc, level.price, #[trigger] levels@[j].price) by {
            if j > i {
                assert(not_worse(asc, levels@[i as int].price, levels@[j].price));
            }
        }
        if !has_level(old(levels)@, level.price) {
            assert forall|j: int| 0 <= j < i implies better(asc, #[trigger] old(levels)@[j].price, level.price) by {
                assert(not_worse(asc, old(levels)@[j].price, level.price));
                assert(old(levels)@[j].price != level.price);
            }
        }
    }
    levels.insert(i, level);
    proof {
        let s = levels@;
        let o = old(levels)@;
        assert forall|a: int, b: int| 0 <= a < b < s.len() implies not_worse(asc, #[trigger] s[a].price, #[trigger] s[b].price) by {
            if b < i {
                assert(s[a] == o[a] && s[b] == o[b]);
            } else if b == i {
                assert(s[a] == o[a]);
            } else if a < i {
                assert(s[a] == o[a] && s[b] == o[b - 1]);
                assert(not_worse(asc, o[a].price, level.price));
                assert(better(asc, level.price, o[b - 1].price));
            } else if a == i {
                assert(s[b] == o[b - 1]);
            } else {
                assert(s[a] == o[a - 1] && s[b] == o[b - 1]);
            }
        }
        if sorted_side(o, asc) && !has_level(o, level.price) {
            assert forall|a: int, b: int| 0 <= a < b < s.len() implies better(asc, #[trigger] s[a].price, #[trigger] s[b].price) by {
                if b < i {
                    assert(s[a] == o[a] && s[b] == o[b]);
                } else if b == i {
                    assert(s[a] == o[a]);
                } else if a < i {
                    assert(s[a] == o[a] && s[b] == o[b - 1]);
                    assert(better(asc, o[a].price, level.price));
                    assert(better(asc, level.price, o[b - 1].price));
                } else if a == i {
                    assert(s[b] == o[b - 1]);
                } else {
                    assert(s[a] == o[a - 1] && s[b] == o[b - 1]);
                }
            }
        }
    }
    i
}

/// Removes the level at price `price` and returns it.
pub fn remove(levels: &mut Vec<Level>, price: u64) -> (r: Option<Level>)
    ensures
        match r {
            Some(l) => has_level(old(levels)@, price) && l.price == price && exists|i: int|
                0 <= i < old(levels)@.len() && old(levels)@[i] == l && final(levels)@ == old(
                    levels,
                )@.remove(i),
            None => !has_level(old(levels)@, price) && final(levels)@ == old(levels)@,
        },
{
    match find_node_by_price(levels, price) {
        Some(i) => {
            let l = levels.remove(i);
            Some(l)
        },
        None => None,
    }
}

/// The index of the best level strictly after price `price` in the
/// side's order: the next lower level on a decreasing side, the next
/// higher level on an increasing side.
pub fn next_level(levels: &Vec<Level>, price: u64, asc: bool) -> (r: Option<usize>)
    requires
        sorted_side(levels@, asc),
    ensures
        match r {
            Some(i) => i < levels@.len() && better(asc, price, levels@[i as int].price) && forall|
                j: int,
            | 0 <= j < i ==> !better(asc, price, #[trigger] levels@[j].price),
            None => forall|j: int|
                0 <= j < levels@.len() ==> !better(asc, price, #[trigger] levels@[j].price),
        },
{
    let n = levels.len();
    let mut i: usize = 0;
    while i < n
        invariant
            n == levels@.len(),
            i <= n,
            forall|j: int| 0 <= j < i ==> !better(asc, price, #[trigger] levels@[j].price),
        decreases n - i,
    {
        let p = levels[i].price;
        if (asc && price < p) || (!asc && price > p) {
            return Some(i);
        }
        i = i + 1;
    }
    None
}

/// The next level below `price` on a side ordered by decreasing price.
pub fn get_next_lower_level(levels: &Vec<Level>, price: u64) -> (r: Option<usize>)
    requires
        sorted_side(levels@, false),
    ensures
        match r {
            Some(i) => i < levels@.len() && levels@[i as int].price < price && forall|j: int|
                0 <= j < i ==> (#[trigger] levels@[j]).price >= price,
            None => forall|j: int| 0 <= j < levels@.len() ==> (#[trigger] levels@[j]).price >= price,
        },
{
    next_level(levels, price, false)
}

/// The next level above `price` on a side ordered by increasing price.
pub fn get_next_higher_level(levels: &Vec<Level>, price: u64) -> (r: Option<usize>)
    requires
        sorted_side(levels@, true),
    ensures
        match r {
            Some(i) => i < levels@.len() && levels@[i as int].price > price && forall|j: int|
                0 <= j < i ==> (#[trigger] levels@[j]).price <= price,
            None => forall|j: int| 0 <= j < levels@.len() ==> (#[trigger] levels@[j]).price <= price,
        },
{
    next_level(levels, price, true)
}

/// `new` is `old` with the volumes of `o` added and `o` queued last.
pub open spec fn level_added(new: Level, old: Level, o: Order) -> bool {
    &&& new.level_type == old.level_type
    &&& new.price == old.price
    &&& new.total_volume == old.total_volume + o.leaves_quantity
    &&& new.hidden_volume == old.hidden_volume + o.hidden()
    &&& new.visible_volume == old.visible_volume + o.visible()
    &&& new.queue() == old.queue().push(o.id)
    &&& new.orders == old.orders + 1
}

/// `new` is a level of type `t` at `price` that holds `o` alone.
pub open spec fn level_fresh(new: Level, t: LevelType, price: u64, o: Order) -> bool {
    &&& new.level_type == t
    &&& new.price == price
    &&& new.total_volume == o.leaves_quantity
    &&& new.hidden_volume == o.hidden()
    &&& new.visible_volume == o.visible()
    &&& new.queue() == seq![o.id]
    &&& new.orders == 1
}

/// `new` is `old` with the given volumes subtracted and, when `unlink`,
/// the first occurrence of `id` removed from the queue.
pub open spec fn level_reduced(
    new: Level,
    old: Level,
    id: u64,
    quantity: u64,
    hidden: u64,
    visible: u64,
    unlink: bool,
) -> bool {
    &&& new.level_type == old.level_type
    &&& new.price == old.price
    &&& new.total_volume == old.total_volume - quantity
    &&& new.hidden_volume == old.hidden_volume - hidden
    &&& new.visible_volume == old.visible_volume - visible
    &&& new.queue() == (if unlink {
        remove_first(old.queue(), id)
    } else {
        old.queue()
    })
    &&& new.wf()
}

impl Level {
    /// A copy of the level, queue included.
    pub fn snapshot(&self) -> (l: Level)
        ensures
            l.level_type == self.level_type,
            l.price == self.price,
            l.total_volume == self.total_volume,
            l.hidden_volume == self.hidden_volume,
            l.visible_volume == self.visible_volume,
            l.queue() == self.queue(),
            l.orders == self.orders,
    {
        Level {
            level_type: self.level_type,
            price: self.price,
            total_volume: self.total_volume,
            hidden_volume: self.hidden_volume,
            visible_volume: self.visible_volume,
            order_list: OrderList { list: self.order_list.list.clone() },
            orders: self.orders,
        }
    }
}

/// `new` is side `old` after `o` was added at `key` with result `r`: a
/// fresh level inserted when `r.0`, the level at `key` grown otherwise.
pub open spec fn side_added(
    new: Seq<Level>,
    old: Seq<Level>,
    t: LevelType,
    key: u64,
    o: Order,
    r: (bool, usize),
) -> bool {
    &&& r.1 < new.len()
    &&& new[r.1 as int].price == key
    &&& r.0 == !has_level(old, key)
    &&& r.0 ==> r.1 <= old.len() && new == old.insert(r.1 as int, new[r.1 as int]) && level_fresh(
        new[r.1 as int],
        t,
        key,
        o,
    )
    &&& !r.0 ==> r.1 < old.len() && new == old.update(r.1 as int, new[r.1 as int])
        && level_added(new[r.1 as int], old[r.1 as int], o)
}

/// `new` is side `old` after the level at `key` was reduced with result
/// `r`: `r.1` is the reduced level, removed from the side when `r.0`.
pub open spec fn side_reduced(
    new: Seq<Level>,
    old: Seq<Level>,
    key: u64,
    id: u64,
    quantity: u64,
    hidden: u64,
    visible: u64,
    unlink: bool,
    r: (bool, Level),
) -> bool {
    exists|i: int|
        0 <= i < old.len() && (#[trigger] old[i]).price == key && level_reduced(
            r.1,
            old[i],
            id,
            quantity,
            hidden,
            visible,
            unlink,
        ) && (r.0 <==> r.1.total_volume == 0) && (r.0 ==> new == old.remove(i)) && (!r.0 ==> new
            == old.update(i, new[i]) && level_reduced(
            new[i],
            old[i],
            id,
            quantity,
            hidden,
            visible,
            unlink,
        ))
}

/// Every level at price `key` can take the volumes of `o`.
pub open spec fn side_can_add(s: Seq<Level>, key: u64, o: Order) -> bool {
    forall|i: int| 0 <= i < s.len() && (#[trigger] s[i]).price == key ==> s[i].can_add(o)
}

/// Adds `order` to the level at `key`, creating the level when the side
/// has none. Returns whether a level was created, and the level's index.
pub fn side_add_order(
    levels: &mut Vec<Level>,
    asc: bool,
    t: LevelType,
    key: u64,
    order: &Order,
) -> (r: (bool, usize))
    requires
        side_wf(old(levels)@, asc, t),
        side_can_add(old(levels)@, key, *order),
    ensures
        side_wf(final(levels)@, asc, t),
        side_added(final(levels)@, old(levels)@, t, key, *order, r),
{
    let found = find_node_by_price(levels, key);
    match found {
        Some(i) => {
            assert(levels@[i as int].can_add(*order));
            let ghost before = levels@;
            let lv = &mut levels[i];
            lv.add_volumes(order);
            lv.link_order(order);
            proof {
                assert forall|a: int, b: int| 0 <= a < b < levels@.len() implies better(
                    asc,
                    #[trigger] levels@[a].price,
                    #[trigger] levels@[b].price,
                ) by {
                    assert(before[a].price == levels@[a].price);
                    assert(before[b].price == levels@[b].price);
                }
                assert forall|j: int| 0 <= j < levels@.len() implies (#[trigger] levels@[j]).level_type
                    == t && levels@[j].wf() by {
                    if j != i {
                        assert(levels@[j] == before[j]);
                    }
                }
            }
            (false, i)
        },
        None => {
            let mut lv = Level::with_price(t, key);
            lv.add_volumes(order);
            lv.link_order(order);
            assert(lv.queue() =~= seq![order.id]);
            let idx = insert(levels, lv, asc);
            proof {
                assert forall|j: int| 0 <= j < levels@.len() implies (#[trigger] levels@[j]).level_type
                    == t && levels@[j].wf() by {
                    if j < idx {
                        assert(levels@[j] == old(levels)@[j]);
                    } else if j > idx {
                        assert(levels@[j] == old(levels)@[j - 1]);
                    }
                }
            }
            (true, idx)
        },
    }
}

/// Subtracts volumes from the level at `key`, unlinks `id` from it when
/// `unlink`, and deletes the level when its total volume becomes zero.
/// Returns whether the level was deleted, and the level after the change.
pub fn side_reduce(
    levels: &mut Vec<Level>,
    asc: bool,
    t: LevelType,
    key: u64,
    id: u64,
    quantity: u64,
    hidden: u64,
    visible: u64,
    unlink: bool,
) -> (r: (bool, Level))
    requires
        side_wf(old(levels)@, asc, t),
        has_level(old(levels)@, key),
        forall|i: int|
            0 <= i < old(levels)@.len() && (#[trigger] old(levels)@[i]).price == key
                ==> old(levels)@[i].total_volume >= quantity && old(levels)@[i].hidden_volume
                >= hidden && old(levels)@[i].visible_volume >= visible,
    ensures
        side_wf(final(levels)@, asc, t),
        side_reduced(final(levels)@, old(levels)@, key, id, quantity, hidden, visible, unlink, r),
{
    let found = find_node_by_price(levels, key);
    let i = match found {
        Some(i) => i,
        None => {
            assert(false);
            0
        },
    };
    let ghost before = levels@;
    let ghost old_level = levels@[i as int];
    let lv = &mut levels[i];
    lv.total_volume = lv.total_volume - quantity;
    lv.hidden_volume = lv.hidden_volume - hidden;
    lv.visible_volume = lv.visible_volume - visible;
    if unlink {
        proof {
            lemma_first_index_of(lv.queue(), id);
        }
        lv.unlink_id(id);
    }
    let deleted = levels[i].total_volume == 0;
    let snap = levels[i].snapshot();
    proof {
        assert(snap.wf());
    }
    if deleted {
        levels.remove(i);
        proof {
            assert forall|a: int, b: int| 0 <= a < b < levels@.len() implies better(
                asc,
                #[trigger] levels@[a].price,
                #[trigger] levels@[b].price,
            ) by {
                let o = before;
                if b < i {
                    assert(levels@[a] == o[a] && levels@[b] == o[b]);
                } else if a < i {
                    assert(levels@[a] == o[a] && levels@[b] == o[b + 1]);
                } else {
                    assert(levels@[a] == o[a + 1] && levels@[b] == o[b + 1]);
                }
            }
            assert forall|j: int| 0 <= j < levels@.len() implies (#[trigger] levels@[j]).level_type
                == t && levels@[j].wf() by {
                if j < i {
                    assert(levels@[j] == before[j]);
                } else {
                    assert(levels@[j] == before[j + 1]);
                }
            }
        }
    } else {
        proof {
            assert forall|a: int, b: int| 0 <= a < b < levels@.len() implies better(
                asc,
                #[trigger] levels@[a].price,
                #[trigger] levels@[b].price,
            ) by {
                assert(before[a].price == levels@[a].price);
                assert(before[b].price == levels@[b].price);
            }
            assert forall|j: int| 0 <= j < levels@.len() implies (#[trigger] levels@[j]).level_type
                == t && levels@[j].wf() by {
                if j != i {
                    assert(levels@[j] == before[j]);
                }
            }
        }
    }
    proof {
        let ii = i as int;
        assert(old(levels)@[ii].price == key);
        assert(level_reduced(snap, old(levels)@[ii], id, quantity, hidden, visible, unlink));
        assert(deleted <==> snap.total_volume == 0);
        if deleted {
            assert(levels@ == old(levels)@.remove(ii));
        } else {
            assert(levels@ == old(levels)@.update(ii, levels@[ii]));
            assert(level_reduced(levels@[ii], old(levels)@[ii], id, quantity, hidden, visible, unlink));
        }
    }
    (deleted, snap)
}

} // verus!
