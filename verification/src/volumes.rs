//! Total volumes of the sides of a book. Matching takes volume out of the
//! limit sides and activation takes it out of the stop sides, which is why
//! the matching loops end.
use vstd::prelude::*;

use crate::level::Level;
use crate::levels::{level_reduced, side_added, side_reduced};
use crate::order::Order;
use crate::order_book::OrderBook;

verus! {

/// The sum of the total volumes of the levels of a side.
pub open spec fn side_volume(s: Seq<Level>) -> nat
    decreases s.len(),
{
    if s.len() == 0 {
        0
    } else {
        side_volume(s.drop_last()) + s.last().total_volume as nat
    }
}

/// The volume resting on the two limit sides.
pub open spec fn limit_volume(b: OrderBook) -> nat {
    side_volume(b.bids@) + side_volume(b.asks@)
}

/// The volume resting on the four stop sides.
pub open spec fn stop_volume(b: OrderBook) -> nat {
    side_volume(b.buy_stop@) + side_volume(b.sell_stop@) + side_volume(b.trailing_buy_stop@)
        + side_volume(b.trailing_sell_stop@)
}

pub proof fn lemma_side_volume_remove(s: Seq<Level>, i: int)
    requires
        0 <= i < s.len(),
    ensures
        side_volume(s) == side_volume(s.remove(i)) + s[i].total_volume,
    decreases s.len(),
{
    if i == s.len() - 1 {
        assert(s.remove(i) =~= s.drop_last());
    } else {
        let t = s.drop_last();
        lemma_side_volume_remove(t, i);
        assert(s.remove(i).drop_last() =~= t.remove(i));
        assert(s.remove(i).last() == s.last());
    }
}

pub proof fn lemma_side_volume_insert(s: Seq<Level>, i: int, l: Level)
    requires
        0 <= i <= s.len(),
    ensures
        side_volume(s.insert(i, l)) == side_volume(s) + l.total_volume,
{
    lemma_side_volume_remove(s.insert(i, l), i);
    assert(s.insert(i, l).remove(i) =~= s);
}

pub proof fn lemma_side_volume_update(s: Seq<Level>, i: int, l: Level)
    requires
        0 <= i < s.len(),
    ensures
        side_volume(s.update(i, l)) + s[i].total_volume == side_volume(s) + l.total_volume,
{
    lemma_side_volume_remove(s.update(i, l), i);
    lemma_side_volume_remove(s, i);
    assert(s.update(i, l).remove(i) =~= s.remove(i));
}

/// Adding an order to a side adds its remaining quantity to the side's
/// volume.
pub proof fn lemma_side_volume_added(
    new: Seq<Level>,
    old: Seq<Level>,
    t: crate::level::LevelType,
    key: u64,
    o: Order,
    r: (bool, usize),
)
    requires
        side_added(new, old, t, key, o, r),
    ensures
        side_volume(new) == side_volume(old) + o.leaves_quantity,
{
    let i = r.1 as int;
    if r.0 {
        lemma_side_volume_insert(old, i, new[i]);
    } else {
        lemma_side_volume_update(old, i, new[i]);
    }
}

/// Reducing a level of a side takes the reduced quantity out of the
/// side's volume.
pub proof fn lemma_side_volume_reduced(
    new: Seq<Level>,
    old: Seq<Level>,
    key: u64,
    id: u64,
    quantity: u64,
    hidden: u64,
    visible: u64,
    unlink: bool,
    r: (bool, Level),
)
    requires
        side_reduced(new, old, key, id, quantity, hidden, visible, unlink, r),
    ensures
        side_volume(new) + quantity == side_volume(old),
{
    let i = choose|i: int|
        0 <= i < old.len() && (#[trigger] old[i]).price == key && level_reduced(
            r.1,
            old[i],
            id,
            quantity,
            hidden,
            visible,
            unlink,
        ) && (r.0 <==> r.1.total_volume == 0) && (r.0 ==> new == old.remove(i)) && (!r.0 ==> new
            == old.update(i, new[i]) && level_reduced(
            new[i],
            old[i],
            id,
            quantity,
            hidden,
            visible,
            unlink,
        ));
    if r.0 {
        lemma_side_volume_remove(old, i);
    } else {
        lemma_side_volume_update(old, i, new[i]);
    }
}

} // verus!
