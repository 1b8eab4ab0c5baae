//! Laws of trailing stop prices: percentage distances and the limit
//! price of trailing stop-limit orders.
use vstd::prelude::*;

use crate::activation::{shifted_price, trailed};
use crate::order::{Order, OrderType};
use crate::order_book::{percent_of, trailing_distance_abs, OrderBook};

verus! {

/// A negative trailing distance is a share of the market price in
/// hundredths of a percent: `-d * market / 10000`, capped at `u64::MAX`,
/// so it grows with the market price.
pub proof fn lemma_percent_distance_scales(o: Order, market: u64)
    requires
        o.trailing_distance < 0,
    ensures
        (-o.trailing_distance) * market / 10000 <= u64::MAX ==> trailing_distance_abs(o, market) == (
        -o.trailing_distance) * market / 10000,
        (-o.trailing_distance) * market / 10000 > u64::MAX ==> trailing_distance_abs(o, market)
            == u64::MAX,
{
    reveal(percent_of);
}

/// The trailing distance of `o` at market price `m`, written out: a
/// non-negative distance as it is, a negative one as `-d * m / 10000`.
pub open spec fn distance_at(o: Order, m: u64) -> int {
    if o.trailing_distance < 0 {
        (-o.trailing_distance) * m / 10000
    } else {
        o.trailing_distance as int
    }
}

/// The trailing step of `o` at market price `m`, written out the same way.
pub open spec fn step_at(o: Order, m: u64) -> int {
    if o.trailing_step < 0 {
        (-o.trailing_step) * m / 10000
    } else {
        o.trailing_step as int
    }
}

/// A trailing buy stop follows the trailing ask price `m` down to
/// `m` plus its distance: it takes that price when it is below its stop
/// price by at least the step, and keeps its stop price otherwise, or when
/// its distance and step have opposite signs.
pub proof fn lemma_trailing_buy_stop_follows(b: OrderBook, o: Order)
    requires
        o.spec_is_buy(),
        b.trailing_ask() + distance_at(o, b.trailing_ask()) <= u64::MAX,
        step_at(o, b.trailing_ask()) <= u64::MAX,
    ensures
        ({
            let m = b.trailing_ask();
            let t = m + distance_at(o, m);
            let same_sign = (o.trailing_distance < 0) == (o.trailing_step < 0) || o.trailing_step == 0;
            &&& same_sign && t < o.stop_price && o.stop_price - t >= step_at(o, m) ==> b.trailing_stop_price(o) == t
            &&& !(same_sign && t < o.stop_price && o.stop_price - t >= step_at(o, m)) ==> b.trailing_stop_price(o)
                == o.stop_price
        }),
{
    reveal(percent_of);
    let m = b.trailing_ask();
    assert(0int * m / 10000 == 0) by (nonlinear_arith);
    assert(o.trailing_distance < 0 ==> (-o.trailing_distance) * m / 10000 <= u64::MAX);
}

/// A trailing sell stop follows the trailing bid price `m` up to `m` less
/// its distance: it takes that price when it is above its stop price by at
/// least the step, and keeps its stop price otherwise, or when its
/// distance and step have opposite signs.
pub proof fn lemma_trailing_sell_stop_follows(b: OrderBook, o: Order)
    requires
        !o.spec_is_buy(),
        distance_at(o, b.trailing_bid()) <= b.trailing_bid(),
        step_at(o, b.trailing_bid()) <= u64::MAX,
    ensures
        ({
            let m = b.trailing_bid();
            let t = m - distance_at(o, m);
            let same_sign = (o.trailing_distance < 0) == (o.trailing_step < 0) || o.trailing_step == 0;
            &&& same_sign && t > o.stop_price && t - o.stop_price >= step_at(o, m) ==> b.trailing_stop_price(o) == t
            &&& !(same_sign && t > o.stop_price && t - o.stop_price >= step_at(o, m)) ==> b.trailing_stop_price(o)
                == o.stop_price
        }),
{
    reveal(percent_of);
    let m = b.trailing_bid();
    assert(0int * m / 10000 == 0) by (nonlinear_arith);
}

/// When the stop price of a trailing stop-limit order moves, its limit
/// price moves with it by the same amount: the distance between the two is
/// kept, whether the limit is above or below the stop, as far as the new
/// limit price fits in `u64`; beyond that it is clamped to `0` or
/// `u64::MAX`.
pub proof fn lemma_trailed_limit_keeps_distance(o: Order, new_stop: u64)
    requires
        o.order_type == OrderType::TrailingStopLimit,
    ensures
        trailed(o, new_stop).stop_price == new_stop,
        0 <= new_stop + o.price - o.stop_price <= u64::MAX ==> trailed(o, new_stop).price - new_stop
            == o.price - o.stop_price,
        new_stop + o.price - o.stop_price < 0 ==> trailed(o, new_stop).price == 0,
        new_stop + o.price - o.stop_price > u64::MAX ==> trailed(o, new_stop).price == u64::MAX,
        0 <= new_stop + o.price - o.stop_price <= u64::MAX ==> shifted_price(o.price, o.stop_price, new_stop)
            - new_stop == o.price - o.stop_price,
{
}


} // verus!
