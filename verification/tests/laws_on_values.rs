use lib::engine::ExecutionContext;
use lib::order::{Order, OrderSide, OrderType, TimeInForce};

fn limit(id: u64, side: OrderSide, price: u64, quantity: u64, visible: u64) -> Order {
    Order {
        id,
        symbol_id: 1,
        order_type: OrderType::Limit,
        order_side: side,
        price,
        stop_price: 0,
        quantity,
        executed_quantity: 0,
        leaves_quantity: quantity,
        time_in_force: TimeInForce::GTC,
        max_visible_quantity: visible,
        slippage: u64::MAX,
        trailing_distance: 0,
        trailing_step: 0,
    }
}

fn limit_volume(c: &ExecutionContext) -> u64 {
    c.book.bids.iter().map(|l| l.total_volume).sum::<u64>() + c.book.asks.iter().map(|l| l.total_volume).sum::<u64>()
}

#[test]
fn every_level_volume_is_hidden_plus_visible() {
    let mut c = ExecutionContext::new(1);
    c.add_limit_order(limit(1, OrderSide::Buy, 100, 50, 20), false, false).unwrap();
    c.add_limit_order(limit(2, OrderSide::Buy, 100, 8, 20), false, false).unwrap();
    c.add_limit_order(limit(3, OrderSide::Sell, 110, 40, 15), false, false).unwrap();
    for l in c.book.bids.iter().chain(c.book.asks.iter()) {
        assert_eq!(l.total_volume, l.hidden_volume + l.visible_volume);
    }
    assert_eq!((c.book.bids[0].hidden_volume, c.book.bids[0].visible_volume), (30, 28));
}

#[test]
fn adding_then_deleting_a_resting_order_restores_the_book() {
    let mut c = ExecutionContext::new(1);
    c.add_limit_order(limit(1, OrderSide::Buy, 100, 10, u64::MAX), false, false).unwrap();
    c.add_limit_order(limit(2, OrderSide::Sell, 105, 10, u64::MAX), false, false).unwrap();
    let bids_before = c.book.bids.clone();
    let asks_before = c.book.asks.clone();
    c.add_limit_order(limit(3, OrderSide::Buy, 100, 4, u64::MAX), false, false).unwrap();
    c.delete_order_recursive(3, false, false).unwrap();
    assert_eq!(c.book.bids, bids_before);
    assert_eq!(c.book.asks, asks_before);
    assert!(!c.orders.contains(3));
    c.add_limit_order(limit(4, OrderSide::Buy, 101, 4, u64::MAX), false, false).unwrap();
    c.delete_order_recursive(4, false, false).unwrap();
    assert_eq!(c.book.bids, bids_before);
}

#[test]
fn what_an_incoming_order_fills_leaves_the_book() {
    let mut c = ExecutionContext::new(1);
    c.add_limit_order(limit(1, OrderSide::Sell, 100, 6, u64::MAX), false, false).unwrap();
    c.add_limit_order(limit(2, OrderSide::Sell, 101, 6, u64::MAX), false, false).unwrap();
    let before = limit_volume(&c);
    let mut incoming = limit(3, OrderSide::Buy, 101, 9, u64::MAX);
    c.match_order(&mut incoming);
    assert_eq!(incoming.executed_quantity, 9);
    assert_eq!(limit_volume(&c) + 9, before);
    assert_eq!(incoming.executed_quantity + incoming.leaves_quantity, 9);
}

#[test]
fn book_never_stays_crossed_after_matching() {
    let mut c = ExecutionContext::new(1);
    let prices = [100u64, 103, 98, 101, 99, 102, 97, 104];
    for (i, p) in prices.iter().enumerate() {
        let side = if i % 2 == 0 { OrderSide::Buy } else { OrderSide::Sell };
        c.add_limit_order(limit(i as u64 + 1, side, *p, 3 + i as u64, u64::MAX), true, false).unwrap();
        if !c.book.bids.is_empty() && !c.book.asks.is_empty() {
            assert!(c.book.bids[0].price < c.book.asks[0].price);
        }
    }
}

#[test]
fn fill_or_kill_is_all_or_nothing() {
    let mut c = ExecutionContext::new(1);
    c.add_limit_order(limit(1, OrderSide::Sell, 100, 5, u64::MAX), false, false).unwrap();
    let mut fok = limit(2, OrderSide::Buy, 100, 6, u64::MAX);
    fok.time_in_force = TimeInForce::FOK;
    let before_asks = c.book.asks.clone();
    c.match_order(&mut fok);
    assert_eq!(fok.leaves_quantity, 6);
    assert_eq!(c.book.asks, before_asks);
    fok.leaves_quantity = 5;
    fok.quantity = 5;
    c.match_order(&mut fok);
    assert_eq!(fok.leaves_quantity, 0);
    assert!(c.book.asks.is_empty());
}

#[test]
fn trailing_stop_moves_only_towards_the_market() {
    let mut c = ExecutionContext::new(1);
    c.add_limit_order(limit(1, OrderSide::Sell, 100, 10, u64::MAX), false, false).unwrap();
    c.book.last_ask_price = 0;
    let mut t = limit(2, OrderSide::Buy, 0, 5, u64::MAX);
    t.order_type = OrderType::TrailingStop;
    t.trailing_distance = 10;
    t.trailing_step = 1;
    for old in [90u64, 110, 111, 150] {
        t.stop_price = old;
        let new = c.book.calculate_trailing_stop_price(&t);
        assert!(new <= old);
        t.stop_price = new;
        assert_eq!(c.book.calculate_trailing_stop_price(&t), new);
    }
}

#[test]
fn matching_takes_opposite_orders_in_price_time_priority() {
    let mut c = ExecutionContext::new(1);
    c.add_limit_order(limit(1, OrderSide::Sell, 100, 5, u64::MAX), false, false).unwrap();
    c.add_limit_order(limit(2, OrderSide::Sell, 100, 5, u64::MAX), false, false).unwrap();
    c.add_limit_order(limit(3, OrderSide::Sell, 101, 5, u64::MAX), false, false).unwrap();
    c.add_limit_order(limit(4, OrderSide::Buy, 90, 7, u64::MAX), false, false).unwrap();
    let bids_before = c.book.bids.clone();
    let mut incoming = limit(5, OrderSide::Buy, 101, 8, u64::MAX);
    c.match_order(&mut incoming);
    assert_eq!(incoming.executed_quantity, 8);
    assert!(!c.orders.contains(1));
    assert_eq!(c.orders.find(2).unwrap().leaves_quantity, 2);
    assert_eq!(c.orders.find(3).unwrap().leaves_quantity, 5);
    assert_eq!(c.book.asks[0].order_list.list, vec![2]);
    assert_eq!(c.book.asks[0].total_volume, 2);
    assert_eq!(c.book.asks[1].order_list.list, vec![3]);
    assert_eq!(c.book.bids, bids_before);
}

#[test]
fn matching_the_book_only_executes_orders() {
    let mut c = ExecutionContext::new(1);
    c.add_limit_order(limit(1, OrderSide::Buy, 105, 10, u64::MAX), false, false).unwrap();
    c.add_limit_order(limit(2, OrderSide::Buy, 103, 4, u64::MAX), false, false).unwrap();
    c.add_limit_order(limit(3, OrderSide::Sell, 100, 6, u64::MAX), false, false).unwrap();
    c.add_limit_order(limit(4, OrderSide::Sell, 104, 7, u64::MAX), false, false).unwrap();
    c.match_order_book();
    let totals = [(1u64, 10u64), (2, 4), (3, 6), (4, 7)];
    for (id, quantity) in totals {
        if let Some(o) = c.orders.find(id) {
            assert_eq!(o.leaves_quantity + o.executed_quantity, quantity);
            assert!(o.leaves_quantity <= quantity);
        }
    }
    assert!(!c.orders.contains(1));
    assert!(!c.orders.contains(3));
    let rest = c.orders.find(4).unwrap();
    assert_eq!((rest.leaves_quantity, rest.executed_quantity), (3, 4));
    assert_eq!(c.orders.find(2).unwrap().leaves_quantity, 4);
}

#[test]
fn reducing_by_everything_left_is_deleting() {
    let mut a = ExecutionContext::new(1);
    a.add_limit_order(limit(1, OrderSide::Buy, 100, 10, 4), false, false).unwrap();
    a.add_limit_order(limit(2, OrderSide::Buy, 100, 5, u64::MAX), false, false).unwrap();
    a.add_limit_order(limit(3, OrderSide::Sell, 110, 5, u64::MAX), false, false).unwrap();
    let mut b = ExecutionContext::new(1);
    b.add_limit_order(limit(1, OrderSide::Buy, 100, 10, 4), false, false).unwrap();
    b.add_limit_order(limit(2, OrderSide::Buy, 100, 5, u64::MAX), false, false).unwrap();
    b.add_limit_order(limit(3, OrderSide::Sell, 110, 5, u64::MAX), false, false).unwrap();
    assert_eq!(a.reduce_order(1, 25, true, false), Ok(()));
    assert_eq!(b.delete_order_recursive(1, true, false), Ok(()));
    assert_eq!(a.book.bids, b.book.bids);
    assert_eq!(a.book.asks, b.book.asks);
    assert!(!a.orders.contains(1) && !b.orders.contains(1));
    assert_eq!(a.orders.find(2).unwrap(), b.orders.find(2).unwrap());
}
