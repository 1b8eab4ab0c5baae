use lib::level::{Level, LevelType, UpdateType};
use lib::order::{ErrorCode, Order, OrderSide, OrderType, TimeInForce};
use lib::order_book::OrderBook;

fn limit(id: u64, side: OrderSide, price: u64, quantity: u64) -> Order {
    Order {
        id,
        symbol_id: 1,
        order_type: OrderType::Limit,
        order_side: side,
        price,
        stop_price: 0,
        quantity,
        executed_quantity: 0,
        leaves_quantity: quantity,
        time_in_force: TimeInForce::GTC,
        max_visible_quantity: u64::MAX,
        slippage: u64::MAX,
        trailing_distance: 0,
        trailing_step: 0,
    }
}

#[test]
fn validate_accepts_plain_limit_order() {
    assert_eq!(limit(1, OrderSide::Buy, 100, 10).validate(), Ok(()));
}

#[test]
fn validate_rejects_zero_id() {
    assert_eq!(limit(0, OrderSide::Buy, 100, 10).validate(), Err(ErrorCode::OrderIdInvalid));
}

#[test]
fn validate_rejects_leaves_above_quantity() {
    let mut o = limit(1, OrderSide::Buy, 100, 10);
    o.leaves_quantity = 11;
    assert_eq!(o.validate(), Err(ErrorCode::OrderQuantityInvalid));
}

#[test]
fn validate_rejects_nothing_left() {
    let mut o = limit(1, OrderSide::Buy, 100, 10);
    o.leaves_quantity = 0;
    assert_eq!(o.validate(), Err(ErrorCode::OrderQuantityInvalid));
}

#[test]
fn validate_rejects_good_till_cancelled_market_order() {
    let mut o = limit(1, OrderSide::Buy, 0, 10);
    o.order_type = OrderType::Market;
    assert_eq!(o.validate(), Err(ErrorCode::OrderParameterInvalid));
    o.time_in_force = TimeInForce::IOC;
    assert_eq!(o.validate(), Ok(()));
}

#[test]
fn validate_rejects_iceberg_market_order() {
    let mut o = limit(1, OrderSide::Buy, 0, 10);
    o.order_type = OrderType::Market;
    o.time_in_force = TimeInForce::FOK;
    o.max_visible_quantity = 5;
    assert_eq!(o.validate(), Err(ErrorCode::OrderParameterInvalid));
}

#[test]
fn validate_rejects_limit_order_with_slippage() {
    let mut o = limit(1, OrderSide::Sell, 100, 10);
    o.slippage = 3;
    assert_eq!(o.validate(), Err(ErrorCode::OrderParameterInvalid));
}

#[test]
fn iceberg_quantities_split_remaining_quantity() {
    let mut o = limit(1, OrderSide::Buy, 100, 100);
    o.max_visible_quantity = 30;
    assert_eq!(o.hidden_quantity(), 70);
    assert_eq!(o.visible_quantity(), 30);
    assert!(o.is_iceberg());
    o.leaves_quantity = 20;
    assert_eq!(o.hidden_quantity(), 0);
    assert_eq!(o.visible_quantity(), 20);
}

#[test]
fn order_kind_predicates() {
    let mut o = limit(1, OrderSide::Buy, 100, 10);
    assert!(o.is_limit() && o.is_buy() && !o.is_market());
    assert!(!o.is_fok() && !o.is_aon() && !o.is_ioc());
    o.time_in_force = TimeInForce::AON;
    assert!(o.is_aon());
    o.order_type = OrderType::TrailingStopLimit;
    assert!(o.is_trailing_stop_limit() && !o.is_trailing_stop());
    assert_eq!(Order::new(&o), o);
    assert_eq!(o.leaves_quantity(), 10);
}

#[test]
fn default_order_is_immediate_or_cancel_market_buy() {
    let o = Order::default();
    assert_eq!(o.order_type, OrderType::Market);
    assert_eq!(o.order_side, OrderSide::Buy);
    assert_eq!(o.time_in_force, TimeInForce::IOC);
    assert_eq!(o.id, 0);
}

#[test]
fn level_volumes_add_and_subtract() {
    let mut l = Level::with_price(LevelType::Bid, 100);
    let mut o = limit(7, OrderSide::Buy, 100, 50);
    o.max_visible_quantity = 20;
    l.add_volumes(&o);
    l.link_order(&o);
    assert_eq!((l.total_volume, l.hidden_volume, l.visible_volume, l.orders), (50, 30, 20, 1));
    assert!(l.is_bid() && !l.is_ask());
    l.subtract_volumes(&o);
    l.unlink_order(&o);
    assert_eq!((l.total_volume, l.hidden_volume, l.visible_volume, l.orders), (0, 0, 0, 0));
    assert!(l.order_list.list.is_empty());
}

#[test]
fn pop_current_removes_first_occurrence_only() {
    let mut l = Level::new_from_order(5, LevelType::Ask);
    l.order_list.list = vec![3, 4, 3];
    assert_eq!(l.order_list.pop_current(&3), Some(3));
    assert_eq!(l.order_list.list, vec![4, 3]);
    assert_eq!(l.order_list.pop_current(&9), None);
    assert_eq!(l.order_list.list, vec![4, 3]);
}

#[test]
fn new_book_is_empty_with_zero_prices() {
    let mut b = OrderBook::new();
    assert!(b.best_bid().is_none() && b.best_ask().is_none());
    assert_eq!(b.get_market_bid_price(), 0);
    assert_eq!(b.get_market_ask_price(), 0);
    assert_eq!(b.last_ask_price, 0);
    assert_eq!(b.trailing_ask_price, 0);
    b.reset_matching_price();
    assert_eq!(b.get_market_ask_price(), u64::MAX);
}

#[test]
fn book_keeps_bids_best_first() {
    let mut b = OrderBook::new();
    let u1 = b.add_order(&limit(1, OrderSide::Buy, 100, 10));
    assert_eq!(u1.update_type, UpdateType::Add);
    assert!(u1.top);
    let u2 = b.add_order(&limit(2, OrderSide::Buy, 102, 5));
    assert!(u2.top);
    let u3 = b.add_order(&limit(3, OrderSide::Buy, 100, 7));
    assert_eq!(u3.update_type, UpdateType::Update);
    assert!(!u3.top);
    assert_eq!(u3.update.total_volume, 17);
    let prices: Vec<u64> = b.bids.iter().map(|l| l.price).collect();
    assert_eq!(prices, vec![102, 100]);
    assert_eq!(b.best_bid().unwrap().price, 102);
    assert_eq!(b.get_market_bid_price(), 102);
    let next = b.get_next_level(b.best_bid().unwrap()).unwrap();
    assert_eq!(next.price, 100);
    assert_eq!(next.order_list.list, vec![1, 3]);
}

#[test]
fn book_keeps_asks_best_first_and_deletes_empty_levels() {
    let mut b = OrderBook::new();
    let a1 = limit(1, OrderSide::Sell, 105, 10);
    let a2 = limit(2, OrderSide::Sell, 103, 4);
    b.add_order(&a1);
    b.add_order(&a2);
    assert_eq!(b.best_ask().unwrap().price, 103);
    assert_eq!(b.get_market_ask_price(), 0);
    b.reset_matching_price();
    assert_eq!(b.get_market_ask_price(), 103);
    let u = b.delete_order(&a2);
    assert_eq!(u.update_type, UpdateType::Delete);
    assert!(u.top);
    assert_eq!(b.best_ask().unwrap().price, 105);
    assert!(b.get_ask(103).is_none());
    assert_eq!(b.get_ask(105).unwrap().total_volume, 10);
}

#[test]
fn reduce_order_keeps_level_with_volume() {
    let mut b = OrderBook::new();
    let mut o = limit(1, OrderSide::Sell, 105, 10);
    b.add_order(&o);
    o.leaves_quantity = 6;
    let u = b.reduce_order(&o, 4, 0, 4);
    assert_eq!(u.update_type, UpdateType::Update);
    assert_eq!(u.update.total_volume, 6);
    assert_eq!(b.asks[0].order_list.list, vec![1]);
}

#[test]
fn matching_and_last_prices_follow_the_order_side() {
    let mut b = OrderBook::new();
    let buy = limit(1, OrderSide::Buy, 100, 1);
    let sell = limit(2, OrderSide::Sell, 100, 1);
    b.update_last_price(&buy, 99);
    b.update_matching_price(&sell, 98);
    assert_eq!(b.last_bid_price, 99);
    assert_eq!(b.matching_ask_price, 98);
    assert_eq!(b.get_market_ask_price(), 98);
    b.reset_matching_price();
    assert_eq!(b.matching_ask_price, u64::MAX);
    assert_eq!(b.matching_bid_price, 0);
}

