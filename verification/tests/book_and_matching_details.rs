use lib::engine::ExecutionContext;
use lib::level::{Level, LevelType, UpdateType};
use lib::levels::insert;
use lib::order::{Order, OrderSide, OrderType, TimeInForce};
use lib::order_book::OrderBook;

fn order(id: u64, side: OrderSide, order_type: OrderType, price: u64, quantity: u64, tif: TimeInForce) -> Order {
    Order {
        id,
        symbol_id: 1,
        order_type,
        order_side: side,
        price,
        stop_price: 0,
        quantity,
        executed_quantity: 0,
        leaves_quantity: quantity,
        time_in_force: tif,
        max_visible_quantity: u64::MAX,
        slippage: u64::MAX,
        trailing_distance: 0,
        trailing_step: 0,
    }
}

fn buy(id: u64, price: u64, quantity: u64) -> Order {
    order(id, OrderSide::Buy, OrderType::Limit, price, quantity, TimeInForce::GTC)
}

fn sell(id: u64, price: u64, quantity: u64) -> Order {
    order(id, OrderSide::Sell, OrderType::Limit, price, quantity, TimeInForce::GTC)
}

fn volume(levels: &[Level]) -> u64 {
    levels.iter().map(|l| l.total_volume).sum()
}

#[test]
fn top_of_book_needs_the_order_in_the_best_level() {
    let mut b = OrderBook::new();
    let first = buy(1, 100, 10);
    let second = buy(2, 99, 10);
    b.add_order(&first);
    b.add_order(&second);
    assert!(b.is_top_of_book(&first));
    assert!(!b.is_top_of_book(&second));
    let absent = buy(3, 100, 10);
    assert!(!b.is_top_of_book(&absent));
    let other_side = sell(1, 100, 10);
    assert!(!b.is_top_of_book(&other_side));
}

#[test]
fn insert_places_a_level_after_those_of_its_price() {
    let mut levels = vec![
        Level::new_from_order(100, LevelType::Ask),
        Level::new_from_order(105, LevelType::Ask),
    ];
    assert_eq!(insert(&mut levels, Level::new_from_order(103, LevelType::Ask), true), 1);
    let mut again = Level::new_from_order(103, LevelType::Ask);
    again.orders = 7;
    assert_eq!(insert(&mut levels, again, true), 2);
    let prices: Vec<u64> = levels.iter().map(|l| l.price).collect();
    assert_eq!(prices, vec![100, 103, 103, 105]);
    assert_eq!(levels[2].orders, 7);
    let mut bids = vec![Level::new_from_order(100, LevelType::Bid)];
    assert_eq!(insert(&mut bids, Level::new_from_order(101, LevelType::Bid), false), 0);
}

#[test]
fn book_delete_undoes_add_and_reports_the_level() {
    let mut b = OrderBook::new();
    b.add_order(&sell(1, 105, 10));
    let asks_before = b.asks.clone();
    let fresh = sell(2, 103, 4);
    assert_eq!(b.add_order(&fresh).update_type, UpdateType::Add);
    assert_eq!(b.delete_order(&fresh).update_type, UpdateType::Delete);
    assert_eq!(b.asks, asks_before);
    let joining = sell(3, 105, 6);
    assert_eq!(b.add_order(&joining).update_type, UpdateType::Update);
    assert_eq!(b.delete_order(&joining).update_type, UpdateType::Update);
    assert_eq!(b.asks, asks_before);
}

#[test]
fn matching_records_the_price_of_the_last_level_traded() {
    let mut c = ExecutionContext::new(1);
    c.add_limit_order(sell(1, 100, 5), false, false).unwrap();
    c.add_limit_order(sell(2, 101, 5), false, false).unwrap();
    let mut incoming = buy(3, 102, 7);
    c.match_order(&mut incoming);
    assert_eq!(incoming.leaves_quantity, 0);
    assert_eq!((c.book.last_bid_price, c.book.last_ask_price), (101, 101));
    assert_eq!((c.book.matching_bid_price, c.book.matching_ask_price), (101, 101));
    assert_eq!((c.book.trailing_bid_price, c.book.trailing_ask_price), (0, 0));
}

#[test]
fn fill_or_kill_records_its_own_price() {
    let mut c = ExecutionContext::new(1);
    c.add_limit_order(sell(1, 100, 5), false, false).unwrap();
    let mut fok = order(2, OrderSide::Buy, OrderType::Limit, 104, 5, TimeInForce::FOK);
    c.match_order(&mut fok);
    assert_eq!(fok.leaves_quantity, 0);
    assert_eq!((c.book.last_bid_price, c.book.last_ask_price), (104, 104));
    assert_eq!((c.book.matching_bid_price, c.book.matching_ask_price), (104, 104));
}

#[test]
fn order_that_does_not_cross_changes_nothing() {
    let mut c = ExecutionContext::new(1);
    c.add_limit_order(sell(1, 100, 5), false, false).unwrap();
    c.add_limit_order(buy(2, 95, 5), false, false).unwrap();
    let asks = c.book.asks.clone();
    let bids = c.book.bids.clone();
    let prices = (c.book.last_bid_price, c.book.last_ask_price, c.book.matching_bid_price, c.book.matching_ask_price);
    let mut incoming = buy(3, 99, 4);
    c.match_order(&mut incoming);
    assert_eq!(incoming, buy(3, 99, 4));
    assert_eq!(c.book.asks, asks);
    assert_eq!(c.book.bids, bids);
    assert_eq!(
        (c.book.last_bid_price, c.book.last_ask_price, c.book.matching_bid_price, c.book.matching_ask_price),
        prices
    );
}

#[test]
fn matching_the_book_takes_as_much_from_each_side() {
    let mut c = ExecutionContext::new(1);
    c.add_limit_order(buy(1, 105, 4), false, false).unwrap();
    c.add_limit_order(buy(2, 103, 9), false, false).unwrap();
    c.add_limit_order(sell(3, 100, 6), false, false).unwrap();
    c.add_limit_order(sell(4, 102, 5), false, false).unwrap();
    let (bids0, asks0) = (volume(&c.book.bids), volume(&c.book.asks));
    c.match_order_book();
    let (bids1, asks1) = (volume(&c.book.bids), volume(&c.book.asks));
    assert_eq!(bids0 - bids1, asks0 - asks1);
    assert_eq!(bids0 - bids1, 11);
    assert!(c.book.asks.is_empty());
    assert_eq!(c.orders.find(2).unwrap().leaves_quantity, 2);
}

#[test]
fn recalculation_moves_every_trailing_stop_of_the_side() {
    let mut c = ExecutionContext::new(1);
    c.add_limit_order(sell(1, 100, 10), false, false).unwrap();
    c.book.last_ask_price = 100;
    let mut t1 = order(2, OrderSide::Buy, OrderType::TrailingStop, 0, 5, TimeInForce::GTC);
    t1.stop_price = 200;
    t1.trailing_distance = 10;
    t1.trailing_step = 1;
    let mut t2 = order(3, OrderSide::Buy, OrderType::TrailingStop, 0, 5, TimeInForce::GTC);
    t2.stop_price = 200;
    t2.trailing_distance = 20;
    t2.trailing_step = 1;
    c.add_stop_order(t1, false, false).unwrap();
    c.add_stop_order(t2, false, false).unwrap();
    assert_eq!(c.orders.find(2).unwrap().stop_price, 110);
    assert_eq!(c.orders.find(3).unwrap().stop_price, 120);
    c.add_limit_order(sell(4, 90, 10), false, false).unwrap();
    c.book.last_ask_price = 90;
    c.book.trailing_ask_price = u64::MAX;
    c.recalculate_trailing_stop_price(true);
    assert_eq!(c.orders.find(2).unwrap().stop_price, 100);
    assert_eq!(c.orders.find(3).unwrap().stop_price, 110);
    let prices: Vec<u64> = c.book.trailing_buy_stop.iter().map(|l| l.price).collect();
    assert_eq!(prices, vec![100, 110]);
}

#[test]
fn trailing_stop_moved_by_the_last_round_can_be_left_triggered() {
    let mut c = ExecutionContext::new(1);
    let mut t = order(1, OrderSide::Buy, OrderType::TrailingStop, 0, 5, TimeInForce::GTC);
    t.stop_price = 150;
    c.add_stop_order(t, false, false).unwrap();
    assert_eq!(c.book.trailing_buy_stop[0].price, 150);
    c.add_limit_order(sell(2, 100, 10), false, false).unwrap();
    c.book.trailing_ask_price = u64::MAX;
    assert!(!c.activate_stop_orders());
    assert_eq!(c.book.trailing_buy_stop[0].price, 100);
    assert_eq!(c.book.get_market_ask_price(), 100);
    assert!(c.activate_stop_orders());
    assert!(c.book.trailing_buy_stop.is_empty());
    assert!(!c.orders.contains(1));
    assert_eq!(c.orders.find(2).unwrap().leaves_quantity, 5);
}
