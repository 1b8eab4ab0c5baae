use lib::engine::ExecutionContext;
use lib::order::{Order, OrderSide, OrderType, TimeInForce};
use lib::order_book::BookKind;

fn order(id: u64, side: OrderSide, order_type: OrderType, price: u64, quantity: u64, tif: TimeInForce) -> Order {
    Order {
        id,
        symbol_id: 1,
        order_type,
        order_side: side,
        price,
        stop_price: 0,
        quantity,
        executed_quantity: 0,
        leaves_quantity: quantity,
        time_in_force: tif,
        max_visible_quantity: u64::MAX,
        slippage: u64::MAX,
        trailing_distance: 0,
        trailing_step: 0,
    }
}

fn buy(id: u64, price: u64, quantity: u64) -> Order {
    order(id, OrderSide::Buy, OrderType::Limit, price, quantity, TimeInForce::GTC)
}

fn sell(id: u64, price: u64, quantity: u64) -> Order {
    order(id, OrderSide::Sell, OrderType::Limit, price, quantity, TimeInForce::GTC)
}

fn crossed(c: &ExecutionContext) -> bool {
    !c.book.bids.is_empty() && !c.book.asks.is_empty() && c.book.bids[0].price >= c.book.asks[0].price
}

#[test]
fn orders_that_do_not_cross_rest_in_the_book() {
    let mut c = ExecutionContext::new(1);
    assert_eq!(c.add_limit_order(buy(1, 100, 10), true, false), Ok(()));
    assert_eq!(c.add_limit_order(sell(2, 105, 10), true, false), Ok(()));
    assert_eq!(c.book.bids[0].price, 100);
    assert_eq!(c.book.asks[0].price, 105);
    assert!(c.orders.contains(1) && c.orders.contains(2));
    assert!(!crossed(&c));
}

#[test]
fn crossing_order_trades_at_the_resting_price() {
    let mut c = ExecutionContext::new(1);
    c.add_limit_order(buy(1, 100, 10), true, false).unwrap();
    c.add_limit_order(sell(2, 99, 4), true, false).unwrap();
    let resting = c.orders.find(1).unwrap();
    assert_eq!(resting.leaves_quantity, 6);
    assert_eq!(resting.executed_quantity, 4);
    assert!(!c.orders.contains(2));
    assert_eq!(c.book.bids[0].total_volume, 6);
    assert!(c.book.asks.is_empty());
    assert_eq!(c.book.last_bid_price, 100);
    assert_eq!(c.book.last_ask_price, 100);
    assert_eq!(c.book.matching_bid_price, 0);
    assert_eq!(c.book.matching_ask_price, u64::MAX);
}

#[test]
fn remainder_of_a_crossing_order_rests() {
    let mut c = ExecutionContext::new(1);
    c.add_limit_order(buy(1, 100, 10), true, false).unwrap();
    c.add_limit_order(sell(2, 100, 15), true, false).unwrap();
    assert!(!c.orders.contains(1));
    let rest = c.orders.find(2).unwrap();
    assert_eq!((rest.leaves_quantity, rest.executed_quantity), (5, 10));
    assert_eq!(c.book.asks[0].price, 100);
    assert_eq!(c.book.asks[0].total_volume, 5);
    assert!(c.book.bids.is_empty());
}

#[test]
fn immediate_or_cancel_remainder_is_dropped() {
    let mut c = ExecutionContext::new(1);
    c.add_limit_order(buy(1, 100, 10), true, false).unwrap();
    let ioc = order(2, OrderSide::Sell, OrderType::Limit, 100, 15, TimeInForce::IOC);
    c.add_limit_order(ioc, true, false).unwrap();
    assert!(!c.orders.contains(2));
    assert!(c.book.asks.is_empty() && c.book.bids.is_empty());
}

#[test]
fn match_order_trades_best_level_first_and_oldest_first() {
    let mut c = ExecutionContext::new(1);
    c.add_limit_order(sell(1, 101, 5), false, false).unwrap();
    c.add_limit_order(sell(2, 100, 5), false, false).unwrap();
    c.add_limit_order(sell(3, 100, 5), false, false).unwrap();
    let mut incoming = buy(4, 101, 12);
    c.match_order(&mut incoming);
    assert_eq!((incoming.leaves_quantity, incoming.executed_quantity), (0, 12));
    assert!(!c.orders.contains(2) && !c.orders.contains(3));
    assert_eq!(c.orders.find(1).unwrap().leaves_quantity, 3);
    assert_eq!(c.book.asks.len(), 1);
    assert_eq!(c.book.asks[0].price, 101);
}

#[test]
fn match_order_stops_where_prices_no_longer_cross() {
    let mut c = ExecutionContext::new(1);
    c.add_limit_order(sell(1, 100, 5), false, false).unwrap();
    c.add_limit_order(sell(2, 103, 5), false, false).unwrap();
    let mut incoming = buy(3, 101, 12);
    c.match_order(&mut incoming);
    assert_eq!(incoming.leaves_quantity, 7);
    assert_eq!(c.book.asks[0].price, 103);
}

#[test]
fn fill_or_kill_without_enough_volume_changes_nothing() {
    let mut c = ExecutionContext::new(1);
    c.add_limit_order(buy(1, 100, 10), false, false).unwrap();
    let fok = order(2, OrderSide::Sell, OrderType::Limit, 100, 15, TimeInForce::FOK);
    assert_eq!(c.calculate_matching_chain_single_level(false, 100, 15), 0);
    c.add_limit_order(fok, true, false).unwrap();
    assert!(!c.orders.contains(2));
    let resting = c.orders.find(1).unwrap();
    assert_eq!(resting.leaves_quantity, 10);
    assert_eq!(c.book.bids[0].total_volume, 10);
}

#[test]
fn fill_or_kill_with_enough_volume_fills_completely() {
    let mut c = ExecutionContext::new(1);
    c.add_limit_order(buy(1, 101, 10), false, false).unwrap();
    c.add_limit_order(buy(2, 100, 5), false, false).unwrap();
    assert_eq!(c.calculate_matching_chain_single_level(false, 100, 12), 12);
    assert_eq!(c.calculate_matching_chain_single_level(false, 101, 12), 0);
    let mut fok = order(3, OrderSide::Sell, OrderType::Limit, 100, 12, TimeInForce::FOK);
    c.match_order(&mut fok);
    assert_eq!((fok.leaves_quantity, fok.executed_quantity), (0, 12));
    assert!(!c.orders.contains(1));
    assert_eq!(c.orders.find(2).unwrap().leaves_quantity, 3);
}

#[test]
fn resting_all_or_none_order_blocks_a_smaller_order() {
    let mut c = ExecutionContext::new(1);
    let aon = order(1, OrderSide::Sell, OrderType::Limit, 100, 10, TimeInForce::AON);
    c.add_limit_order(aon, true, false).unwrap();
    c.add_limit_order(buy(2, 100, 5), true, false).unwrap();
    assert_eq!(c.orders.find(1).unwrap().leaves_quantity, 10);
    assert_eq!(c.orders.find(2).unwrap().leaves_quantity, 5);
    assert!(crossed(&c));
    assert_eq!(c.calculate_matching_chain_cross_levels(), 0);
}

#[test]
fn all_or_none_chain_trades_when_the_other_side_adds_up() {
    let mut c = ExecutionContext::new(1);
    let aon = order(1, OrderSide::Sell, OrderType::Limit, 100, 10, TimeInForce::AON);
    c.add_limit_order(aon, true, false).unwrap();
    c.add_limit_order(buy(2, 100, 6), true, false).unwrap();
    c.add_limit_order(buy(3, 100, 4), false, false).unwrap();
    assert_eq!(c.calculate_matching_chain_cross_levels(), 10);
    c.match_order_book();
    assert!(!c.orders.contains(1) && !c.orders.contains(2) && !c.orders.contains(3));
    assert!(c.book.bids.is_empty() && c.book.asks.is_empty());
    assert_eq!(c.book.last_bid_price, 100);
}

#[test]
fn match_order_book_uncrosses_the_book() {
    let mut c = ExecutionContext::new(1);
    c.add_limit_order(buy(1, 102, 5), false, false).unwrap();
    c.add_limit_order(buy(2, 101, 5), false, false).unwrap();
    c.add_limit_order(sell(3, 100, 7), false, false).unwrap();
    assert!(crossed(&c));
    c.match_order_book();
    assert!(!crossed(&c));
    assert!(!c.orders.contains(1) && !c.orders.contains(3));
    assert_eq!(c.orders.find(2).unwrap().leaves_quantity, 3);
    assert_eq!(c.orders.find(2).unwrap().executed_quantity, 2);
}

#[test]
fn market_order_trades_within_its_slippage() {
    let mut c = ExecutionContext::new(1);
    c.add_limit_order(sell(1, 100, 5), false, false).unwrap();
    c.add_limit_order(sell(2, 102, 5), false, false).unwrap();
    let mut m = order(3, OrderSide::Buy, OrderType::Market, 0, 8, TimeInForce::IOC);
    m.slippage = 1;
    c.add_market_order(m, true, false).unwrap();
    assert!(!c.orders.contains(1) && !c.orders.contains(3));
    assert_eq!(c.orders.find(2).unwrap().leaves_quantity, 5);
    assert_eq!(c.book.asks[0].price, 102);
}

#[test]
fn market_order_on_an_empty_side_does_nothing() {
    let mut c = ExecutionContext::new(1);
    c.add_limit_order(buy(1, 100, 5), false, false).unwrap();
    let mut m = order(2, OrderSide::Buy, OrderType::Market, 0, 8, TimeInForce::IOC);
    c.match_market(&mut m);
    assert_eq!(m.price, 0);
    assert_eq!(m.leaves_quantity, 8);
    assert_eq!(c.book.bids[0].total_volume, 5);
}

#[test]
fn stop_order_the_market_already_reached_trades_as_market_order() {
    let mut c = ExecutionContext::new(1);
    c.add_limit_order(sell(1, 101, 10), false, false).unwrap();
    let mut stop = order(2, OrderSide::Buy, OrderType::Stop, 0, 4, TimeInForce::GTC);
    stop.stop_price = 101;
    c.add_stop_order(stop, true, false).unwrap();
    assert!(!c.orders.contains(2));
    assert_eq!(c.orders.find(1).unwrap().leaves_quantity, 6);
    assert!(c.book.buy_stop.is_empty());
}

#[test]
fn stop_order_rests_until_the_market_reaches_it() {
    let mut c = ExecutionContext::new(1);
    c.add_limit_order(sell(1, 101, 10), false, false).unwrap();
    c.add_limit_order(sell(2, 105, 10), false, false).unwrap();
    let mut stop = order(3, OrderSide::Buy, OrderType::Stop, 0, 4, TimeInForce::GTC);
    stop.stop_price = 103;
    c.add_stop_order(stop, true, false).unwrap();
    assert_eq!(c.book.buy_stop[0].price, 103);
    assert!(c.orders.contains(3));
    assert!(!c.activate_individual_stop_orders(BookKind::Stop, true, 102));
    c.add_limit_order(buy(4, 101, 10), true, false).unwrap();
    assert!(!c.orders.contains(1));
    assert_eq!(c.book.asks[0].price, 105);
    assert_eq!(c.book.buy_stop[0].price, 103);
    c.match_order_book();
    assert!(c.book.buy_stop.is_empty());
    assert!(!c.orders.contains(3));
    assert_eq!(c.orders.find(2).unwrap().leaves_quantity, 6);
}

#[test]
fn stop_limit_order_becomes_a_resting_limit_order() {
    let mut c = ExecutionContext::new(1);
    c.add_limit_order(sell(1, 100, 3), false, false).unwrap();
    let mut sl = order(2, OrderSide::Buy, OrderType::StopLimit, 100, 5, TimeInForce::GTC);
    sl.stop_price = 100;
    c.add_stop_limit_order(sl, true, false).unwrap();
    let rest = c.orders.find(2).unwrap();
    assert_eq!(rest.order_type, OrderType::Limit);
    assert_eq!(rest.stop_price, 0);
    assert_eq!((rest.leaves_quantity, rest.executed_quantity), (2, 3));
    assert_eq!(c.book.bids[0].price, 100);
    assert!(c.book.buy_stop.is_empty());
}

#[test]
fn stop_limit_order_activation_by_id() {
    let mut c = ExecutionContext::new(1);
    let mut sl = order(2, OrderSide::Sell, OrderType::StopLimit, 90, 5, TimeInForce::GTC);
    sl.stop_price = 95;
    c.add_stop_limit_order(sl, false, false).unwrap();
    assert_eq!(c.book.sell_stop[0].price, 95);
    assert!(c.activate_stop_limit_order(2));
    assert!(c.book.sell_stop.is_empty());
    assert_eq!(c.book.asks[0].price, 90);
    assert_eq!(c.orders.find(2).unwrap().order_type, OrderType::Limit);
}

#[test]
fn trailing_buy_stop_follows_the_market_down() {
    let mut c = ExecutionContext::new(1);
    c.add_limit_order(sell(1, 100, 10), false, false).unwrap();
    c.book.last_ask_price = 100;
    let mut t = order(2, OrderSide::Buy, OrderType::TrailingStop, 0, 5, TimeInForce::GTC);
    t.stop_price = 200;
    t.trailing_distance = 10;
    t.trailing_step = 1;
    c.add_stop_order(t, false, false).unwrap();
    assert_eq!(c.orders.find(2).unwrap().stop_price, 110);
    assert_eq!(c.book.trailing_buy_stop[0].price, 110);
    c.add_limit_order(sell(3, 90, 10), false, false).unwrap();
    c.book.last_ask_price = 90;
    c.recalculate_trailing_stop_price(true);
    assert_eq!(c.book.trailing_ask_price, 0);
    assert_eq!(c.orders.find(2).unwrap().stop_price, 110);
    c.book.trailing_ask_price = u64::MAX;
    c.recalculate_trailing_stop_price(true);
    assert_eq!(c.book.trailing_ask_price, 90);
    assert_eq!(c.orders.find(2).unwrap().stop_price, 100);
    assert_eq!(c.book.trailing_buy_stop.len(), 1);
    assert_eq!(c.book.trailing_buy_stop[0].price, 100);
}

#[test]
fn trailing_stop_limit_keeps_its_limit_distance() {
    let mut c = ExecutionContext::new(1);
    c.add_limit_order(buy(1, 100, 10), false, false).unwrap();
    c.book.last_bid_price = u64::MAX;
    let mut t = order(2, OrderSide::Sell, OrderType::TrailingStopLimit, 45, 5, TimeInForce::GTC);
    t.stop_price = 50;
    t.trailing_distance = 10;
    t.trailing_step = 5;
    c.add_stop_limit_order(t, false, false).unwrap();
    let o = c.orders.find(2).unwrap();
    assert_eq!((o.stop_price, o.price), (90, 85));
    assert_eq!(c.book.trailing_sell_stop[0].price, 90);
}

#[test]
fn trailing_stop_price_formula() {
    let mut c = ExecutionContext::new(1);
    c.add_limit_order(sell(1, 100, 10), false, false).unwrap();
    c.book.last_ask_price = 0;
    let mut t = order(2, OrderSide::Buy, OrderType::TrailingStop, 0, 5, TimeInForce::GTC);
    t.stop_price = 200;
    t.trailing_distance = 10;
    t.trailing_step = 5;
    assert_eq!(c.book.calculate_trailing_stop_price(&t), 110);
    t.trailing_distance = -1000;
    t.trailing_step = -100;
    assert_eq!(c.book.calculate_trailing_stop_price(&t), 110);
    t.stop_price = 112;
    assert_eq!(c.book.calculate_trailing_stop_price(&t), 110);
    t.trailing_distance = 10;
    t.trailing_step = 5;
    assert_eq!(c.book.calculate_trailing_stop_price(&t), 112);
    t.trailing_distance = -1000;
    assert_eq!(c.book.calculate_trailing_stop_price(&t), 112);
}

#[test]
fn reduce_execute_and_delete_resting_orders() {
    let mut c = ExecutionContext::new(1);
    c.add_limit_order(buy(1, 100, 10), false, false).unwrap();
    assert_eq!(c.reduce_order(1, 3, false, false), Ok(()));
    let o = c.orders.find(1).unwrap();
    assert_eq!((o.leaves_quantity, o.executed_quantity), (7, 0));
    assert_eq!(c.book.bids[0].total_volume, 7);
    assert_eq!(c.execute_order(1, 99, 5, false), Ok(()));
    let o = c.orders.find(1).unwrap();
    assert_eq!((o.leaves_quantity, o.executed_quantity), (2, 5));
    assert_eq!(c.book.last_bid_price, 100);
    assert_eq!(c.execute_order(1, 99, 50, false), Ok(()));
    assert!(!c.orders.contains(1));
    assert!(c.book.bids.is_empty());
}

#[test]
fn modify_with_mitigation_counts_what_was_executed() {
    let mut c = ExecutionContext::new(1);
    c.add_limit_order(buy(1, 100, 10), false, false).unwrap();
    c.execute_order(1, 100, 4, false).unwrap();
    assert_eq!(c.modify_order(1, 101, 12, true, false, false), Ok(()));
    let o = c.orders.find(1).unwrap();
    assert_eq!((o.price, o.quantity, o.leaves_quantity, o.executed_quantity), (101, 12, 8, 4));
    assert_eq!(c.book.bids[0].price, 101);
    assert_eq!(c.mitigate_order(1, 101, 3), Ok(()));
    assert!(!c.orders.contains(1));
    assert!(c.book.bids.is_empty());
}

#[test]
fn modify_without_mitigation_takes_the_new_quantity() {
    let mut c = ExecutionContext::new(1);
    c.add_limit_order(sell(1, 100, 10), false, false).unwrap();
    c.execute_order(1, 100, 4, false).unwrap();
    c.modify_order(1, 99, 9, false, false, false).unwrap();
    let o = c.orders.find(1).unwrap();
    assert_eq!((o.price, o.leaves_quantity, o.executed_quantity), (99, 9, 4));
}

#[test]
fn replace_gives_a_fresh_order_under_a_new_id() {
    let mut c = ExecutionContext::new(1);
    c.add_limit_order(buy(1, 100, 10), false, false).unwrap();
    c.execute_order(1, 100, 4, false).unwrap();
    assert_eq!(c.replace_order_internal(1, 7, 98, 20, false, false), Ok(()));
    assert!(!c.orders.contains(1));
    let o = c.orders.find(7).unwrap();
    assert_eq!((o.id, o.price, o.quantity, o.leaves_quantity, o.executed_quantity), (7, 98, 20, 20, 0));
    assert_eq!(c.book.bids[0].order_list.list, vec![7]);
}

#[test]
fn delete_then_book_is_empty_again() {
    let mut c = ExecutionContext::new(1);
    c.add_limit_order(buy(1, 100, 10), false, false).unwrap();
    assert_eq!(c.delete_order_recursive(1, true, false), Ok(()));
    assert!(c.book.bids.is_empty());
    assert!(!c.orders.contains(1));
}

#[test]
fn level_reductions_by_kind() {
    let mut c = ExecutionContext::new(1);
    c.add_limit_order(buy(1, 100, 10), false, false).unwrap();
    let mut t = order(2, OrderSide::Sell, OrderType::TrailingStop, 0, 6, TimeInForce::GTC);
    t.stop_price = 50;
    c.add_stop_order(t, false, false).unwrap();
    assert_eq!(c.update_level_on_reduction(1, 4), Ok(()));
    assert_eq!(c.book.bids[0].total_volume, 6);
    assert_eq!(c.reduce_trailing_stop_order(2, 6), Ok(()));
    assert!(c.book.trailing_sell_stop.is_empty());
    assert!(!c.orders.contains(2));
    assert_eq!(c.remove_order(1), Ok(()));
    assert!(c.book.bids.is_empty());
}

#[test]
fn triggered_stop_level_is_activated_whole() {
    let mut c = ExecutionContext::new(1);
    c.add_limit_order(sell(1, 100, 10), false, false).unwrap();
    let mut s1 = order(2, OrderSide::Buy, OrderType::Stop, 0, 3, TimeInForce::GTC);
    s1.stop_price = 102;
    c.add_stop_order(s1, false, false).unwrap();
    let mut s2 = order(3, OrderSide::Buy, OrderType::StopLimit, 99, 4, TimeInForce::GTC);
    s2.stop_price = 102;
    c.add_stop_limit_order(s2, false, false).unwrap();
    assert_eq!(c.book.buy_stop[0].total_volume, 7);
    assert!(c.activate_individual_stop_orders(BookKind::Stop, true, 102));
    assert!(c.book.buy_stop.is_empty());
    assert!(!c.orders.contains(2));
    let rest = c.orders.find(3).unwrap();
    assert_eq!(rest.order_type, OrderType::Limit);
    assert_eq!(rest.leaves_quantity, 4);
    assert_eq!(c.book.bids[0].price, 99);
    assert_eq!(c.orders.find(1).unwrap().leaves_quantity, 7);
}

#[test]
fn no_plain_stop_is_left_triggered_after_activation() {
    let mut c = ExecutionContext::new(1);
    c.add_limit_order(sell(1, 100, 10), false, false).unwrap();
    c.add_limit_order(buy(2, 95, 10), false, false).unwrap();
    let mut s1 = order(3, OrderSide::Buy, OrderType::Stop, 0, 2, TimeInForce::GTC);
    s1.stop_price = 105;
    c.add_stop_order(s1, false, false).unwrap();
    let mut s2 = order(4, OrderSide::Sell, OrderType::Stop, 0, 2, TimeInForce::GTC);
    s2.stop_price = 90;
    c.add_stop_order(s2, false, false).unwrap();
    assert!(!c.activate_stop_orders());
    c.add_limit_order(buy(5, 100, 10), true, false).unwrap();
    c.add_limit_order(buy(6, 106, 1), false, false).unwrap();
    c.book.matching_ask_price = 105;
    assert!(c.activate_stop_orders());
    assert!(!c.orders.contains(3));
    assert_eq!(c.book.sell_stop[0].price, 90);
}
