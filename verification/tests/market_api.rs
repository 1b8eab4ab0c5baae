use lib::market::{
    activate_individual_stop_orders, activate_stop_limit_order, activate_stop_order,
    activate_stop_orders, activate_stop_orders_level, add_limit_order, add_market_order,
    add_order, add_order_book_handle, add_stop_limit_order, add_stop_order, add_symbol,
    delete_order, delete_order_recursive, delete_trailing_stop_order, find_symbol_by_id,
    match_limit, match_market, match_order, match_order_book, mitigate_order, modify_order,
    reduce_order, reduce_trailing_stop_order, replace_order, replace_order_id,
    replace_order_internal, MarketExecutor, OBMap, Symbol,
};
use lib::order::{ErrorCode, Order, OrderSide, OrderType, TimeInForce};
use lib::order_book::{BookKind, OrderBook};

fn order(id: u64, symbol: u64, side: OrderSide, order_type: OrderType, price: u64, quantity: u64) -> Order {
    Order {
        id,
        symbol_id: symbol,
        order_type,
        order_side: side,
        price,
        stop_price: 0,
        quantity,
        executed_quantity: 0,
        leaves_quantity: quantity,
        time_in_force: TimeInForce::GTC,
        max_visible_quantity: u64::MAX,
        slippage: u64::MAX,
        trailing_distance: 0,
        trailing_step: 0,
    }
}

fn market_with(symbols: &[u64]) -> MarketExecutor {
    let mut m = MarketExecutor::new();
    for s in symbols {
        add_symbol(&mut m, Symbol::new(*s, ['S', 'Y', 'M', ' ', ' ', ' ', ' ', ' '])).unwrap();
        add_order_book_handle(&mut m, *s).unwrap();
    }
    m
}

#[test]
fn symbols_are_unique() {
    let mut m = MarketExecutor::new();
    let s = Symbol::new(3, ['A', 'B', 'C', ' ', ' ', ' ', ' ', ' ']);
    assert_eq!(add_symbol(&mut m, s), Ok(()));
    assert_eq!(add_symbol(&mut m, s), Err(ErrorCode::SymbolDuplicate));
    assert_eq!(m.symbols.len(), 1);
    assert_eq!(find_symbol_by_id(&m.symbols, 3).unwrap().id, 3);
    assert!(find_symbol_by_id(&m.symbols, 4).is_none());
}

#[test]
fn order_books_need_a_symbol_and_are_unique() {
    let mut m = MarketExecutor::new();
    assert_eq!(add_order_book_handle(&mut m, 3), Err(ErrorCode::SymbolNotFound));
    add_symbol(&mut m, Symbol::new(3, [' '; 8])).unwrap();
    assert_eq!(add_order_book_handle(&mut m, 3), Ok(()));
    assert_eq!(add_order_book_handle(&mut m, 3), Err(ErrorCode::OrderBookDuplicate));
    assert!(m.order_books.contains(3));
}

#[test]
fn order_book_map_operations() {
    let mut books = OBMap::new();
    assert_eq!(books.add_order_book(5, OrderBook::new()), Ok(()));
    assert_eq!(books.add_order_book(5, OrderBook::new()), Err(ErrorCode::OrderBookDuplicate));
    assert!(books.get_order_book(&5).is_ok());
    assert_eq!(books.get_order_book(&6).err(), Some(ErrorCode::OrderBookNotFound));
    assert!(books.remove_order_book(&5).is_ok());
    assert_eq!(books.remove_order_book(&5).err(), Some(ErrorCode::OrderBookNotFound));
}

#[test]
fn add_order_reports_validation_errors() {
    let mut m = market_with(&[1]);
    let zero_id = order(0, 1, OrderSide::Buy, OrderType::Limit, 100, 5);
    assert_eq!(add_order(&mut m, zero_id, true, false), Err(ErrorCode::OrderIdInvalid));
    let buy_type = order(1, 1, OrderSide::Buy, OrderType::Buy, 100, 5);
    assert_eq!(add_order(&mut m, buy_type, true, false), Err(ErrorCode::OrderTypeInvalid));
    let mut overflow = order(2, 1, OrderSide::Buy, OrderType::Limit, 100, 5);
    overflow.executed_quantity = u64::MAX;
    assert_eq!(add_order(&mut m, overflow, true, false), Err(ErrorCode::OrderQuantityInvalid));
    let no_book = order(3, 9, OrderSide::Buy, OrderType::Limit, 100, 5);
    assert_eq!(add_order(&mut m, no_book, true, false), Err(ErrorCode::OrderBookNotFound));
    assert!(m.orders.find(3).is_none());
}

#[test]
fn add_order_with_a_taken_id_does_not_rest() {
    let mut m = market_with(&[1]);
    let o = order(1, 1, OrderSide::Buy, OrderType::Limit, 100, 5);
    assert_eq!(add_order(&mut m, o, true, false), Ok(()));
    let again = order(1, 1, OrderSide::Buy, OrderType::Limit, 101, 7);
    assert_eq!(add_order(&mut m, again, true, false), Ok(()));
    assert_eq!(m.orders.find(1).unwrap().leaves_quantity, 5);
    assert_eq!(m.orders.find(1).unwrap().price, 100);
    let book = m.order_books.get_order_book(&1).unwrap();
    assert_eq!(book.bids.len(), 1);
    assert_eq!(book.bids[0].total_volume, 5);
}

#[test]
fn add_order_dispatches_by_kind() {
    let mut m = market_with(&[1]);
    add_order(&mut m, order(1, 1, OrderSide::Sell, OrderType::Limit, 100, 5), true, false).unwrap();
    add_order(&mut m, order(5, 1, OrderSide::Buy, OrderType::Limit, 60, 3), true, false).unwrap();
    let mut market = order(2, 1, OrderSide::Buy, OrderType::Market, 0, 2);
    market.time_in_force = TimeInForce::IOC;
    add_order(&mut m, market, true, false).unwrap();
    assert_eq!(m.orders.find(1).unwrap().leaves_quantity, 3);
    let mut stop = order(3, 1, OrderSide::Sell, OrderType::Stop, 0, 2);
    stop.stop_price = 50;
    add_order(&mut m, stop, true, false).unwrap();
    let mut stop_limit = order(4, 1, OrderSide::Sell, OrderType::StopLimit, 40, 2);
    stop_limit.stop_price = 45;
    add_order(&mut m, stop_limit, true, false).unwrap();
    let book = m.order_books.get_order_book(&1).unwrap();
    assert_eq!(book.sell_stop.len(), 2);
    assert_eq!(book.sell_stop[0].price, 50);
}

#[test]
fn orders_of_one_symbol_leave_other_books_alone() {
    let mut m = market_with(&[1, 2]);
    add_limit_order(&mut m, order(1, 1, OrderSide::Buy, OrderType::Limit, 100, 5), true, false).unwrap();
    add_limit_order(&mut m, order(2, 2, OrderSide::Sell, OrderType::Limit, 90, 5), true, false).unwrap();
    assert_eq!(m.orders.find(1).unwrap().leaves_quantity, 5);
    assert_eq!(m.orders.find(2).unwrap().leaves_quantity, 5);
    assert_eq!(m.order_books.get_order_book(&1).unwrap().bids[0].price, 100);
    assert_eq!(m.order_books.get_order_book(&2).unwrap().asks[0].price, 90);
}

#[test]
fn id_operations_report_missing_orders() {
    let mut m = market_with(&[1]);
    assert_eq!(reduce_order(&mut m, 0, 5, true, false), Err(ErrorCode::OrderIdInvalid));
    assert_eq!(reduce_order(&mut m, 4, 0, true, false), Err(ErrorCode::OrderQuantityInvalid));
    assert_eq!(reduce_order(&mut m, 4, 5, true, false), Err(ErrorCode::OrderNotFound));
    assert_eq!(modify_order(&mut m, 4, 100, 5, false, true, false), Err(ErrorCode::OrderNotFound));
    assert_eq!(modify_order(&mut m, 4, 100, 0, false, true, false), Err(ErrorCode::OrderQuantityInvalid));
    assert_eq!(mitigate_order(&mut m, 0, 100, 5), Err(ErrorCode::OrderIdInvalid));
    assert_eq!(delete_order(&mut m, 4, true, false), Err(ErrorCode::OrderNotFound));
    assert_eq!(delete_order_recursive(&mut m, 0, true, false), Err(ErrorCode::OrderIdInvalid));
    assert_eq!(replace_order_internal(&mut m, 4, 0, 100, 5, true, false), Err(ErrorCode::OrderIdInvalid));
    assert_eq!(replace_order_id(&mut m, 4, 5, 100, 5), Err(ErrorCode::OrderNotFound));
    assert_eq!(m.execute_order(4, 100, 5, true), Err(ErrorCode::OrderNotFound));
    assert_eq!(m.execute_order(4, 100, 0, true), Err(ErrorCode::OrderQuantityInvalid));
    assert_eq!(reduce_trailing_stop_order(&mut m, 4, 1), Err(ErrorCode::OrderNotFound));
    assert_eq!(delete_trailing_stop_order(&mut m, 4), Err(ErrorCode::OrderNotFound));
}

#[test]
fn replace_only_takes_limit_orders() {
    let mut m = market_with(&[1]);
    let mut stop = order(1, 1, OrderSide::Buy, OrderType::Stop, 0, 5);
    stop.stop_price = 120;
    add_stop_order(&mut m, stop, false, false).unwrap();
    assert_eq!(replace_order_id(&mut m, 1, 2, 100, 5), Err(ErrorCode::OrderTypeInvalid));
    assert_eq!(reduce_trailing_stop_order(&mut m, 1, 1), Err(ErrorCode::OrderTypeInvalid));
    assert_eq!(delete_trailing_stop_order(&mut m, 1), Err(ErrorCode::OrderTypeInvalid));
}

#[test]
fn replace_with_a_taken_id_fails() {
    let mut m = market_with(&[1]);
    add_limit_order(&mut m, order(1, 1, OrderSide::Buy, OrderType::Limit, 100, 5), true, false).unwrap();
    add_limit_order(&mut m, order(2, 1, OrderSide::Buy, OrderType::Limit, 99, 5), true, false).unwrap();
    assert_eq!(replace_order_id(&mut m, 1, 2, 98, 5), Err(ErrorCode::OrderDuplicate));
    assert!(m.orders.find(1).is_none());
    assert_eq!(m.orders.find(2).unwrap().price, 99);
}

#[test]
fn replace_order_deletes_then_adds() {
    let mut m = market_with(&[1]);
    add_limit_order(&mut m, order(1, 1, OrderSide::Buy, OrderType::Limit, 100, 5), true, false).unwrap();
    let new = order(8, 1, OrderSide::Buy, OrderType::Limit, 97, 3);
    assert_eq!(replace_order(&mut m, 1, new, true, false), Ok(()));
    assert!(m.orders.find(1).is_none());
    assert_eq!(m.orders.find(8).unwrap().price, 97);
    assert_eq!(replace_order(&mut m, 1, new, true, false), Err(ErrorCode::OrderNotFound));
}

#[test]
fn market_level_execution_and_reduction() {
    let mut m = market_with(&[1]);
    add_limit_order(&mut m, order(1, 1, OrderSide::Sell, OrderType::Limit, 100, 10), true, false).unwrap();
    assert_eq!(m.execute_order(1, 101, 4, true), Ok(()));
    assert_eq!(m.orders.find(1).unwrap().executed_quantity, 4);
    assert_eq!(m.order_books.get_order_book(&1).unwrap().last_ask_price, 100);
    assert_eq!(reduce_order(&mut m, 1, 2, true, false), Ok(()));
    assert_eq!(m.orders.find(1).unwrap().leaves_quantity, 4);
    assert_eq!(modify_order(&mut m, 1, 102, 6, true, true, false), Ok(()));
    assert_eq!(m.orders.find(1).unwrap().leaves_quantity, 2);
    assert_eq!(delete_order(&mut m, 1, true, false), Ok(()));
    assert!(m.orders.find(1).is_none());
}

#[test]
fn market_level_matching_entry_points() {
    let mut m = market_with(&[1]);
    add_limit_order(&mut m, order(1, 1, OrderSide::Sell, OrderType::Limit, 100, 10), false, false).unwrap();
    let mut incoming = order(2, 1, OrderSide::Buy, OrderType::Limit, 100, 4);
    assert_eq!(match_limit(&mut m, &mut incoming), Ok(()));
    assert_eq!(incoming.leaves_quantity, 0);
    let mut again = order(3, 1, OrderSide::Buy, OrderType::Limit, 100, 1);
    assert_eq!(match_order(&mut m, &mut again), Ok(()));
    let mut mkt = order(4, 1, OrderSide::Buy, OrderType::Market, 0, 2);
    assert_eq!(match_market(&mut m, &mut mkt), Ok(()));
    assert_eq!(mkt.executed_quantity, 2);
    assert_eq!(m.orders.find(1).unwrap().leaves_quantity, 3);
    let mut elsewhere = order(5, 7, OrderSide::Buy, OrderType::Limit, 100, 1);
    assert_eq!(match_order(&mut m, &mut elsewhere), Err(ErrorCode::OrderBookNotFound));
    assert_eq!(match_order_book(&mut m, 7), Err(ErrorCode::OrderBookNotFound));
    assert_eq!(match_order_book(&mut m, 1), Ok(()));
}

#[test]
fn market_level_stop_activation() {
    let mut m = market_with(&[1]);
    add_limit_order(&mut m, order(1, 1, OrderSide::Buy, OrderType::Limit, 95, 10), false, false).unwrap();
    let mut stop = order(2, 1, OrderSide::Sell, OrderType::Stop, 0, 3);
    stop.stop_price = 90;
    add_stop_order(&mut m, stop, false, false).unwrap();
    let mut stop_limit = order(3, 1, OrderSide::Sell, OrderType::StopLimit, 80, 3);
    stop_limit.stop_price = 85;
    add_stop_limit_order(&mut m, stop_limit, false, false).unwrap();
    assert!(!activate_stop_orders_level(&mut m, 1, false, 99));
    assert!(!activate_individual_stop_orders(&mut m, 1, BookKind::Stop, false, 99));
    assert!(activate_stop_order(&mut m, 2));
    assert!(m.orders.find(2).is_none());
    assert_eq!(m.orders.find(1).unwrap().leaves_quantity, 7);
    assert!(!activate_stop_order(&mut m, 3));
    assert!(activate_stop_limit_order(&mut m, 3));
    assert_eq!(m.orders.find(1).unwrap().leaves_quantity, 4);
    assert!(m.orders.find(3).is_none());
    assert!(!activate_stop_orders(&mut m, 1));
    assert!(!activate_stop_orders(&mut m, 9));
}

#[test]
fn market_order_through_the_market() {
    let mut m = market_with(&[1]);
    add_limit_order(&mut m, order(1, 1, OrderSide::Buy, OrderType::Limit, 95, 10), false, false).unwrap();
    let mut mkt = order(2, 1, OrderSide::Sell, OrderType::Market, 0, 4);
    mkt.time_in_force = TimeInForce::IOC;
    assert_eq!(add_market_order(&mut m, mkt, true, false), Ok(()));
    assert_eq!(m.orders.find(1).unwrap().leaves_quantity, 6);
    assert!(m.orders.find(2).is_none());
}
