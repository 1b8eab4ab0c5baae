use lib::handler::MarketHandler;
use lib::market::{Command, Symbol, SymbolVector};
use lib::order::ErrorCode;

fn name(c: char) -> [char; 8] {
    [c, ' ', ' ', ' ', ' ', ' ', ' ', ' ']
}

#[test]
fn symbol_vector_finds_the_first_symbol_of_an_id() {
    let mut v = SymbolVector::new();
    assert!(v.symbols.is_empty());
    assert_eq!(v.add(Symbol::new(1, name('A'))), Ok(()));
    assert_eq!(v.add(Symbol::new(2, name('B'))), Ok(()));
    assert_eq!(v.add(Symbol::new(1, name('C'))), Ok(()));
    assert_eq!(v.symbols.len(), 3);
    assert_eq!(v.get(1).unwrap().name, name('A'));
    assert!(v.get(3).is_none());
    assert_eq!(v.update(1, name('D')), Ok(()));
    assert_eq!((v.symbols[0].name, v.symbols[2].name), (name('D'), name('C')));
}

#[test]
fn symbol_vector_update_and_remove() {
    let mut v = SymbolVector::new();
    v.add(Symbol::new(1, name('A'))).unwrap();
    v.add(Symbol::new(2, name('B'))).unwrap();
    assert_eq!(v.update(2, name('Z')), Ok(()));
    assert_eq!(v.get(2).unwrap().name, name('Z'));
    assert_eq!(v.update(7, name('Q')), Err(ErrorCode::SymbolNotFound));
    let removed = v.remove(1).unwrap();
    assert_eq!((removed.id, removed.name), (1, name('A')));
    assert_eq!(v.symbols.len(), 1);
    assert_eq!(v.symbols[0].id, 2);
    assert!(matches!(v.remove(1), Err(ErrorCode::SymbolNotFound)));
}

#[test]
fn market_handler_starts_with_zero_counters() {
    let h = MarketHandler::new(5, 6, 7, 8, 9);
    assert_eq!(
        (h.max_symbols, h.max_order_books, h.max_order_book_levels, h.max_order_book_orders, h.max_orders),
        (5, 6, 7, 8, 9)
    );
    assert_eq!((h.updates, h.symbols, h.order_books, h.orders), (0, 0, 0, 0));
    let d = MarketHandler::default();
    assert_eq!((d.max_symbols, d.max_order_books, d.max_order_book_levels), (1000, 1000, 100));
    assert_eq!((d.max_order_book_orders, d.max_orders), (1000, 10000));
    assert_eq!((d.add_orders, d.update_orders, d.delete_orders, d.execute_orders), (0, 0, 0, 0));
}

#[test]
fn command_carries_its_time() {
    let c = Command { time: 42 };
    let d = c;
    assert_eq!(d.time, 42);
}
