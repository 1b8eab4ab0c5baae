//! The market handler's counters and limits.
use vstd::prelude::*;

verus! {

/// Counters of market updates and the limits they are kept within.
#[derive(Clone, Debug)]
pub struct MarketHandler {
    pub updates: u64,
    pub symbols: u64,
    pub max_symbols: u64,
    pub order_books: u64,
    pub max_order_books: u64,
    pub max_order_book_levels: u64,
    pub max_order_book_orders: u64,
    pub orders: u64,
    pub max_orders: u64,
    pub add_orders: u64,
    pub update_orders: u64,
    pub delete_orders: u64,
    pub execute_orders: u64,
}

impl MarketHandler {
    /// A handler with the given limits and all counters at zero.
    pub fn new(
        max_symbols: u64,
        max_order_books: u64,
        max_order_book_levels: u64,
        max_order_book_orders: u64,
        max_orders: u64,
    ) -> (h: MarketHandler)
        ensures
            h.max_symbols == max_symbols,
            h.max_order_books == max_order_books,
            h.max_order_book_levels == max_order_book_levels,
            h.max_order_book_orders == max_order_book_orders,
            h.max_orders == max_orders,
            h.updates == 0 && h.symbols == 0 && h.order_books == 0 && h.orders == 0,
            h.add_orders == 0 && h.update_orders == 0 && h.delete_orders == 0 && h.execute_orders == 0,
    {
        MarketHandler {
            updates: 0,
            symbols: 0,
            max_symbols,
            order_books: 0,
            max_order_books,
            max_order_book_levels,
            max_order_book_orders,
            orders: 0,
            max_orders,
            add_orders: 0,
            update_orders: 0,
            delete_orders: 0,
            execute_orders: 0,
        }
    }
}

impl Default for MarketHandler {
    /// A handler with room for 1000 symbols and order books, 100 levels
    /// and 1000 orders per book, and 10000 orders.
    fn default() -> (h: Self)
        ensures
            h.max_symbols == 1000,
            h.max_order_books == 1000,
            h.max_order_book_levels == 100,
            h.max_order_book_orders == 1000,
            h.max_orders == 10000,
            h.updates == 0 && h.symbols == 0 && h.order_books == 0 && h.orders == 0,
            h.add_orders == 0 && h.update_orders == 0 && h.delete_orders == 0 && h.execute_orders == 0,
    {
        MarketHandler::new(1000, 1000, 100, 1000, 10000)
    }
}

} // verus!
