//! A price-time priority matching engine: orders, price levels, order
//! books with limit, stop and trailing-stop sides, and a market manager
//! that adds, modifies, executes and matches orders.

pub mod order;
pub mod level;
pub mod levels;
pub mod order_book;
pub mod consistency;
pub mod orders;
pub mod volumes;
pub mod engine;
pub mod matching;
pub mod activation;
pub mod operations;
pub mod market;
pub mod laws;
pub mod trailing_laws;
pub mod handler;
