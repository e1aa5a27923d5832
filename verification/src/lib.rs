//! An in-memory, single-symbol limit order book, offered in three
//! interchangeable representations, together with the fixed-point price
//! codec that feeds it.

pub mod book;
pub mod btree;
pub mod hashmap;
pub mod fp;
pub mod hybrid;
pub mod model;
mod hashindex;
mod levels;

pub use book::OrderBook;
pub use book::Side;
pub use btree::BTreeBook;
pub use hashmap::HashMapBook;
pub use hybrid::HybridBook;
