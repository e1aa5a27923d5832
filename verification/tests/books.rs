//! The shared correctness vectors, run against every representation.

use orderbook::{BTreeBook, HashMapBook, HybridBook, OrderBook, Side};

fn test_insert<T: OrderBook>(mut new_book: impl FnMut() -> T) {
    let mut book = new_book();

    book.insert(Side::Bid, 100, 10);
    assert_eq!(book.top(), (Some((100, 10)), None));
}

fn test_modify<T: OrderBook>(mut new_book: impl FnMut() -> T) {
    let mut book = new_book();
    book.insert(Side::Bid, 100, 10);
    book.insert(Side::Bid, 100, 20);

    assert_eq!(book.top(), (Some((100, 20)), None));
}

fn test_delete<T: OrderBook>(mut new_book: impl FnMut() -> T) {
    let mut book = new_book();
    book.insert(Side::Bid, 100, 10);
    book.delete(Side::Bid, 100);

    assert_eq!(book.top(), (None, None));
}

fn test_top<T: OrderBook>(mut new_book: impl FnMut() -> T) {
    let mut book = new_book();

    book.insert(Side::Ask, 140, 20);
    book.insert(Side::Ask, 130, 10);
    book.insert(Side::Ask, 120, 30);

    book.insert(Side::Bid, 110, 10);
    book.insert(Side::Bid, 100, 20);
    book.insert(Side::Bid, 90, 30);

    let top = book.top();
    assert_eq!(top, (Some((110, 10)), Some((120, 30))));

    book.delete(Side::Bid, 110);
    book.delete(Side::Bid, 100);
    book.delete(Side::Bid, 90);

    book.delete(Side::Ask, 120);
    book.delete(Side::Ask, 130);
    book.delete(Side::Ask, 140);

    assert_eq!(book.top(), (None, None));
}

fn test_bids<T: OrderBook>(mut new_book: impl FnMut() -> T) {
    let mut book = new_book();
    book.insert(Side::Bid, 100, 10);
    book.insert(Side::Bid, 90, 20);
    book.insert(Side::Bid, 80, 30);

    let bids = book.bids();
    assert_eq!(bids, vec![(100, 10), (90, 20), (80, 30)]);
}

fn test_asks<T: OrderBook>(mut new_book: impl FnMut() -> T) {
    let mut book = new_book();
    book.insert(Side::Ask, 100, 10);
    book.insert(Side::Ask, 90, 20);
    book.insert(Side::Ask, 80, 30);

    let asks = book.asks();
    assert_eq!(asks, vec![(80, 30), (90, 20), (100, 10)]);
}

fn test_all<T: OrderBook>(mut new_book: impl FnMut() -> T) {
    test_insert(&mut new_book);
    test_modify(&mut new_book);
    test_delete(&mut new_book);
    test_top(&mut new_book);
    test_bids(&mut new_book);
    test_asks(&mut new_book);
}

#[test]
fn test_btree_all() {
    test_all(BTreeBook::new);
}

#[test]
fn test_hashmap_all() {
    test_all(HashMapBook::new);
}

#[test]
fn test_hybrid_all() {
    test_all(HybridBook::new);
}
