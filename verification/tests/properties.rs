//! Property checks on concrete values: cross-representation agreement,
//! idempotent overwrite, no-op delete, the empty book, ordering, and
//! isolation of duplicated books.

use orderbook::{BTreeBook, HashMapBook, HybridBook, OrderBook, Side};

fn apply_ops<T: OrderBook>(book: &mut T, ops: &[(bool, Side, u64, u64)]) {
    for &(is_insert, side, price, quantity) in ops {
        if is_insert {
            book.insert(side, price, quantity);
        } else {
            book.delete(side, price);
        }
    }
}

fn snapshot<T: OrderBook>(
    book: &T,
) -> ((Option<(u64, u64)>, Option<(u64, u64)>), Vec<(u64, u64)>, Vec<(u64, u64)>) {
    (book.top(), book.bids(), book.asks())
}

#[test]
fn test_cross_implementation_equivalence() {
    let ops = [
        (true, Side::Bid, 105, 7),
        (true, Side::Ask, 110, 3),
        (true, Side::Bid, 101, 4),
        (true, Side::Bid, 105, 9),
        (false, Side::Bid, 101, 0),
        (true, Side::Ask, 108, 2),
        (false, Side::Ask, 110, 0),
        (true, Side::Bid, 99, 1),
        (false, Side::Bid, 7777, 0),
        (true, Side::Ask, 112, 5),
    ];
    let mut a = BTreeBook::new();
    let mut b = HashMapBook::new();
    let mut c = HybridBook::new();
    apply_ops(&mut a, &ops);
    apply_ops(&mut b, &ops);
    apply_ops(&mut c, &ops);
    assert_eq!(snapshot(&a), snapshot(&b));
    assert_eq!(snapshot(&b), snapshot(&c));
}

fn check_idempotent_overwrite<T: OrderBook>(mut new_book: impl FnMut() -> T) {
    let mut book = new_book();
    book.insert(Side::Bid, 100, 10);
    book.insert(Side::Bid, 100, 20);
    assert_eq!(book.bids().len(), 1);
    assert_eq!(book.top().0, Some((100, 20)));
}

#[test]
fn test_idempotent_overwrite() {
    check_idempotent_overwrite(BTreeBook::new);
    check_idempotent_overwrite(HashMapBook::new);
    check_idempotent_overwrite(HybridBook::new);
}

fn check_noop_delete<T: OrderBook>(mut new_book: impl FnMut() -> T) {
    let mut book = new_book();
    book.insert(Side::Bid, 100, 10);
    book.insert(Side::Ask, 120, 5);
    let before = snapshot(&book);
    book.delete(Side::Bid, 99);
    book.delete(Side::Ask, 100);
    assert_eq!(snapshot(&book), before);
}

#[test]
fn test_noop_delete() {
    check_noop_delete(BTreeBook::new);
    check_noop_delete(HashMapBook::new);
    check_noop_delete(HybridBook::new);
}

fn check_empty_top<T: OrderBook>(mut new_book: impl FnMut() -> T) {
    let book = new_book();
    assert_eq!(book.top(), (None, None));
    assert!(book.bids().is_empty());
    assert!(book.asks().is_empty());
}

#[test]
fn test_empty_book_top() {
    check_empty_top(BTreeBook::new);
    check_empty_top(HashMapBook::new);
    check_empty_top(HybridBook::new);
}

fn check_ordering<T: OrderBook>(mut new_book: impl FnMut() -> T) {
    let mut book = new_book();
    for &(p, q) in &[(50u64, 1u64), (99, 2), (7, 3), (80, 4), (13, 5)] {
        book.insert(Side::Bid, p, q);
        book.insert(Side::Ask, p, q);
    }
    let bids = book.bids();
    for w in bids.windows(2) {
        assert!(w[0].0 > w[1].0);
    }
    let asks = book.asks();
    for w in asks.windows(2) {
        assert!(w[0].0 < w[1].0);
    }
    assert_eq!(bids.len(), 5);
    assert_eq!(asks.len(), 5);
}

#[test]
fn test_ordering_law() {
    check_ordering(BTreeBook::new);
    check_ordering(HashMapBook::new);
    check_ordering(HybridBook::new);
}

fn check_clone_isolation<T: OrderBook + Clone>(mut new_book: impl FnMut() -> T) {
    let mut original = new_book();
    original.insert(Side::Bid, 100, 10);
    original.insert(Side::Ask, 120, 5);
    let before = snapshot(&original);

    let mut copy = original.clone();
    assert_eq!(snapshot(&copy), before);

    // Mutating the duplicate must not show in the original.
    copy.insert(Side::Bid, 100, 99);
    copy.insert(Side::Bid, 130, 1);
    copy.delete(Side::Ask, 120);
    assert_eq!(snapshot(&original), before);

    // And the other way round.
    let after_copy = snapshot(&copy);
    original.insert(Side::Ask, 119, 8);
    original.delete(Side::Bid, 100);
    assert_eq!(snapshot(&copy), after_copy);
}

#[test]
fn test_clone_isolation() {
    check_clone_isolation(BTreeBook::new);
    check_clone_isolation(HashMapBook::new);
    check_clone_isolation(HybridBook::new);
}

#[test]
fn test_hybrid_slot_reuse() {
    let mut book = HybridBook::new();
    book.insert(Side::Bid, 100, 10);
    book.insert(Side::Ask, 120, 5);
    book.delete(Side::Bid, 100);
    // The freed cell may be reused for the new level; the ask side must not
    // be disturbed by it.
    book.insert(Side::Bid, 90, 7);
    book.insert(Side::Bid, 95, 8);
    assert_eq!(book.top(), (Some((95, 8)), Some((120, 5))));
    assert_eq!(book.bids(), vec![(95, 8), (90, 7)]);
    assert_eq!(book.asks(), vec![(120, 5)]);
    // Overwrite through the hash index reaches the shared cell.
    book.insert(Side::Bid, 95, 11);
    assert_eq!(book.top().0, Some((95, 11)));
}
