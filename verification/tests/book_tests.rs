use hl_rust_core::book::{CoinBook, OrderEntry};
use hl_rust_core::diff::{apply, ApplyResult};
use hl_rust_core::price::Price;
use hl_rust_core::schemas::book_diff::{BookDiff, NewOrder, RawBookDiff, UpdateOrder};
use hl_rust_core::schemas::common::{Order, Side};

fn mk_order(oid: u64, side: Side, px: &str, sz: &str) -> Order {
    Order {
        coin: "X".to_string(),
        side,
        limit_px: px.to_string(),
        sz: sz.to_string(),
        oid,
        timestamp: 0,
        trigger_condition: "N/A".to_string(),
        is_trigger: false,
        trigger_px: "0.0".to_string(),
        is_position_tpsl: false,
        reduce_only: false,
        order_type: "Limit".to_string(),
        orig_sz: String::new(),
        tif: None,
        cloid: None,
    }
}

fn mk_entry(user: &str, oid: u64, side: Side, px: &str, sz: &str) -> OrderEntry {
    OrderEntry::new(user.to_string(), mk_order(oid, side, px, sz))
}

fn new_diff(user: &str, oid: u64, side: Side, px: &str, sz: &str) -> BookDiff {
    BookDiff {
        user: user.to_string(),
        oid,
        coin: "X".to_string(),
        side,
        px: px.to_string(),
        raw_book_diff: RawBookDiff::New { new: NewOrder { sz: sz.to_string() } },
    }
}

#[test]
fn basic_book_assembly() {
    // Two bids and one ask give best bid 101, best ask 103, spread 2.
    let mut book = CoinBook::new("X".to_string());
    book.insert(mk_entry("u1", 1, Side::Bid, "100", "2"));
    book.insert(mk_entry("u2", 2, Side::Bid, "101", "1"));
    book.insert(mk_entry("u3", 3, Side::Ask, "103", "5"));

    let (bid, ask, spread) = book.spread().expect("both sides present");
    assert_eq!(bid.to_decimal_string(), "101");
    assert_eq!(ask.to_decimal_string(), "103");
    assert_eq!(spread.to_decimal_string(), "2");
    assert_eq!(book.total_orders(), 3);
    assert_eq!(book.bid_levels(), 2);
    assert_eq!(book.ask_levels(), 1);
}

#[test]
fn fifo_at_level() {
    // Two bids at the same price keep arrival order.
    let mut book = CoinBook::new("X".to_string());
    book.insert(mk_entry("u1", 10, Side::Bid, "100", "1"));
    book.insert(mk_entry("u2", 11, Side::Bid, "100", "2"));

    let (_, level) = book.best_bid().expect("one bid level");
    let orders = level.orders();
    assert_eq!(orders.len(), 2);
    assert_eq!(orders[0].oid(), 10);
    assert_eq!(orders[1].oid(), 11);
}

#[test]
fn guarded_update() {
    // A resize applies only when the guard names the recorded size.
    let mut book = CoinBook::new("X".to_string());
    book.insert(mk_entry("u", 7, Side::Bid, "100", "5"));

    assert!(!book.update(7, "4", "3".to_string()));
    let (_, level) = book.best_bid().unwrap();
    assert_eq!(level.find_by_oid(7).unwrap().size_str(), "5");

    assert!(book.update(7, "5", "3".to_string()));
    let (_, level) = book.best_bid().unwrap();
    assert_eq!(level.find_by_oid(7).unwrap().size_str(), "3");
}

#[test]
fn second_insert_is_noop() {
    // The oid already rests in the book, so the replay changes nothing.
    let mut book = CoinBook::new("X".to_string());
    book.insert(mk_entry("u", 1, Side::Bid, "100", "2"));
    book.insert(mk_entry("u", 1, Side::Bid, "999", "7"));
    assert_eq!(book.total_orders(), 1);
    let (bid, _, _) = {
        book.insert(mk_entry("z", 2, Side::Ask, "105", "1"));
        book.spread().unwrap()
    };
    assert_eq!(bid.to_decimal_string(), "100");
}

#[test]
fn remove_absent_is_not_present() {
    let mut book = CoinBook::new("X".to_string());
    book.insert(mk_entry("u", 1, Side::Bid, "100", "2"));
    assert!(book.remove(42).is_none());
    assert_eq!(book.total_orders(), 1);
    assert_eq!(book.bid_levels(), 1);
}

#[test]
fn update_chain_guard() {
    // After update(7, 5 -> 3), a second update applies iff its guard is 3.
    let mut book = CoinBook::new("X".to_string());
    book.insert(mk_entry("u", 7, Side::Ask, "100", "5"));
    assert!(book.update(7, "5", "3".to_string()));
    assert!(!book.update(7, "5", "9".to_string()));
    assert!(book.update(7, "3", "9".to_string()));
}

#[test]
fn remove_evicts_empty_level() {
    let mut book = CoinBook::new("X".to_string());
    book.insert(mk_entry("u", 1, Side::Bid, "100", "2"));
    book.insert(mk_entry("u", 2, Side::Bid, "101", "2"));
    let removed = book.remove(2).expect("present");
    assert_eq!(removed.oid(), 2);
    assert_eq!(book.bid_levels(), 1);
    assert_eq!(book.best_bid().unwrap().0.to_decimal_string(), "100");
    assert!(!book.contains(2));
    assert!(book.contains(1));
}

#[test]
fn index_returns_owner() {
    let mut book = CoinBook::new("X".to_string());
    book.insert(mk_entry("alice", 5, Side::Ask, "103", "1"));
    assert_eq!(book.get_user(5).unwrap(), "alice");
    assert!(book.get_user(6).is_none());
}

#[test]
fn unparsable_price_is_skipped() {
    let mut book = CoinBook::new("X".to_string());
    book.insert(mk_entry("u", 1, Side::Bid, "not-a-price", "2"));
    assert_eq!(book.total_orders(), 0);
    assert!(book.spread().is_none());

    // A diff carrying such a price is reported as a skip.
    let d = new_diff("u", 2, Side::Bid, "not-a-price", "2");
    assert_eq!(apply(&mut book, d), ApplyResult::Skipped);
    assert_eq!(book.total_orders(), 0);
}

#[test]
fn non_crossed_book_has_nonnegative_spread() {
    // The book does not enforce bid <= ask; on non-crossed input the
    // spread is nonnegative.
    let mut book = CoinBook::new("X".to_string());
    book.insert(mk_entry("u", 1, Side::Bid, "99.5", "2"));
    book.insert(mk_entry("u", 2, Side::Ask, "100.25", "2"));
    let (bid, ask, spread) = book.spread().unwrap();
    assert!(bid.units() <= ask.units());
    assert!(spread.units() >= 0);
    assert_eq!(spread.to_decimal_string(), "0.75");
}

#[test]
fn replaying_one_diff_leaves_state_unchanged() {
    // Each diff is idempotent against a book that already reflects it.
    let mut book = CoinBook::new("X".to_string());
    let d = new_diff("u", 1, Side::Bid, "100", "2");
    assert_eq!(apply(&mut book, d), ApplyResult::Applied);
    let before = (book.total_orders(), book.bid_levels());
    let d_again = new_diff("u", 1, Side::Bid, "100", "2");
    assert_eq!(apply(&mut book, d_again), ApplyResult::Skipped);
    assert_eq!((book.total_orders(), book.bid_levels()), before);

    let upd = BookDiff {
        user: "u".to_string(),
        oid: 1,
        coin: "X".to_string(),
        side: Side::Bid,
        px: "100".to_string(),
        raw_book_diff: RawBookDiff::Update {
            update: UpdateOrder { orig_sz: "2".to_string(), new_sz: "4".to_string() },
        },
    };
    assert_eq!(apply(&mut book, upd), ApplyResult::Applied);

    let rm = BookDiff {
        user: "u".to_string(),
        oid: 1,
        coin: "X".to_string(),
        side: Side::Bid,
        px: "100".to_string(),
        raw_book_diff: RawBookDiff::Remove("canceled".to_string()),
    };
    assert_eq!(apply(&mut book, rm), ApplyResult::Applied);
    let rm_again = BookDiff {
        user: "u".to_string(),
        oid: 1,
        coin: "X".to_string(),
        side: Side::Bid,
        px: "100".to_string(),
        raw_book_diff: RawBookDiff::Remove("canceled".to_string()),
    };
    assert_eq!(apply(&mut book, rm_again), ApplyResult::Skipped);
    assert_eq!(book.total_orders(), 0);
}

#[test]
fn price_ordering_is_total() {
    let a = Price::parse("1.5").unwrap();
    let b = Price::parse("1.50").unwrap();
    let c = Price::parse("2").unwrap();
    assert_eq!(a, b);
    assert!(a.lt(&c));
    assert!(!c.lt(&a));
}
