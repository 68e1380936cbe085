use hl_rust_core::book::CoinBook;
use hl_rust_core::diff::ApplyResult;
use hl_rust_core::loader::load_into;
use hl_rust_core::schemas::book_diff::{BookDiff, NewOrder, RawBookDiff};
use hl_rust_core::schemas::common::{Order, Side};
use hl_rust_core::schemas::l4_snapshot::{BookSnapshot, CoinSnapshot, L4Snapshot, UserOrder};
use hl_rust_core::service::OrderBookService;
use hl_rust_core::sync::{SyncConfig, SyncCoordinator};

fn mk_order(coin: &str, oid: u64, side: Side, px: &str, sz: &str) -> Order {
    Order {
        coin: coin.to_string(),
        side,
        limit_px: px.to_string(),
        sz: sz.to_string(),
        oid,
        timestamp: 0,
        trigger_condition: "N/A".to_string(),
        is_trigger: false,
        trigger_px: "0.0".to_string(),
        is_position_tpsl: false,
        reduce_only: false,
        order_type: "Limit".to_string(),
        orig_sz: String::new(),
        tif: None,
        cloid: None,
    }
}

fn new_diff(coin: &str, user: &str, oid: u64, side: Side, px: &str, sz: &str) -> BookDiff {
    BookDiff {
        user: user.to_string(),
        oid,
        coin: coin.to_string(),
        side,
        px: px.to_string(),
        raw_book_diff: RawBookDiff::New { new: NewOrder { sz: sz.to_string() } },
    }
}

#[test]
fn apply_diff_creates_book_on_first_sight() {
    let mut service = OrderBookService::new();
    assert!(service.is_empty());
    let r = service.apply_diff(new_diff("BTC", "u", 1, Side::Bid, "100", "1"));
    assert_eq!(r, ApplyResult::Applied);
    assert_eq!(service.len(), 1);
    assert_eq!(service.coins(), vec!["BTC".to_string()]);
    assert!(service.get("BTC").is_some());
    assert!(service.get("ETH").is_none());
}

#[test]
fn set_replaces_wholesale() {
    let mut service = OrderBookService::new();
    service.apply_diff(new_diff("BTC", "u", 1, Side::Bid, "100", "1"));
    service.apply_diff(new_diff("BTC", "u", 2, Side::Bid, "101", "1"));
    let fresh = CoinBook::new("BTC".to_string());
    service.set(fresh);
    assert_eq!(service.len(), 1);
    assert_eq!(service.get("BTC").unwrap().total_orders(), 0);
}

#[test]
fn stats_aggregate_across_books() {
    let mut service = OrderBookService::new();
    service.apply_diff(new_diff("BTC", "u", 1, Side::Bid, "100", "1"));
    service.apply_diff(new_diff("BTC", "u", 2, Side::Ask, "101", "1"));
    service.apply_diff(new_diff("ETH", "u", 3, Side::Bid, "10", "1"));
    let stats = service.stats();
    assert_eq!(stats.books, 2);
    assert_eq!(stats.total_orders, 3);
    assert_eq!(stats.bid_levels, 2);
    assert_eq!(stats.ask_levels, 1);
}

#[test]
fn warm_up_replay() {
    // Diffs D1..D5 arrive while the snapshot is fetched; the snapshot
    // already reflects D1 and D2, so the drain skips them and applies the
    // rest.
    let service = OrderBookService::new();
    let mut coord = SyncCoordinator::new(service);
    assert!(!coord.is_live());

    for (oid, px) in [(1u64, "100"), (2, "101"), (3, "102"), (4, "103"), (5, "104")] {
        let r = coord.on_diff(new_diff("BTC", "u", oid, Side::Bid, px, "1"));
        assert!(r.is_none());
    }

    // The snapshot holds the effects of D1 and D2.
    let snapshot = L4Snapshot(
        7_777,
        vec![CoinSnapshot(
            "BTC".to_string(),
            BookSnapshot(
                vec![
                    UserOrder("u".to_string(), mk_order("BTC", 1, Side::Bid, "100", "1")),
                    UserOrder("u".to_string(), mk_order("BTC", 2, Side::Bid, "101", "1")),
                ],
                vec![],
            ),
        )],
    );
    let height = load_into(&mut coord.service, &snapshot);
    assert_eq!(height, 7_777);

    let (applied, skipped) = coord.finish_warmup();
    assert_eq!(skipped, 2);
    assert_eq!(applied, 3);
    assert!(coord.is_live());

    let book = coord.service.get("BTC").unwrap();
    assert_eq!(book.total_orders(), 5);
    assert_eq!(book.best_bid().unwrap().0.to_decimal_string(), "104");

    // Live diffs now apply immediately.
    let r = coord.on_diff(new_diff("BTC", "u", 6, Side::Ask, "110", "1"));
    assert_eq!(r, Some(ApplyResult::Applied));
    let r = coord.on_diff(new_diff("BTC", "u", 6, Side::Ask, "110", "1"));
    assert_eq!(r, Some(ApplyResult::Skipped));
}

#[test]
fn resync_overlap_is_absorbed_as_skips() {
    // A snapshot installed over live books replaces them; replaying a diff
    // already reflected in it is a harmless skip.
    let service = OrderBookService::new();
    let mut coord = SyncCoordinator::new(service);
    let snapshot = L4Snapshot(
        1,
        vec![CoinSnapshot(
            "BTC".to_string(),
            BookSnapshot(
                vec![UserOrder("u".to_string(), mk_order("BTC", 9, Side::Bid, "50", "2"))],
                vec![],
            ),
        )],
    );
    load_into(&mut coord.service, &snapshot);
    let (applied, skipped) = coord.finish_warmup();
    assert_eq!((applied, skipped), (0, 0));
    let r = coord.on_diff(new_diff("BTC", "u", 9, Side::Bid, "50", "2"));
    assert_eq!(r, Some(ApplyResult::Skipped));
    assert_eq!(coord.service.get("BTC").unwrap().total_orders(), 1);
}

#[test]
fn sync_config_paths() {
    let c = SyncConfig::docker_volume("/volumes/data");
    assert_eq!(c.host_snapshot_path, "/volumes/data/l4_snapshot.json");
    assert_eq!(c.container_snapshot_path, "/data/l4_snapshot.json");
    assert_eq!(c.info_url, "http://127.0.0.1:3001/info");
    assert_eq!(c.snapshot_timeout_ms, 120_000);
    assert_eq!(c.resync_interval_ms, 10_000);
}
