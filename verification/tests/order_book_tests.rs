use btc_futures_sniper::binance_ws::{
    process_depth_update, BinanceWsClient, DepthSnapshot, DepthUpdate, InternalOrderBook, OrderBook,
};

fn entry(p: &str, q: &str) -> Vec<String> {
    vec![p.to_string(), q.to_string()]
}

fn update(final_id: i64, bids: Vec<Vec<String>>, asks: Vec<Vec<String>>) -> DepthUpdate {
    DepthUpdate {
        event_type: "depthUpdate".to_string(),
        event_time: 1_000 + final_id,
        symbol: "BTCUSDT".to_string(),
        first_update_id: final_id,
        final_update_id: final_id,
        bids,
        asks,
    }
}

#[test]
fn bids_are_kept_highest_first() {
    let mut book = InternalOrderBook::new();
    book.update_bid(100, 5);
    book.update_bid(102, 3);
    book.update_bid(101, 1);
    assert_eq!(book.best_bid(), Some(102));
    assert_eq!(book.top_bids_volume(2), 4);
    assert_eq!(book.top_bids_volume(10), 9);
    assert_eq!(book.level_counts(), (3, 0));
}

#[test]
fn asks_are_kept_lowest_first() {
    let mut book = InternalOrderBook::new();
    book.update_ask(105, 2);
    book.update_ask(103, 7);
    book.update_ask(104, 1);
    assert_eq!(book.best_ask(), Some(103));
    assert_eq!(book.top_asks_volume(1), 7);
}

#[test]
fn a_zero_quantity_removes_the_level_and_a_new_one_replaces_it() {
    let mut book = InternalOrderBook::new();
    book.update_bid(100, 5);
    book.update_bid(102, 3);
    book.update_bid(102, 0);
    assert_eq!(book.best_bid(), Some(100));
    book.update_bid(100, 8);
    assert_eq!(book.top_bids_volume(5), 8);
    assert_eq!(book.level_counts(), (1, 0));
}

#[test]
fn the_same_update_twice_changes_nothing_more() {
    let mut a = InternalOrderBook::new();
    a.update_ask(10, 1);
    a.update_ask(12, 2);
    a.update_ask(11, 3);
    let once = (a.best_ask(), a.top_asks_volume(5), a.level_counts());
    a.update_ask(11, 3);
    assert_eq!((a.best_ask(), a.top_asks_volume(5), a.level_counts()), once);
}

#[test]
fn empty_book() {
    let book = InternalOrderBook::new();
    assert_eq!(book.best_bid(), None);
    assert_eq!(book.best_ask(), None);
    assert_eq!(book.last_update_id(), 0);
}

#[test]
fn snapshot_skips_zero_and_malformed_entries() {
    let mut book = InternalOrderBook::new();
    let snapshot = DepthSnapshot {
        lastUpdateId: 77,
        bids: vec![entry("100.5", "2"), entry("0", "3"), vec!["99".to_string()], entry("99.5", "0")],
        asks: vec![entry("101", "1.5"), entry("bad", "1")],
    };
    book.load_snapshot(&snapshot);
    assert_eq!(book.last_update_id(), 77);
    assert_eq!(book.best_bid(), Some(10_050_000_000));
    assert_eq!(book.level_counts(), (1, 1));
    assert_eq!(book.top_asks_volume(5), 150_000_000);
}

fn loaded() -> (OrderBook, InternalOrderBook) {
    let mut internal = InternalOrderBook::new();
    internal.load_snapshot(&DepthSnapshot {
        lastUpdateId: 10,
        bids: vec![entry("100000.00", "7")],
        asks: vec![entry("100001.00", "3")],
    });
    (OrderBook::default(), internal)
}

#[test]
fn an_update_sets_the_public_book() {
    let (mut ob, mut internal) = loaded();
    process_depth_update(&mut ob, &mut internal, &update(11, vec![entry("100000.50", "1")], vec![]));
    assert!(ob.is_valid);
    assert_eq!(ob.best_bid, 10_000_050_000_000);
    assert_eq!(ob.best_ask, 10_000_100_000_000);
    assert_eq!(ob.bids_volume, 800_000_000);
    assert_eq!(ob.asks_volume, 300_000_000);
    assert_eq!(ob.last_update_time, 1_011);
    // the first accepted mid price becomes the reference
    assert_eq!(ob.reference_price, 10_000_075_000_000);
    assert_eq!(internal.last_update_id(), 11);
}

#[test]
fn a_stale_update_is_dropped() {
    let (mut ob, mut internal) = loaded();
    process_depth_update(&mut ob, &mut internal, &update(10, vec![entry("100000.50", "1")], vec![]));
    assert!(!ob.is_valid);
    assert_eq!(ob.best_bid, 0);
    assert_eq!(internal.best_bid(), Some(10_000_000_000_000));
    assert_eq!(internal.last_update_id(), 10);
}

#[test]
fn a_wide_spread_marks_the_book_invalid() {
    let (mut ob, mut internal) = loaded();
    process_depth_update(&mut ob, &mut internal, &update(11, vec![], vec![entry("100001.00", "0"), entry("101000", "1")]));
    assert!(!ob.is_valid);
    assert_eq!(ob.best_bid, 0);
    assert_eq!(internal.best_ask(), Some(10_100_000_000_000));
}

#[test]
fn a_crossed_book_is_invalid() {
    let (mut ob, mut internal) = loaded();
    process_depth_update(&mut ob, &mut internal, &update(11, vec![entry("100002", "1")], vec![]));
    assert!(!ob.is_valid);
}

#[test]
fn a_jump_from_the_reference_is_rejected() {
    let (mut ob, mut internal) = loaded();
    process_depth_update(&mut ob, &mut internal, &update(11, vec![], vec![]));
    assert!(ob.is_valid);
    let reference = ob.reference_price;
    assert_eq!(reference, 10_000_050_000_000);
    // a whole new book 10% higher
    process_depth_update(
        &mut ob,
        &mut internal,
        &update(12, vec![entry("100000", "0"), entry("110000", "1")], vec![entry("100001", "0"), entry("110001", "1")]),
    );
    assert!(!ob.is_valid);
    assert_eq!(ob.reference_price, reference);
    assert_eq!(ob.best_bid, 10_000_000_000_000);
}

#[test]
fn the_reference_moves_one_percent_toward_the_mid_price() {
    let (mut ob, mut internal) = loaded();
    process_depth_update(&mut ob, &mut internal, &update(11, vec![], vec![]));
    process_depth_update(
        &mut ob,
        &mut internal,
        &update(12, vec![entry("100000", "0"), entry("100100", "1")], vec![entry("100001", "0"), entry("100101", "1")]),
    );
    assert!(ob.is_valid);
    // (198 * 100000.50 + 100100 + 100101) / 200 = 100001.50
    assert_eq!(ob.reference_price, 10_000_150_000_000);
}

#[test]
fn client_keeps_the_symbol_upper_case_and_builds_addresses() {
    let client = BinanceWsClient::new("btcusdt");
    assert_eq!(client.symbol(), "BTCUSDT");
    assert_eq!(client.snapshot_url(), "https://fapi.binance.com/fapi/v1/depth?symbol=BTCUSDT&limit=100");
    assert_eq!(client.stream_url(), "wss://fstream.binance.com/ws/btcusdt@depth@100ms");
    assert!(!client.orderbook().is_valid);
}

#[test]
fn client_applies_snapshot_and_updates() {
    let mut client = BinanceWsClient::new("BTCUSDT");
    client.load_snapshot(&DepthSnapshot {
        lastUpdateId: 5,
        bids: vec![entry("100", "1")],
        asks: vec![entry("100.1", "2")],
    });
    assert_eq!(client.level_counts(), (1, 1));
    client.apply_update(&update(6, vec![entry("100.05", "4")], vec![]));
    let ob = client.orderbook();
    assert!(ob.is_valid);
    assert_eq!(ob.best_bid, 10_005_000_000);
    assert_eq!(ob.bids_volume, 500_000_000);
}
