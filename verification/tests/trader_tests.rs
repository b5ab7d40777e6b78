use btc_futures_sniper::binance_ws::OrderBook;
use btc_futures_sniper::config::Config;
use btc_futures_sniper::signal::TradeSignal;
use btc_futures_sniper::trader::{pnl_of, FuturesTrader, TraderAction, MIN_BALANCE};

const NOW: i64 = 1_700_000_000;

fn book(bid: u64, ask: u64, bids_volume: u64, asks_volume: u64) -> OrderBook {
    OrderBook {
        best_bid: bid,
        best_ask: ask,
        bids_volume,
        asks_volume,
        last_update_time: 0,
        is_valid: true,
        reference_price: 0,
    }
}

fn config() -> Config {
    let mut cfg = Config::default();
    cfg.trading.dry_run = false;
    cfg.binance.api_secret = "secret".to_string();
    cfg
}

#[test]
fn quiet_book_waits() {
    let mut trader = FuturesTrader::new(config(), reqwest::Client::new());
    assert!(matches!(trader.step(&book(5_000_000_000_000, 5_000_000_000_000, 10, 10), NOW), TraderAction::Wait));
    assert!(!trader.has_position());
}

#[test]
fn strong_bids_ask_for_a_long() {
    let mut trader = FuturesTrader::new(config(), reqwest::Client::new());
    trader.start();
    assert!(trader.is_running());
    match trader.step(&book(5_000_000_000_000, 5_000_000_000_000, 700, 300), NOW) {
        TraderAction::Open { signal, entry_price } => {
            assert!(signal == TradeSignal::Long);
            assert_eq!(entry_price, 5_000_000_000_000);
        },
        _ => panic!("expected an entry"),
    }
    trader.stop();
    assert!(!trader.is_running());
}

#[test]
fn quantity_needs_ten_usdt() {
    let trader = FuturesTrader::new(config(), reqwest::Client::new());
    assert_eq!(trader.order_quantity(MIN_BALANCE - 1, 5_000_000_000_000), None);
    assert_eq!(trader.order_quantity(100_000_000_000, 0), None);
    assert_eq!(trader.order_quantity(100_000_000_000, 5_000_000_000_000), Some(1_000_000));
}

#[test]
fn entry_orders_and_record() {
    let mut trader = FuturesTrader::new(config(), reqwest::Client::new());
    assert!(trader.open_request(TradeSignal::Neutral, 1, 1).is_none());
    let order = trader.open_request(TradeSignal::Long, 1_000_000, 11).unwrap();
    assert_eq!(order.params[1], ("side".to_string(), "BUY".to_string()));
    assert_eq!(order.params[3], ("quantity".to_string(), "0.010000".to_string()));
    let book = book(5_000_000_000_000, 5_000_000_000_000, 700, 300);
    let opened = trader.on_opened(TradeSignal::Long, 5_000_000_000_000, 1_000_000, &book, NOW * 1000).unwrap();
    assert_eq!((opened.stop_loss, opened.take_profit), (4_900_000_000_000, 5_050_000_000_000));
    assert_eq!(opened.stop_orders.0.params[1].1, "SELL");
    assert_eq!(opened.stop_orders.0.params[3], ("stopPrice".to_string(), "49000.00".to_string()));
    assert_eq!(opened.stop_orders.1.params[2].1, "TAKE_PROFIT_MARKET");
    assert_eq!(opened.record.side, "BUY");
    assert_eq!(opened.record.reason, "signal_BUY");
    assert_eq!(opened.record.obi, 400_000);
    assert_eq!(opened.record.timestamp, NOW * 1000);
    assert!(trader.has_position());
    // with a position open no entry is asked for
    assert!(matches!(trader.step(&book, NOW + 1), TraderAction::Wait));
}

#[test]
fn stop_loss_closes_and_books_the_loss() {
    let mut trader = FuturesTrader::new(config(), reqwest::Client::new());
    let flat = book(5_000_000_000_000, 5_000_000_000_000, 1, 1);
    trader.on_opened(TradeSignal::Long, 5_000_000_000_000, 1_000_000, &flat, NOW * 1000).unwrap();
    // the record of the entry was stored under id 17
    trader.record_saved(17);
    let down = book(4_900_000_000_000, 4_900_000_000_000, 1, 1);
    match trader.step(&down, NOW + 5) {
        TraderAction::Close { exit_price, reason } => {
            assert_eq!(exit_price, 4_900_000_000_000);
            assert_eq!(reason.as_deref(), Some("止损"));
        },
        _ => panic!("expected a close"),
    }
    let order = trader.close_request(12).unwrap();
    assert_eq!(order.params[1], ("side".to_string(), "SELL".to_string()));
    assert_eq!(order.params[3], ("quantity".to_string(), "0.010000".to_string()));
    let closed = trader.on_closed(4_900_000_000_000, NOW + 5).unwrap();
    assert_eq!(closed.pnl, -1_000_000_000);
    assert_eq!(closed.hold_time, 5);
    assert_eq!(closed.trade_id, Some(17));
    assert!(!trader.has_position());
    assert!(trader.close_request(13).is_none());
    assert!(trader.on_closed(1, NOW).is_none());
}

#[test]
fn short_profit_and_unknown_side() {
    assert_eq!(pnl_of("SELL", 5_000_000_000_000, 4_950_000_000_000, 2_000_000), 1_000_000_000);
    assert_eq!(pnl_of("SHORT", 100, 101, 1), 0);
    assert_eq!(pnl_of("HOLD", 100, 200, 100_000_000), 0);
    assert_eq!(pnl_of("LONG", 100, 99, 150_000_000), -1);
}

#[test]
fn leverage_request_uses_the_configuration() {
    let trader = FuturesTrader::new(config(), reqwest::Client::new());
    let req = trader.leverage_request(5);
    assert_eq!(req.url, "https://testnet.binancefuture.com/fapi/v1/leverage");
    assert_eq!(req.params[1], ("leverage".to_string(), "10".to_string()));
    let balance = trader.balance_request(6);
    assert_eq!(balance.url, "https://testnet.binancefuture.com/fapi/v2/balance");
    assert_eq!(balance.params[1].1, trader.rest_client().sign("timestamp=6"));
}

#[test]
fn a_close_without_a_stored_record_updates_none() {
    let mut trader = FuturesTrader::new(config(), reqwest::Client::new());
    let flat = book(5_000_000_000_000, 5_000_000_000_000, 1, 1);
    trader.record_saved(3);
    // a new entry forgets the id of an earlier record
    trader.on_opened(TradeSignal::Short, 5_000_000_000_000, 1_000_000, &flat, NOW * 1000).unwrap();
    let closed = trader.on_closed(5_000_000_000_000, NOW + 1).unwrap();
    assert_eq!(closed.trade_id, None);
    assert_eq!(closed.pnl, 0);
}
