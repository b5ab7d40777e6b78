use btc_futures_sniper::binance_ws::OrderBook;
use btc_futures_sniper::config::Config;
use btc_futures_sniper::dry_run::DryRunTrader;
use btc_futures_sniper::risk::CloseReason;
use btc_futures_sniper::signal::TradeSignal;

const T0: i64 = 1_700_000_000_000;

fn book(bid: u64, ask: u64, bids_volume: u64, asks_volume: u64) -> OrderBook {
    OrderBook {
        best_bid: bid,
        best_ask: ask,
        bids_volume,
        asks_volume,
        last_update_time: 0,
        is_valid: true,
        reference_price: 0,
    }
}

#[test]
fn a_strong_imbalance_opens_a_simulated_long() {
    let mut trader = DryRunTrader::new(Config::default());
    trader.start();
    assert!(trader.is_running());
    let out = trader.tick(&book(10_000_000_000_000, 10_000_100_000_000, 700_000_000, 300_000_000), T0);
    assert_eq!(out.price, 10_000_050_000_000);
    assert_eq!(out.obi, 400_000);
    assert!(out.closed.is_none());
    let open = out.opened.expect("a long entry");
    assert_eq!(open.side, "LONG");
    assert_eq!(open.entry_price, 10_000_050_000_000);
    // 1000 USDT * 5% = 50 USDT of margin, times 10 over 100000.50
    assert_eq!(open.position_value, 5_000_000_000);
    assert_eq!(open.quantity, 499_997);
    assert_eq!(open.record.reason, "signal_LONG");
    assert_eq!(open.record.status, "open");
    assert_eq!(open.record.diff, 4_000_000_000);
    assert_eq!(open.record.timestamp, T0);
    let pos = trader.position().expect("open position");
    assert_eq!(pos.entry_time, T0 / 1000);
    assert_eq!(trader.total_trades(), 0);
}

#[test]
fn a_balanced_book_opens_nothing() {
    let mut trader = DryRunTrader::new(Config::default());
    let out = trader.tick(&book(10_000_000_000_000, 10_000_100_000_000, 500, 500), T0);
    assert_eq!(out.obi, 0);
    assert!(out.opened.is_none());
    assert!(trader.position().is_none());
}

#[test]
fn take_profit_books_the_leveraged_gain() {
    let mut trader = DryRunTrader::new(Config::default());
    trader.tick(&book(10_000_000_000_000, 10_000_100_000_000, 700_000_000, 300_000_000), T0);
    // the record of the entry was stored under id 42
    trader.record_saved(42);
    // one percent and a little above the entry, ten seconds later
    let out = trader.tick(&book(10_100_060_000_000, 10_100_060_000_000, 500, 500), T0 + 10_000);
    let close = out.closed.expect("a close");
    assert_eq!(close.reason, "止盈");
    assert_eq!(close.hold_time, 10);
    assert_eq!(close.pnl_pct, 10_000);
    // 50 USDT * 10 * 1% = 5 USDT
    assert_eq!(close.pnl, 500_000_000);
    assert_eq!(close.balance, 100_500_000_000);
    assert_eq!(close.total_trades, 1);
    assert_eq!(close.win_rate, 100_000_000);
    assert_eq!(close.trade_id, Some(42));
    assert!(out.opened.is_none());
    assert_eq!(trader.balance(), 100_500_000_000);
    assert_eq!(trader.total_pnl(), 500_000_000);
    assert_eq!((trader.wins(), trader.losses()), (1, 0));
    // balance = initial + total profit
    assert_eq!(trader.balance(), Config::default().trading.initial_balance + trader.total_pnl());
}

#[test]
fn a_short_is_stopped_out_with_a_loss() {
    let mut trader = DryRunTrader::new(Config::default());
    let out = trader.tick(&book(10_000_000_000_000, 10_000_000_000_000, 300_000_000, 700_000_000), T0);
    assert_eq!(out.opened.expect("a short").side, "SHORT");
    let out = trader.tick(&book(10_200_000_000_000, 10_200_000_000_000, 1, 1), T0 + 1_000);
    let close = out.closed.expect("a close");
    assert_eq!(close.reason, "止损");
    assert_eq!(close.pnl_pct, -20_000);
    assert_eq!(close.pnl, -1_000_000_000);
    assert_eq!((trader.wins(), trader.losses(), trader.total_trades()), (0, 1, 1));
    assert_eq!(trader.win_rate(), 0);
}

#[test]
fn a_position_is_closed_after_the_hold_time() {
    let mut trader = DryRunTrader::new(Config::default());
    trader.tick(&book(10_000_000_000_000, 10_000_000_000_000, 700, 300), T0);
    let out = trader.tick(&book(10_000_000_000_000, 10_000_000_000_000, 1, 1), T0 + 301_000);
    let close = out.closed.expect("a close");
    assert_eq!(close.reason, "超时");
    assert_eq!(close.pnl, 0);
    assert_eq!(trader.losses(), 1);
}

#[test]
fn direct_open_and_close() {
    let mut trader = DryRunTrader::new(Config::default());
    assert!(trader.open_position(TradeSignal::Neutral, 1, 0, T0).is_none());
    assert!(trader.close_position(1, CloseReason::StopLoss, T0).is_none());
    let open = trader.open_position(TradeSignal::Short, 5_000_000_000_000, -350_000, T0).unwrap();
    assert_eq!(open.side, "SHORT");
    assert_eq!(open.quantity, 1_000_000);
    let close = trader.close_position(4_950_000_000_000, CloseReason::TakeProfit, T0 + 2_000).unwrap();
    assert_eq!(close.pnl_pct, 10_000);
    assert_eq!(close.pnl, 500_000_000);
    assert_eq!(close.hold_time, 2);
    trader.stop();
    assert!(!trader.is_running());
}

#[test]
fn simulated_exit_conditions() {
    let trader = DryRunTrader::new(Config::default());
    let pos = btc_futures_sniper::risk::Position::new(10_000_000_000_000, 1, "LONG", 0);
    assert!(trader.check_close_conditions(10, 10_100_000_000_000, &pos) == Some(CloseReason::TakeProfit));
    assert!(trader.check_close_conditions(301, 10_000_000_000_000, &pos) == Some(CloseReason::Timeout));
    assert!(trader.check_close_conditions(10, 10_000_000_000_000, &pos).is_none());
    // sides other than "LONG" and "SHORT" never close for the price
    let buy = btc_futures_sniper::risk::Position::new(10_000_000_000_000, 1, "BUY", 0);
    assert!(trader.check_close_conditions(10, 9_000_000_000_000, &buy).is_none());
}

#[test]
fn an_imbalance_of_minus_035_opens_a_short() {
    let mut trader = DryRunTrader::new(Config::default());
    // 13 against 27: OBI = -0.35
    let out = trader.tick(&book(10_000_000_000, 10_020_000_000, 1_300_000_000, 2_700_000_000), T0);
    assert_eq!(out.obi, -350_000);
    let open = out.opened.expect("a short entry");
    assert_eq!(open.side, "SHORT");
    assert_eq!(open.entry_price, 10_010_000_000);
    // OBI -0.25 opens nothing
    let mut other = DryRunTrader::new(Config::default());
    let out = other.tick(&book(10_000_000_000, 10_020_000_000, 1_500_000_000, 2_500_000_000), T0);
    assert!(out.opened.is_none());
}

#[test]
fn a_close_without_a_stored_record_names_none() {
    let mut trader = DryRunTrader::new(Config::default());
    trader.tick(&book(10_000_000_000_000, 10_000_100_000_000, 700_000_000, 300_000_000), T0);
    let out = trader.tick(&book(10_100_060_000_000, 10_100_060_000_000, 500, 500), T0 + 10_000);
    let close = out.closed.expect("a close");
    assert_eq!(close.trade_id, None);
    // a later entry starts without a stored record either
    trader.record_saved(5);
    let out = trader.tick(&book(10_000_000_000_000, 10_000_100_000_000, 700_000_000, 300_000_000), T0 + 20_000);
    assert!(out.opened.is_some());
    let out = trader.tick(&book(9_700_000_000_000, 9_700_000_000_000, 500, 500), T0 + 30_000);
    assert_eq!(out.closed.expect("a stop loss").trade_id, None);
}
