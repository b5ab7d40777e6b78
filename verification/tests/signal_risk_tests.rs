use btc_futures_sniper::config::{Config, RiskConfig};
use btc_futures_sniper::risk::{classify_side, decide_exit, CloseReason, Position, RiskManager, SideKind, MIN_QTY};
use btc_futures_sniper::signal::{SignalEngine, TradeSignal};

const PRICE_100K: u64 = 10_000_000_000_000;

#[test]
fn obi_is_the_volume_imbalance_in_ppm() {
    assert_eq!(SignalEngine::calculate_obi(700, 300), 400_000);
    assert_eq!(SignalEngine::calculate_obi(300, 700), -400_000);
    assert_eq!(SignalEngine::calculate_obi(0, 0), 0);
    assert_eq!(SignalEngine::calculate_obi(5, 0), 1_000_000);
    // rounded toward zero
    assert_eq!(SignalEngine::calculate_obi(1, 2), -333_333);
    assert_eq!(SignalEngine::calculate_obi(2, 1), 333_333);
}

#[test]
fn default_thresholds_signal_long_and_short() {
    let cfg = Config::default();
    let mut engine = SignalEngine::new(cfg.signal);
    // OBI >= 0.40 with a price difference of 40 and 30 s left: long
    assert!(engine.generate_signal(400_000, 4_000_000_000, 30_000) == TradeSignal::Long);
    assert_eq!(engine.decision_obi(), Some(400_000));
    // OBI <= -0.30: short
    assert!(engine.generate_signal(-300_000, -3_000_000_000_i64 * 2, 30_000) == TradeSignal::Short);
    assert_eq!(engine.decision_obi(), Some(-300_000));
    // in between: nothing, and the decision is kept
    assert!(engine.generate_signal(100_000, 4_000_000_000, 30_000) == TradeSignal::Neutral);
    assert_eq!(engine.decision_obi(), Some(-300_000));
    engine.reset();
    assert_eq!(engine.decision_obi(), None);
}

#[test]
fn weak_difference_or_outside_window_gives_no_signal() {
    let mut engine = SignalEngine::new(Config::default().signal);
    assert!(engine.generate_signal(500_000, 2_999_999_999, 30_000) == TradeSignal::Neutral);
    assert!(engine.generate_signal(500_000, 5_000_000_000, 9_999) == TradeSignal::Neutral);
    assert!(engine.generate_signal(500_000, 5_000_000_000, 45_001) == TradeSignal::Neutral);
    assert!(engine.generate_signal(500_000, 5_000_000_000, 45_000) == TradeSignal::Long);
}

#[test]
fn reversal_protection() {
    let engine = SignalEngine::new(Config::default().signal);
    assert!(engine.check_obi_reversal(&TradeSignal::Long, 0));
    assert!(!engine.check_obi_reversal(&TradeSignal::Long, -1));
    assert!(engine.check_obi_reversal(&TradeSignal::Short, -5));
    assert!(!engine.check_obi_reversal(&TradeSignal::Short, 1));
    let mut cfg = Config::default().signal;
    cfg.obi_reversal_check = false;
    let off = SignalEngine::new(cfg);
    assert!(off.check_obi_reversal(&TradeSignal::Long, -900_000));
}

#[test]
fn stop_loss_and_take_profit_prices() {
    let risk = RiskManager::new(Config::default().risk);
    assert_eq!(risk.calculate_sl_tp(PRICE_100K, "BUY"), (9_800_000_000_000, 10_100_000_000_000));
    assert_eq!(risk.calculate_sl_tp(PRICE_100K, "LONG"), (9_800_000_000_000, 10_100_000_000_000));
    assert_eq!(risk.calculate_sl_tp(PRICE_100K, "SELL"), (10_200_000_000_000, 9_900_000_000_000));
    assert_eq!(risk.calculate_sl_tp(PRICE_100K, "HOLD"), (0, 0));
}

#[test]
fn position_size_follows_balance_share_and_leverage() {
    let risk = RiskManager::new(Config::default().risk);
    // 1000 USDT * 5% * 10 / 50000 = 0.01 BTC
    assert_eq!(risk.calculate_position_size(100_000_000_000, 5_000_000_000_000, 10, 50_000), 1_000_000);
    // too small: the minimum of 0.001 BTC
    assert_eq!(risk.calculate_position_size(1_000_000_000, 5_000_000_000_000, 10, 50_000), MIN_QTY);
    assert_eq!(risk.calculate_position_size(-5, 5_000_000_000_000, 10, 50_000), MIN_QTY);
}

fn opened(side: &str) -> RiskManager {
    let mut risk = RiskManager::new(Config::default().risk);
    risk.open_position(PRICE_100K, 1_000_000, side, 1_000);
    risk
}

#[test]
fn take_profit_at_one_percent() {
    let mut risk = opened("LONG");
    assert!(risk.has_position());
    let (close, why) = risk.check_stop_conditions(10_100_000_000_000, 1_010);
    assert!(close);
    assert_eq!(why.as_deref(), Some("止盈"));
}

#[test]
fn stop_loss_at_two_percent() {
    let mut risk = opened("BUY");
    let (close, why) = risk.check_stop_conditions(9_800_000_000_000, 1_010);
    assert!(close);
    assert_eq!(why.as_deref(), Some("止损"));
    let mut short = opened("SHORT");
    let (close, why) = short.check_stop_conditions(10_200_000_000_000, 1_010);
    assert!(close);
    assert_eq!(why.as_deref(), Some("止损"));
}

#[test]
fn timeout_after_five_minutes() {
    let mut risk = opened("LONG");
    let (close, why) = risk.check_stop_conditions(PRICE_100K, 1_300);
    assert!(!close);
    assert_eq!(why, None);
    let (close, why) = risk.check_stop_conditions(PRICE_100K, 1_301);
    assert!(close);
    assert_eq!(why.as_deref(), Some("超时平仓"));
}

#[test]
fn trailing_stop_after_a_gain() {
    let mut risk = opened("LONG");
    let (close, _) = risk.check_stop_conditions(10_080_000_000_000, 1_005);
    assert!(!close);
    assert_eq!(risk.get_position().unwrap().highest_price, 10_080_000_000_000);
    // 100200 is in profit and at or below 100800 * (1 - 0.5%) = 100296
    let (close, why) = risk.check_stop_conditions(10_020_000_000_000, 1_006);
    assert!(close);
    assert_eq!(why.as_deref(), Some("移动止损"));
}

#[test]
fn no_position_no_exit() {
    let mut risk = RiskManager::new(Config::default().risk);
    assert_eq!(risk.check_stop_conditions(1, 1), (false, None));
    risk.open_position(PRICE_100K, 1, "LONG", 0);
    risk.close_position();
    assert!(!risk.has_position());
}

#[test]
fn exit_decision_with_strict_sides() {
    let cfg = RiskConfig {
        stop_loss_pct: 20_000,
        take_profit_pct: 10_000,
        max_hold_time_secs: 300,
        trailing_stop: false,
        trailing_stop_pct: 5_000,
    };
    let pos = Position::new(PRICE_100K, 1, "BUY", 0);
    // "BUY" counts as long only when sides are not strict; an unknown side
    // has no profit and is never closed for the price
    assert!(decide_exit(&cfg, &pos, 10_100_000_000_000, 1, false) == Some(CloseReason::TakeProfit));
    assert!(decide_exit(&cfg, &pos, 10_100_000_000_000, 1, true).is_none());
    assert!(decide_exit(&cfg, &pos, 10_100_000_000_000, 301, true) == Some(CloseReason::Timeout));
    assert!(classify_side("BUY", true) == SideKind::Other);
    assert!(classify_side("SELL", false) == SideKind::Short);
}

#[test]
fn default_configuration_matches_the_documented_defaults() {
    let cfg = Config::default();
    assert_eq!(cfg.trading.symbol, "BTCUSDT");
    assert_eq!(cfg.trading.leverage, 10);
    assert_eq!(cfg.trading.position_size_pct, 50_000);
    assert!(cfg.trading.dry_run);
    assert_eq!(cfg.trading.initial_balance, 100_000_000_000);
    assert_eq!(cfg.risk.stop_loss_pct, 20_000);
    assert_eq!(cfg.risk.take_profit_pct, 10_000);
    assert_eq!(cfg.risk.max_hold_time_secs, 300);
    assert!(cfg.risk.trailing_stop);
    assert_eq!(cfg.risk.trailing_stop_pct, 5_000);
    assert_eq!(cfg.signal.gold_bull_obi, 400_000);
    assert_eq!(cfg.signal.bear_no_obi, -300_000);
    assert!(cfg.binance.testnet);
    assert_eq!(cfg.database.path, "./data/trades.db");
}

#[test]
fn a_tiny_imbalance_keeps_its_sign() {
    assert_eq!(SignalEngine::calculate_obi(500_000_001, 500_000_000), 1);
    assert_eq!(SignalEngine::calculate_obi(500_000_000, 500_000_001), -1);
    assert_eq!(SignalEngine::calculate_obi(7, 7), 0);
    let engine = SignalEngine::new(Config::default().signal);
    assert!(!engine.check_obi_reversal(&TradeSignal::Long, SignalEngine::calculate_obi(500_000_000, 500_000_001)));
}
