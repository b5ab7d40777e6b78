use btc_futures_sniper::report::{trade_line, trade_list_lines, TradeRecord, TradeStats};

fn record(id: i64, side: &str, entry: u64, pnl: Option<i64>, hold: Option<i64>) -> TradeRecord {
    TradeRecord {
        id,
        timestamp: 1_700_000_000_000,
        symbol: "BTCUSDT".to_string(),
        side: side.to_string(),
        entry_price: entry,
        exit_price: None,
        quantity: 1_000_000,
        pnl,
        obi: 400_000,
        diff: 4_000_000_000,
        hold_time: hold,
        reason: "signal_LONG".to_string(),
        status: "open".to_string(),
    }
}

fn sample() -> Vec<TradeRecord> {
    vec![
        record(1, "LONG", 5_000_000_000_000, Some(1_000_000_000), Some(30)),
        record(2, "SHORT", 5_000_000_000_000, Some(-500_000_000), Some(90)),
        record(3, "LONG", 5_000_000_000_000, None, None),
    ]
}

#[test]
fn no_records_no_statistics() {
    let stats = TradeStats::from_records(&Vec::new());
    assert!(stats == TradeStats::new());
    assert_eq!(stats.total_trades, 0);
    assert_eq!(stats.profit_factor, Some(0));
}

#[test]
fn statistics_of_three_trades() {
    let stats = TradeStats::from_records(&sample());
    assert_eq!(stats.total_trades, 3);
    assert_eq!(stats.wins, 1);
    assert_eq!(stats.losses, 2);
    assert_eq!(stats.total_pnl, 500_000_000);
    assert_eq!(stats.avg_pnl, 166_666_666);
    // (30 + 90) / 2 seconds, in milliseconds
    assert_eq!(stats.avg_hold_time, 60_000);
    assert_eq!(stats.win_rate, 33_333_333);
    assert_eq!(stats.profit_factor, Some(2_000_000));
    assert_eq!(stats.max_drawdown, 500_000_000);
    // mean 2.5, standard deviation 7.5: 1/3 * sqrt(252) = 5.291502...
    assert_eq!(stats.sharpe_ratio, Some(5_291_502));
}

#[test]
fn no_loss_means_an_infinite_profit_factor() {
    let stats = TradeStats::from_records(&vec![record(1, "LONG", 1, Some(5), None)]);
    assert_eq!(stats.profit_factor, None);
    assert_eq!(stats.sharpe_ratio, Some(0));
    assert_eq!(stats.max_drawdown, 0);
}

#[test]
fn equal_profits_have_no_spread() {
    let stats = TradeStats::from_records(&vec![
        record(1, "LONG", 1, Some(-7), None),
        record(2, "LONG", 1, Some(-7), None),
    ]);
    assert_eq!(stats.sharpe_ratio, Some(0));
    assert_eq!(stats.max_drawdown, 14);
    assert_eq!(stats.avg_pnl, -7);
}

#[test]
fn negative_average_rounds_down_and_sharpe_is_negative() {
    let stats = TradeStats::from_records(&vec![
        record(1, "LONG", 1, Some(-10), None),
        record(2, "LONG", 1, Some(5), None),
    ]);
    assert_eq!(stats.avg_pnl, -3);
    // mean -2.5, std 7.5
    assert_eq!(stats.sharpe_ratio, Some(-5_291_502));
}

#[test]
fn report_lines_show_the_figures() {
    let stats = TradeStats::from_records(&sample());
    let lines = stats.report_lines();
    assert_eq!(lines.len(), 15);
    assert_eq!(lines[0], "");
    assert_eq!(lines[4], "║  总交易数:      3                                            ║");
    assert_eq!(lines[5], "║  胜:      1  负:      2  胜率:  33.3%                     ║");
    assert_eq!(lines[7], "║  总盈亏: ++++++5.00 USDT                                   ║");
    assert_eq!(lines[8], "║  平均盈亏: ++++1.6667 USDT                                 ║");
    assert_eq!(lines[9], "║  平均持仓:     60.0 秒                                     ║");
    assert_eq!(lines[11], "║  盈亏比:     2.00                                          ║");
    assert_eq!(lines[12], "║  最大回撤:     5.00 USDT                                   ║");
    assert_eq!(lines[13], "║  Sharpe比率:     5.29                                      ║");
}

#[test]
fn an_infinite_profit_factor_is_shown_as_inf() {
    let stats = TradeStats::from_records(&vec![record(1, "LONG", 1, Some(5), None)]);
    let lines = stats.report_lines();
    assert_eq!(lines[11], "║  盈亏比:      inf                                          ║");
}

#[test]
fn assessment_of_the_sample() {
    let lines = TradeStats::from_records(&sample()).assessment_lines();
    assert_eq!(
        lines,
        vec![
            "".to_string(),
            "📈 策略评估:".to_string(),
            "  ❌ 胜率偏低 (<60%)".to_string(),
            "  ✅ 盈亏比优秀 (>=2.0)".to_string(),
            "  ✅ Sharpe优秀 (>=2.0)".to_string(),
            "".to_string(),
        ]
    );
}

#[test]
fn assessment_tiers() {
    let mut stats = TradeStats::new();
    stats.win_rate = 85_000_000;
    stats.profit_factor = Some(1_200_000);
    stats.sharpe_ratio = Some(-1);
    let lines = stats.assessment_lines();
    assert_eq!(lines[2], "  ✅ 胜率良好 (>=80%)");
    assert_eq!(lines[3], "  ⚠️  盈亏比一般 (>=1.0)");
    assert_eq!(lines[4], "  ❌ Sharpe负值 (<0)");
}

#[test]
fn trade_lines() {
    let t = record(7, "BUY", 5_000_012_345_678, Some(123_456_789), Some(3));
    assert_eq!(trade_line(&t), "║  ID:7 BUY    @ $50000.12  PnL:      +1.23  [已平仓]");
    let open = record(8, "SHORT", 5_000_000_000_000, None, None);
    assert_eq!(trade_line(&open), "║  ID:8 SHORT  @ $50000.00  PnL:        开仓中  [持仓中]");
    let lines = trade_list_lines(&vec![t, open], 10);
    assert_eq!(lines.len(), 8);
    assert_eq!(lines[2], "║  最近 10 笔交易                                                            ║");
    assert_eq!(lines[5], "║  ID:8 SHORT  @ $50000.00  PnL:        开仓中  [持仓中]");
    assert_eq!(lines[7], "");
}

#[test]
fn reordered_trades_give_the_same_statistics() {
    let forward = TradeStats::from_records(&sample());
    let mut reversed = sample();
    reversed.reverse();
    let backward = TradeStats::from_records(&reversed);
    assert_eq!(backward.total_trades, forward.total_trades);
    assert_eq!(backward.wins, forward.wins);
    assert_eq!(backward.losses, forward.losses);
    assert_eq!(backward.total_pnl, forward.total_pnl);
    assert_eq!(backward.avg_pnl, forward.avg_pnl);
    assert_eq!(backward.avg_hold_time, forward.avg_hold_time);
    assert_eq!(backward.win_rate, forward.win_rate);
    assert_eq!(backward.profit_factor, forward.profit_factor);
    assert_eq!(backward.sharpe_ratio, forward.sharpe_ratio);
    // the loss now comes first, so the running total falls from 0
    assert_eq!(forward.max_drawdown, 500_000_000);
    assert_eq!(backward.max_drawdown, 500_000_000);
}
