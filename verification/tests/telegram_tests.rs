use btc_futures_sniper::telegram::{
    close_message_text, daily_report_text, open_message_text, request_failure_text, send_failure_text,
    startup_message_text, CloseFigures, TelegramNotifier,
};

#[test]
fn disabled_notifier_sends_nothing() {
    let n = TelegramNotifier::new(false, "", "", reqwest::Client::new());
    assert!(matches!(n.message_request("hi"), Ok(None)));
}

#[test]
fn incomplete_settings_are_an_error() {
    let no_token = TelegramNotifier::new(true, "", "42", reqwest::Client::new());
    assert_eq!(no_token.message_request("hi").err(), Some("Telegram配置不完整".to_string()));
    let no_chat = TelegramNotifier::new(true, "tok", "", reqwest::Client::new());
    assert_eq!(no_chat.message_request("hi").err(), Some("Telegram配置不完整".to_string()));
}

#[test]
fn message_is_posted_to_the_bot() {
    let n = TelegramNotifier::new(true, "123:abc", "42", reqwest::Client::new());
    let req = n.message_request("<b>hi</b>").unwrap().unwrap();
    assert_eq!(req.url, "https://api.telegram.org/bot123:abc/sendMessage");
    assert_eq!(
        req.params,
        vec![
            ("chat_id".to_string(), "42".to_string()),
            ("text".to_string(), "<b>hi</b>".to_string()),
            ("parse_mode".to_string(), "HTML".to_string()),
        ]
    );
}

#[test]
fn failure_texts() {
    assert_eq!(request_failure_text("timeout"), "请求失败: timeout");
    assert_eq!(send_failure_text("Bad Request"), "发送失败: Bad Request");
}

#[test]
fn entry_notification() {
    let text = open_message_text("LONG", 5_000_000_000_000, 1_000_000, 400_000, 100_000_000_000, "12:00:00");
    assert_eq!(
        text,
        "🟢 <b>开仓通知</b>\n\n<b>方向:</b> LONG\n<b>价格:</b> $50000.00\n<b>数量:</b> 0.010000 BTC\n<b>OBI:</b> +0.400\n\n💰 余额: 1000.00 USDT\n⏰ 12:00:00"
    );
    let short = open_message_text("SHORT", 1, 1, -350_000, 0, "t");
    assert!(short.starts_with("🔴 "));
    assert!(short.contains("<b>OBI:</b> -0.350\n"));
    assert!(open_message_text("X", 1, 1, 0, 0, "t").starts_with("⚪ "));
}

#[test]
fn exit_notification() {
    let f = CloseFigures {
        entry_price: 5_000_000_000_000,
        exit_price: 5_050_000_000_000,
        pnl: 500_000_000,
        pnl_pct: 10_000,
        hold_time: 42,
        total_trades: 3,
        win_rate: 66_666_666,
        total_pnl: -123_456_789,
        balance: 99_876_543_211,
    };
    let text = close_message_text("LONG", &f, "止盈", "09:30:00");
    assert_eq!(
        text,
        "✅ <b>平仓通知</b> (止盈)\n\n<b>方向:</b> LONG\n<b>入场:</b> $50000.00\n<b>出场:</b> $50500.00\n<b>持仓:</b> 42秒\n\n📈 <b>盈亏:</b> +5.0000 USDT (+1.00%)\n\n──────────────\n📊 累计: 3笔 | 胜率: 66.7%\n💰 总盈亏: -1.23 USDT\n💼 余额: 998.77 USDT\n⏰ 09:30:00"
    );
    let loss = CloseFigures { pnl: -1, pnl_pct: -1_000, ..f };
    let text = close_message_text("SHORT", &loss, "止损", "t");
    assert!(text.starts_with("❌ "));
    assert!(text.contains("📉 <b>盈亏:</b> -0.0000 USDT (-0.10%)"));
}

#[test]
fn daily_report() {
    let text = daily_report_text(10, 7, 3, 2_550_000_000, 70_000_000, 102_550_000_000, "2024-01-02");
    assert_eq!(
        text,
        "📊 <b>每日报告</b>\n\n📅 日期: 2024-01-02\n\n<b>交易统计:</b>\n• 总交易: 10笔\n• 胜: 7笔 | 负: 3笔\n• 胜率: 70.0%\n\n📈 <b>盈亏:</b> +25.50 USDT\n💰 <b>余额:</b> 1025.50 USDT"
    );
}

#[test]
fn startup_notification() {
    assert_eq!(
        startup_message_text("BTCUSDT", 10, 100_000_000_000, "2024-01-02 03:04:05"),
        "🚀 <b>BTC Futures Sniper 启动</b>\n\n📊 合约: BTCUSDT\n⚡ 杠杆: 10x\n💰 初始余额: 1000.00 USDT\n🎮 模式: Dry Run\n\n⏰ 2024-01-02 03:04:05"
    );
}
