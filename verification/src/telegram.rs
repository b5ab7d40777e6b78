//! Telegram notifications: when a message is sent, what is sent, and the
//! texts of the notifications.  Sending is the caller's work.
use vstd::prelude::*;
use crate::decimal::{fixed_text, format_int, format_units, int_text};

verus! {

/// The notifier's settings.
pub struct TelegramConfig {
    pub enabled: bool,
    pub bot_token: String,
    pub chat_id: String,
}

/// A message to post: the address and the form parameters.
pub struct MessageRequest {
    pub url: String,
    pub params: Vec<(String, String)>,
}

/// The text of the error for incomplete settings.
pub open spec fn incomplete_text() -> Seq<char> {
    "Telegram配置不完整"@
}

/// The Telegram notifier.
pub struct TelegramNotifier {
    client: reqwest::Client,
    config: TelegramConfig,
    base_url: String,
}

impl TelegramNotifier {
    pub closed spec fn enabled_view(&self) -> bool {
        self.config.enabled
    }

    pub closed spec fn token_view(&self) -> Seq<char> {
        self.config.bot_token@
    }

    pub closed spec fn chat_view(&self) -> Seq<char> {
        self.config.chat_id@
    }

    /// The HTTP handle held.
    pub closed spec fn http_view(&self) -> reqwest::Client {
        self.client
    }

    pub closed spec fn base_url_view(&self) -> Seq<char> {
        self.base_url@
    }

    /// A notifier posting through the bot `bot_token` to `chat_id`, with
    /// `client`.
    pub fn new(enabled: bool, bot_token: &str, chat_id: &str, client: reqwest::Client) -> (r: Self)
        ensures
            r.http_view() == client,
            r.enabled_view() == enabled,
            r.token_view() == bot_token@,
            r.chat_view() == chat_id@,
            r.base_url_view() == "https://api.telegram.org/bot"@ + bot_token@,
    {
        let mut base_url = "https://api.telegram.org/bot".to_owned();
        base_url.append(bot_token);
        TelegramNotifier {
            client,
            config: TelegramConfig {
                enabled,
                bot_token: bot_token.to_owned(),
                chat_id: chat_id.to_owned(),
            },
            base_url,
        }
    }

    /// The HTTP handle the messages are posted with: the one the client holds.
    pub fn http(&self) -> (r: &reqwest::Client)
        ensures
            *r == self.http_view(),
    {
        &self.client
    }

    /// What sending `text` amounts to: nothing when the notifier is off
    /// (`Ok(None)`), the error `Telegram配置不完整` when the bot token or the
    /// chat id is empty, else a post to `<base>/sendMessage` with the chat
    /// id, the text and the HTML parse mode.
    pub fn message_request(&self, text: &str) -> (r: Result<Option<MessageRequest>, String>)
        ensures
            !self.enabled_view() ==> r == Ok::<Option<MessageRequest>, String>(None),
            self.enabled_view() && (self.token_view().len() == 0 || self.chat_view().len() == 0) ==> (r
                matches Err(e) && e@ == incomplete_text()),
            self.enabled_view() && self.token_view().len() > 0 && self.chat_view().len() > 0 ==> (r
                matches Ok(Some(req)) && req.url@ == self.base_url_view() + "/sendMessage"@
                && req.params@.len() == 3 && req.params@[0].0@ == "chat_id"@ && req.params@[0].1@
                == self.chat_view() && req.params@[1].0@ == "text"@ && req.params@[1].1@ == text@
                && req.params@[2].0@ == "parse_mode"@ && req.params@[2].1@ == "HTML"@),
    {
        if !self.config.enabled {
            return Ok(None);
        }
        if self.config.bot_token.as_str().is_empty() || self.config.chat_id.as_str().is_empty() {
            return Err("Telegram配置不完整".to_owned());
        }
        let mut url = self.base_url.clone();
        url.append("/sendMessage");
        let mut params: Vec<(String, String)> = Vec::new();
        params.push(("chat_id".to_owned(), self.config.chat_id.clone()));
        params.push(("text".to_owned(), text.to_owned()));
        params.push(("parse_mode".to_owned(), "HTML".to_owned()));
        Ok(Some(MessageRequest { url, params }))
    }
}

/// The error for a request that could not be made.
pub fn request_failure_text(error: &str) -> (r: String)
    ensures
        r@ == "请求失败: "@ + error@,
{
    let mut s = "请求失败: ".to_owned();
    s.append(error);
    s
}

/// The error for a message the server refused, with its reply.
pub fn send_failure_text(reply: &str) -> (r: String)
    ensures
        r@ == "发送失败: "@ + reply@,
{
    let mut s = "发送失败: ".to_owned();
    s.append(reply);
    s
}

/// The mark of an entry notification: green for a long, red for a short,
/// white otherwise.
pub open spec fn side_mark(side: Seq<char>) -> Seq<char> {
    if side == "LONG"@ {
        "🟢"@
    } else if side == "SHORT"@ {
        "🔴"@
    } else {
        "⚪"@
    }
}

/// The text of an entry notification.  Prices and amounts in units, the
/// imbalance in ppm; `time` is the local time of day.
pub open spec fn open_text(side: Seq<char>, entry_price: int, quantity: int, obi: int, balance: int, time: Seq<char>) -> Seq<char> {
    side_mark(side) + " <b>开仓通知</b>\n\n<b>方向:</b> "@ + side + "\n<b>价格:</b> $"@ + fixed_text(
        entry_price,
        2,
        false,
    ) + "\n<b>数量:</b> "@ + fixed_text(quantity, 6, false) + " BTC\n<b>OBI:</b> "@ + fixed_text(
        obi * 100,
        3,
        true,
    ) + "\n\n💰 余额: "@ + fixed_text(balance, 2, false) + " USDT\n⏰ "@ + time
}

/// Writes the entry notification (`open_text`).
pub fn open_message_text(side: &str, entry_price: u64, quantity: u64, obi: i64, balance: i64, time: &str) -> (r: String)
    ensures
        r@ == open_text(side@, entry_price as int, quantity as int, obi as int, balance as int, time@),
{
    let mut s = if crate::decimal::same_text(side, "LONG") {
        "🟢".to_owned()
    } else if crate::decimal::same_text(side, "SHORT") {
        "🔴".to_owned()
    } else {
        "⚪".to_owned()
    };
    s.append(" <b>开仓通知</b>\n\n<b>方向:</b> ");
    s.append(side);
    s.append("\n<b>价格:</b> $");
    s.append(format_units(entry_price as i128, 2, false).as_str());
    s.append("\n<b>数量:</b> ");
    s.append(format_units(quantity as i128, 6, false).as_str());
    s.append(" BTC\n<b>OBI:</b> ");
    s.append(format_units(obi as i128 * 100, 3, true).as_str());
    s.append("\n\n💰 余额: ");
    s.append(format_units(balance as i128, 2, false).as_str());
    s.append(" USDT\n⏰ ");
    s.append(time);
    s
}

/// The marks of an exit notification: a tick and a rising chart for a
/// profit of at least 0, a cross and a falling chart otherwise.
pub open spec fn result_mark(pnl: int) -> Seq<char> {
    if pnl >= 0 {
        "✅"@
    } else {
        "❌"@
    }
}

pub open spec fn trend_mark(pnl: int) -> Seq<char> {
    if pnl >= 0 {
        "📈"@
    } else {
        "📉"@
    }
}

/// The text of an exit notification.  Prices and amounts in units; the
/// profit fraction in ppm (shown in percent); the win rate in percent scaled
/// by 10^6; the hold time in seconds.
pub open spec fn close_text(
    side: Seq<char>,
    entry_price: int,
    exit_price: int,
    pnl: int,
    pnl_pct: int,
    hold_time: int,
    reason: Seq<char>,
    total_trades: int,
    win_rate: int,
    total_pnl: int,
    balance: int,
    time: Seq<char>,
) -> Seq<char> {
    result_mark(pnl) + " <b>平仓通知</b> ("@ + reason + ")\n\n<b>方向:</b> "@ + side + "\n<b>入场:</b> $"@
        + fixed_text(entry_price, 2, false) + "\n<b>出场:</b> $"@ + fixed_text(exit_price, 2, false)
        + "\n<b>持仓:</b> "@ + int_text(hold_time) + "秒\n\n"@ + trend_mark(pnl) + " <b>盈亏:</b> "@
        + fixed_text(pnl, 4, true) + " USDT ("@ + fixed_text(pnl_pct * 10_000, 2, true)
        + "%)\n\n──────────────\n📊 累计: "@ + int_text(total_trades) + "笔 | 胜率: "@ + fixed_text(
        win_rate * 100,
        1,
        false,
    ) + "%\n💰 总盈亏: "@ + fixed_text(total_pnl, 2, true) + " USDT\n💼 余额: "@ + fixed_text(
        balance,
        2,
        false,
    ) + " USDT\n⏰ "@ + time
}

/// The figures of an exit notification.
pub struct CloseFigures {
    pub entry_price: u64,
    pub exit_price: u64,
    pub pnl: i64,
    /// Profit fraction in ppm.
    pub pnl_pct: i128,
    pub hold_time: i64,
    pub total_trades: u32,
    /// Percent scaled by 10^6.
    pub win_rate: i64,
    pub total_pnl: i64,
    pub balance: i64,
}

/// Writes the exit notification (`close_text`).
pub fn close_message_text(side: &str, f: &CloseFigures, reason: &str, time: &str) -> (r: String)
    requires
        -0x1_0000_0000_0000_0000_0000_0000_0000 <= f.pnl_pct <= 0x1_0000_0000_0000_0000_0000_0000_0000,
    ensures
        r@ == close_text(
            side@,
            f.entry_price as int,
            f.exit_price as int,
            f.pnl as int,
            f.pnl_pct as int,
            f.hold_time as int,
            reason@,
            f.total_trades as int,
            f.win_rate as int,
            f.total_pnl as int,
            f.balance as int,
            time@,
        ),
{
    let mut s = if f.pnl >= 0 {
        "✅".to_owned()
    } else {
        "❌".to_owned()
    };
    s.append(" <b>平仓通知</b> (");
    s.append(reason);
    s.append(")\n\n<b>方向:</b> ");
    s.append(side);
    s.append("\n<b>入场:</b> $");
    s.append(format_units(f.entry_price as i128, 2, false).as_str());
    s.append("\n<b>出场:</b> $");
    s.append(format_units(f.exit_price as i128, 2, false).as_str());
    s.append("\n<b>持仓:</b> ");
    s.append(format_int(f.hold_time as i128).as_str());
    s.append("秒\n\n");
    if f.pnl >= 0 {
        s.append("📈");
    } else {
        s.append("📉");
    }
    s.append(" <b>盈亏:</b> ");
    s.append(format_units(f.pnl as i128, 4, true).as_str());
    s.append(" USDT (");
    s.append(format_units(f.pnl_pct * 10_000, 2, true).as_str());
    s.append("%)\n\n──────────────\n📊 累计: ");
    s.append(format_int(f.total_trades as i128).as_str());
    s.append("笔 | 胜率: ");
    s.append(format_units(f.win_rate as i128 * 100, 1, false).as_str());
    s.append("%\n💰 总盈亏: ");
    s.append(format_units(f.total_pnl as i128, 2, true).as_str());
    s.append(" USDT\n💼 余额: ");
    s.append(format_units(f.balance as i128, 2, false).as_str());
    s.append(" USDT\n⏰ ");
    s.append(time);
    s
}

/// The text of the daily report; `date` is the local date.
pub open spec fn daily_text(
    total_trades: int,
    wins: int,
    losses: int,
    total_pnl: int,
    win_rate: int,
    balance: int,
    date: Seq<char>,
) -> Seq<char> {
    "📊 <b>每日报告</b>\n\n📅 日期: "@ + date + "\n\n<b>交易统计:</b>\n• 总交易: "@ + int_text(total_trades)
        + "笔\n• 胜: "@ + int_text(wins) + "笔 | 负: "@ + int_text(losses) + "笔\n• 胜率: "@ + fixed_text(
        win_rate * 100,
        1,
        false,
    ) + "%\n\n"@ + trend_mark(total_pnl) + " <b>盈亏:</b> "@ + fixed_text(total_pnl, 2, true)
        + " USDT\n💰 <b>余额:</b> "@ + fixed_text(balance, 2, false) + " USDT"@
}

/// Writes the daily report (`daily_text`).
pub fn daily_report_text(
    total_trades: u32,
    wins: u32,
    losses: u32,
    total_pnl: i64,
    win_rate: i64,
    balance: i64,
    date: &str,
) -> (r: String)
    ensures
        r@ == daily_text(
            total_trades as int,
            wins as int,
            losses as int,
            total_pnl as int,
            win_rate as int,
            balance as int,
            date@,
        ),
{
    let mut s = "📊 <b>每日报告</b>\n\n📅 日期: ".to_owned();
    s.append(date);
    s.append("\n\n<b>交易统计:</b>\n• 总交易: ");
    s.append(format_int(total_trades as i128).as_str());
    s.append("笔\n• 胜: ");
    s.append(format_int(wins as i128).as_str());
    s.append("笔 | 负: ");
    s.append(format_int(losses as i128).as_str());
    s.append("笔\n• 胜率: ");
    s.append(format_units(win_rate as i128 * 100, 1, false).as_str());
    s.append("%\n\n");
    if total_pnl >= 0 {
        s.append("📈");
    } else {
        s.append("📉");
    }
    s.append(" <b>盈亏:</b> ");
    s.append(format_units(total_pnl as i128, 2, true).as_str());
    s.append(" USDT\n💰 <b>余额:</b> ");
    s.append(format_units(balance as i128, 2, false).as_str());
    s.append(" USDT");
    s
}

/// The text of the start-up notification; `time` is the local date and
/// time.
pub open spec fn startup_text(symbol: Seq<char>, leverage: int, balance: int, time: Seq<char>) -> Seq<char> {
    "🚀 <b>BTC Futures Sniper 启动</b>\n\n📊 合约: "@ + symbol + "\n⚡ 杠杆: "@ + int_text(leverage)
        + "x\n💰 初始余额: "@ + fixed_text(balance, 2, false) + " USDT\n🎮 模式: Dry Run\n\n⏰ "@ + time
}

/// Writes the start-up notification (`startup_text`).
pub fn startup_message_text(symbol: &str, leverage: u32, balance: i64, time: &str) -> (r: String)
    ensures
        r@ == startup_text(symbol@, leverage as int, balance as int, time@),
{
    let mut s = "🚀 <b>BTC Futures Sniper 启动</b>\n\n📊 合约: ".to_owned();
    s.append(symbol);
    s.append("\n⚡ 杠杆: ");
    s.append(format_int(leverage as i128).as_str());
    s.append("x\n💰 初始余额: ");
    s.append(format_units(balance as i128, 2, false).as_str());
    s.append(" USDT\n🎮 模式: Dry Run\n\n⏰ ");
    s.append(time);
    s
}

} // verus!
