//! Simulated trading: real order-book data, simulated orders and profit.
//!
//! The trader here is the decision part of the simulation loop.  Each tick
//! it is handed the public order book and the time; it decides whether to
//! close the open position and whether to open a new one, keeps the
//! simulated account, and reports what it did, so that the caller can send
//! notifications and write the trade records (the id a record of an entry
//! is stored under comes back through `record_saved`; the close names it).
use vstd::prelude::*;
use crate::config::{Config, SignalConfig};
use crate::decimal::{floor_div, PPM, UNITS};
use crate::report::TradeRecord;
use crate::risk::{
    exit_reason, decide_exit, max_u64, min_u64, pnl_den, pnl_num, strict_side_kind, CloseReason,
    Position, RiskManager, SideKind, classify_side,
};
use crate::signal::{obi_ppm, reversal_ok, signal_for, SignalEngine, TradeSignal};

verus! {

/// The time left handed to the signal engine on every tick (30 s).
pub const SIGNAL_TIME_MS: i64 = 30_000;

/// The price difference handed to the signal engine: `OBI * 100` in units.
pub open spec fn signal_diff(obi: int) -> int {
    obi * 10_000
}

pub open spec fn clamp_i64(v: int) -> i64 {
    if v > i64::MAX as int {
        i64::MAX
    } else if v < i64::MIN as int {
        i64::MIN
    } else {
        v as i64
    }
}

/// The mid price of a quote, rounded down.
pub open spec fn mid_price(bid: u64, ask: u64) -> u64 {
    ((bid as int + ask as int) / 2) as u64
}

/// Whole seconds of a time in milliseconds, rounded down.
pub open spec fn seconds_of(ms: int) -> int {
    ms / 1000
}

/// The margin of a position: balance times the position share, rounded
/// down.
pub open spec fn position_value(balance: int, share_ppm: int) -> int {
    (balance * share_ppm) / (PPM as int)
}

/// The simulated quantity: `value * leverage / price` in units of the base
/// asset, rounded down; 0 when not positive, `u64::MAX` at a zero price or
/// beyond.
pub open spec fn sim_quantity(value: int, leverage: int, price: int) -> u64 {
    let num = value * leverage * (UNITS as int);
    if num <= 0 {
        0
    } else if price == 0 || num / price > u64::MAX as int {
        u64::MAX
    } else {
        (num / price) as u64
    }
}

/// The profit of a simulated position as a fraction of the entry price, in
/// ppm, rounded down; 0 for a zero entry price.
pub open spec fn sim_pnl_ppm(kind: SideKind, entry: int, exit: int) -> int {
    let num = pnl_num(kind, entry, exit);
    let den = pnl_den(kind, entry);
    if den > 0 {
        (num * (PPM as int)) / den
    } else {
        0
    }
}

/// The profit of a close: value * leverage * fraction, rounded down and held
/// within `i64`.
pub open spec fn sim_pnl(value: int, leverage: int, frac_ppm: int) -> i64 {
    clamp_i64((value * leverage * frac_ppm) / (PPM as int))
}

/// The win rate in percent, scaled by 10^6; 0 before any trade.
pub open spec fn win_rate_ppm(wins: int, total: int) -> int {
    if total > 0 {
        (wins * 100 * (PPM as int)) / total
    } else {
        0
    }
}

/// The text the simulation gives for a close reason.
pub open spec fn sim_reason_text(r: CloseReason) -> Seq<char> {
    match r {
        CloseReason::Timeout => "超时"@,
        CloseReason::TakeProfit => "止盈"@,
        CloseReason::StopLoss => "止损"@,
        CloseReason::TrailingStop => "移动止损"@,
    }
}

pub fn sim_reason_string(r: CloseReason) -> (s: String)
    ensures
        s@ == sim_reason_text(r),
{
    match r {
        CloseReason::Timeout => "超时".to_owned(),
        CloseReason::TakeProfit => "止盈".to_owned(),
        CloseReason::StopLoss => "止损".to_owned(),
        CloseReason::TrailingStop => "移动止损".to_owned(),
    }
}

/// A simulated entry.
pub struct OpenEvent {
    pub side: String,
    pub entry_price: u64,
    pub quantity: u64,
    pub obi: i64,
    /// The margin, in units.
    pub position_value: i128,
    pub balance: i64,
    /// The record to store.
    pub record: TradeRecord,
}

/// A simulated exit.
pub struct CloseEvent {
    pub side: String,
    pub entry_price: u64,
    pub exit_price: u64,
    pub pnl: i64,
    /// The unleveraged profit fraction, in ppm.
    pub pnl_pct: i128,
    /// Seconds.
    pub hold_time: i64,
    pub reason: String,
    pub total_trades: u32,
    /// Percent scaled by 10^6.
    pub win_rate: i64,
    pub total_pnl: i64,
    pub balance: i64,
    /// The id under which the record of the position was stored (see
    /// `record_saved`), to update with the result; none when it was not.
    pub trade_id: Option<i64>,
}

/// What one tick did.
pub struct TickOutcome {
    pub price: u64,
    pub obi: i64,
    pub closed: Option<CloseEvent>,
    pub opened: Option<OpenEvent>,
}

/// A simulated entry on `signal` (long or short) at `entry_price` from an
/// account holding `balance`: the position (`position2`) and the event
/// reported.  The margin is the balance times the position share; the
/// quantity is the margin times the leverage over the price.
pub open spec fn opened_as(
    cfg: Config,
    balance: i64,
    signal: TradeSignal,
    entry_price: u64,
    obi: i64,
    now_ms: int,
    position2: Option<Position>,
    r: Option<OpenEvent>,
) -> bool {
    let side = if signal == TradeSignal::Long { "LONG"@ } else { "SHORT"@ };
    let value = position_value(balance as int, cfg.trading.position_size_pct as int);
    let qty = sim_quantity(value, cfg.trading.leverage as int, entry_price as int);
    &&& position2 matches Some(p) && p.entry_price == entry_price && p.quantity == qty && p.side@ == side
        && p.entry_time == seconds_of(now_ms) && p.highest_price == entry_price && p.lowest_price
        == entry_price
    &&& r matches Some(e) && e.side@ == side && e.entry_price == entry_price && e.quantity == qty && e.obi
        == obi && e.position_value == value && e.balance == balance && e.record.id == 0
        && e.record.timestamp == now_ms && e.record.symbol@ == cfg.trading.symbol@ && e.record.side@ == side
        && e.record.entry_price == entry_price && e.record.exit_price is None && e.record.quantity == qty
        && e.record.pnl is None && e.record.obi == obi && e.record.diff as int == clamp_i64(
        signal_diff(obi as int),
    ) as int && e.record.hold_time is None && e.record.reason@ == "signal_"@ + side && e.record.status@
        == "open"@
}

/// A simulated exit of `p` at `exit_price` for `reason`, with the account
/// `(balance, total profit, trades, wins, losses)` before (`acc`) and after
/// (`acc2`), and the event reported.  The profit is the margin (of the
/// balance before) times the leverage times the price move as a fraction of
/// the entry; it goes into the balance and the total (held within `i64`), the
/// trade is counted, and a profit above zero is a win, anything else a loss.
pub open spec fn closed_as(
    cfg: Config,
    p: Position,
    exit_price: u64,
    reason: CloseReason,
    now_ms: int,
    acc: (i64, i64, u32, u32, u32),
    acc2: (i64, i64, u32, u32, u32),
    r: Option<CloseEvent>,
) -> bool {
    let frac = sim_pnl_ppm(strict_side_kind(p.side@), p.entry_price as int, exit_price as int);
    let value = position_value(acc.0 as int, cfg.trading.position_size_pct as int);
    let pnl = sim_pnl(value, cfg.trading.leverage as int, frac);
    &&& acc2.0 == clamp_i64(acc.0 + pnl)
    &&& acc2.1 == clamp_i64(acc.1 + pnl)
    &&& acc2.2 == acc.2 + 1
    &&& acc2.3 == acc.3 + if pnl > 0 { 1int } else { 0int }
    &&& acc2.4 == acc.4 + if pnl > 0 { 0int } else { 1int }
    &&& r matches Some(e) && e.side@ == p.side@ && e.entry_price == p.entry_price && e.exit_price
        == exit_price && e.pnl == pnl && e.pnl_pct as int == frac && e.hold_time == clamp_i64(
        seconds_of(now_ms) - p.entry_time,
    ) && e.reason@ == sim_reason_text(reason) && e.total_trades == acc2.2 && e.win_rate as int
        == win_rate_ppm(acc2.3 as int, acc2.2 as int) && e.total_pnl == acc2.1 && e.balance == acc2.0
}

/// The account `(balance, total profit, trades, wins, losses)` after a close
/// with profit `pnl`: the profit goes into the balance and the total (held
/// within `i64`), the trade is counted, and a profit above zero is a win,
/// anything else a loss.
pub open spec fn account_after_close(acc: (i64, i64, u32, u32, u32), pnl: i64) -> (i64, i64, u32, u32, u32) {
    (
        clamp_i64(acc.0 + pnl),
        clamp_i64(acc.1 + pnl),
        (acc.2 + 1) as u32,
        (acc.3 + if pnl > 0 { 1int } else { 0int }) as u32,
        (acc.4 + if pnl > 0 { 0int } else { 1int }) as u32,
    )
}

/// The exit step of a tick at `price` (time in milliseconds): when the
/// position, with the price recorded in its highest and lowest prices, is to
/// be closed by `exit_reason` (with `"LONG"` / `"SHORT"` sides), it is
/// closed there for that reason (`closed_as`).
pub open spec fn exit_as(
    cfg: Config,
    position: Option<Position>,
    price: u64,
    now_ms: int,
    acc: (i64, i64, u32, u32, u32),
    acc2: (i64, i64, u32, u32, u32),
    closed: Option<CloseEvent>,
) -> bool {
    match position {
        None => true,
        Some(p) => {
            let q = Position {
                highest_price: max_u64(p.highest_price, price),
                lowest_price: min_u64(p.lowest_price, price),
                ..p
            };
            let reason = exit_reason(cfg.risk, q, price, clamp_i64(seconds_of(now_ms) - p.entry_time) as int, true);
            reason matches Some(why) ==> closed_as(cfg, q, price, why, now_ms, acc, acc2, closed)
        },
    }
}

/// The simulated trader.
pub struct DryRunTrader {
    config: Config,
    signal_engine: SignalEngine,
    risk_manager: RiskManager,
    is_running: bool,
    balance: i64,
    position: Option<Position>,
    total_trades: u32,
    wins: u32,
    losses: u32,
    total_pnl: i64,
    record_id: Option<i64>,
}

impl DryRunTrader {
    pub closed spec fn config_view(&self) -> Config {
        self.config
    }

    pub closed spec fn engine_view(&self) -> SignalEngine {
        self.signal_engine
    }

    pub closed spec fn running_view(&self) -> bool {
        self.is_running
    }

    pub closed spec fn balance_view(&self) -> i64 {
        self.balance
    }

    pub closed spec fn position_view(&self) -> Option<Position> {
        self.position
    }

    pub closed spec fn total_trades_view(&self) -> u32 {
        self.total_trades
    }

    pub closed spec fn wins_view(&self) -> u32 {
        self.wins
    }

    pub closed spec fn losses_view(&self) -> u32 {
        self.losses
    }

    pub closed spec fn total_pnl_view(&self) -> i64 {
        self.total_pnl
    }

    /// The id of the stored record of the open position, once known.
    pub closed spec fn record_id_view(&self) -> Option<i64> {
        self.record_id
    }

    /// The account: balance, total profit, trades, wins and losses.
    pub open spec fn account_view(&self) -> (i64, i64, u32, u32, u32) {
        (
            self.balance_view(),
            self.total_pnl_view(),
            self.total_trades_view(),
            self.wins_view(),
            self.losses_view(),
        )
    }

    /// Wins and losses add up to the trades.
    pub open spec fn counts_consistent(&self) -> bool {
        self.wins_view() as int + self.losses_view() as int == self.total_trades_view() as int
    }

    /// The signal engine works with the signal part of the configuration.
    pub open spec fn engine_consistent(&self) -> bool {
        self.engine_view().config_view() == self.config_view().signal
    }

    /// The balance is the initial balance plus the total profit.
    pub open spec fn account_consistent(&self) -> bool {
        self.balance_view() as int == self.config_view().trading.initial_balance as int
            + self.total_pnl_view() as int
    }

    /// A simulation starting from the initial balance of the configuration.
    pub fn new(config: Config) -> (r: Self)
        ensures
            r.config_view() == config,
            r.engine_view().config_view() == config.signal,
            r.engine_view().decision_obi_view() == None::<i64>,
            !r.running_view(),
            r.balance_view() == config.trading.initial_balance,
            r.position_view() == None::<Position>,
            r.total_trades_view() == 0,
            r.wins_view() == 0,
            r.losses_view() == 0,
            r.total_pnl_view() == 0,
            r.record_id_view() == None::<i64>,
            r.counts_consistent(),
            r.account_consistent(),
            r.engine_consistent(),
    {
        let signal_engine = SignalEngine::new(config.signal);
        let risk_manager = RiskManager::new(config.risk);
        let balance = config.trading.initial_balance;
        DryRunTrader {
            config,
            signal_engine,
            risk_manager,
            is_running: false,
            balance,
            position: None,
            total_trades: 0,
            wins: 0,
            losses: 0,
            total_pnl: 0,
            record_id: None,
        }
    }

    /// The balance of the simulated account, in units.
    pub fn balance(&self) -> (r: i64)
        ensures
            r == self.balance_view(),
    {
        self.balance
    }

    pub fn total_trades(&self) -> (r: u32)
        ensures
            r == self.total_trades_view(),
    {
        self.total_trades
    }

    pub fn wins(&self) -> (r: u32)
        ensures
            r == self.wins_view(),
    {
        self.wins
    }

    pub fn losses(&self) -> (r: u32)
        ensures
            r == self.losses_view(),
    {
        self.losses
    }

    pub fn total_pnl(&self) -> (r: i64)
        ensures
            r == self.total_pnl_view(),
    {
        self.total_pnl
    }

    pub fn position(&self) -> (r: Option<&Position>)
        ensures
            r == match self.position_view() {
                Some(p) => Some(&p),
                None => None::<&Position>,
            },
    {
        match &self.position {
            Some(p) => Some(p),
            None => None,
        }
    }

    pub fn is_running(&self) -> (r: bool)
        ensures
            r == self.running_view(),
    {
        self.is_running
    }

    /// Marks the simulation as running.
    pub fn start(&mut self)
        ensures
            final(self).running_view(),
            final(self).config_view() == old(self).config_view(),
            final(self).engine_view() == old(self).engine_view(),
            final(self).balance_view() == old(self).balance_view(),
            final(self).position_view() == old(self).position_view(),
            final(self).total_trades_view() == old(self).total_trades_view(),
            final(self).wins_view() == old(self).wins_view(),
            final(self).losses_view() == old(self).losses_view(),
            final(self).total_pnl_view() == old(self).total_pnl_view(),
            final(self).record_id_view() == old(self).record_id_view(),
    {
        self.is_running = true;
    }

    /// Stops the simulation.
    pub fn stop(&mut self)
        ensures
            !final(self).running_view(),
            final(self).config_view() == old(self).config_view(),
            final(self).engine_view() == old(self).engine_view(),
            final(self).balance_view() == old(self).balance_view(),
            final(self).position_view() == old(self).position_view(),
            final(self).total_trades_view() == old(self).total_trades_view(),
            final(self).wins_view() == old(self).wins_view(),
            final(self).losses_view() == old(self).losses_view(),
            final(self).total_pnl_view() == old(self).total_pnl_view(),
            final(self).record_id_view() == old(self).record_id_view(),
    {
        self.is_running = false;
    }

    /// Notes the id under which the record of the open position was stored,
    /// so that its close updates that record.
    pub fn record_saved(&mut self, id: i64)
        ensures
            final(self).record_id_view() == Some(id),
            final(self).running_view() == old(self).running_view(),
            final(self).config_view() == old(self).config_view(),
            final(self).engine_view() == old(self).engine_view(),
            final(self).position_view() == old(self).position_view(),
            final(self).account_view() == old(self).account_view(),
    {
        self.record_id = Some(id);
    }

    /// The win rate in percent, scaled by 10^6.
    pub fn win_rate(&self) -> (r: i64)
        ensures
            r as int == win_rate_ppm(self.wins_view() as int, self.total_trades_view() as int),
    {
        if self.total_trades > 0 {
            proof {
                assert(self.wins as int * 100_000_000 / (self.total_trades as int) <= 100_000_000 * 0x1_0000_0000)
                    by (nonlinear_arith)
                    requires
                        self.wins <= 0xffff_ffff,
                        self.total_trades >= 1,
                {
                    assert(self.wins as int * 100_000_000 / (self.total_trades as int) <= self.wins as int
                        * 100_000_000);
                }
            }
            ((self.wins as u128 * 100_000_000) / (self.total_trades as u128)) as i64
        } else {
            0
        }
    }

    /// The exit decision of the simulation for a position held `hold_time`
    /// seconds at the current price (only `"LONG"` and `"SHORT"` sides).
    pub fn check_close_conditions(&self, hold_time: i64, current_price: u64, pos: &Position) -> (r: Option<CloseReason>)
        ensures
            r == exit_reason(self.config_view().risk, *pos, current_price, hold_time as int, true),
    {
        decide_exit(&self.config.risk, pos, current_price, hold_time as i128, true)
    }

    /// Opens a simulated position on a long or short signal at `entry_price`
    /// (time in milliseconds); a neutral signal opens nothing.
    pub fn open_position(&mut self, signal: TradeSignal, entry_price: u64, obi: i64, now_ms: i64) -> (r: Option<OpenEvent>)
        ensures
            final(self).config_view() == old(self).config_view(),
            final(self).engine_view() == old(self).engine_view(),
            final(self).running_view() == old(self).running_view(),
            final(self).balance_view() == old(self).balance_view(),
            final(self).total_trades_view() == old(self).total_trades_view(),
            final(self).wins_view() == old(self).wins_view(),
            final(self).losses_view() == old(self).losses_view(),
            final(self).total_pnl_view() == old(self).total_pnl_view(),
            signal == TradeSignal::Neutral ==> r is None && final(self).position_view() == old(
                self,
            ).position_view() && final(self).record_id_view() == old(self).record_id_view(),
            signal != TradeSignal::Neutral ==> final(self).record_id_view() is None,
            signal != TradeSignal::Neutral ==> opened_as(
                old(self).config_view(),
                old(self).balance_view(),
                signal,
                entry_price,
                obi,
                now_ms as int,
                final(self).position_view(),
                r,
            ),
    {
        let side: &str = match signal {
            TradeSignal::Long => "LONG",
            TradeSignal::Short => "SHORT",
            TradeSignal::Neutral => {
                return None;
            },
        };
        proof {
            reveal_strlit("LONG");
            reveal_strlit("SHORT");
        }
        let value = sim_position_value(self.balance, self.config.trading.position_size_pct);
        let quantity = sim_quantity_of(value, self.config.trading.leverage, entry_price);
        let entry_time = floor_div(now_ms as i128, 1000) as i64;
        proof {
            assert(-0x8000_0000_0000_0000 <= seconds_of(now_ms as int) <= 0x7fff_ffff_ffff_ffff);
        }
        self.position = Some(Position::new(entry_price, quantity, side, entry_time));
        self.record_id = None;
        let mut reason = "signal_".to_owned();
        reason.append(side);
        proof {
            reveal_strlit("signal_");
            reveal_strlit("open");
        }
        let diff: i64 = if obi > i64::MAX / 10_000 {
            i64::MAX
        } else if obi < i64::MIN / 10_000 {
            i64::MIN
        } else {
            obi * 10_000
        };
        let record = TradeRecord {
            id: 0,
            timestamp: now_ms,
            symbol: self.config.trading.symbol.clone(),
            side: side.to_owned(),
            entry_price,
            exit_price: None,
            quantity,
            pnl: None,
            obi,
            diff,
            hold_time: None,
            reason,
            status: "open".to_owned(),
        };
        Some(
            OpenEvent {
                side: side.to_owned(),
                entry_price,
                quantity,
                obi,
                position_value: value,
                balance: self.balance,
                record,
            },
        )
    }

    /// Closes the simulated position at `exit_price` (time in milliseconds):
    /// the leveraged profit on the position's margin goes into the balance
    /// and the totals (both held within `i64`), the trade is counted, and a
    /// profit above zero counts as a win, anything else as a loss.
    pub fn close_position(&mut self, exit_price: u64, reason: CloseReason, now_ms: i64) -> (r: Option<CloseEvent>)
        requires
            old(self).total_trades_view() < u32::MAX,
            old(self).counts_consistent(),
        ensures
            final(self).config_view() == old(self).config_view(),
            final(self).engine_view() == old(self).engine_view(),
            final(self).running_view() == old(self).running_view(),
            final(self).counts_consistent(),
            final(self).position_view() == None::<Position>,
            old(self).position_view() is None ==> r is None && final(self).balance_view() == old(
                self,
            ).balance_view() && final(self).total_trades_view() == old(self).total_trades_view()
                && final(self).wins_view() == old(self).wins_view() && final(self).losses_view()
                == old(self).losses_view() && final(self).total_pnl_view() == old(
                self,
            ).total_pnl_view() && final(self).record_id_view() == old(self).record_id_view(),
            old(self).position_view() is Some ==> final(self).record_id_view() is None,
            r matches Some(e) ==> e.trade_id == old(self).record_id_view() && final(self).account_view()
                == account_after_close(old(self).account_view(), e.pnl),
            r matches Some(e) ==> -0x1_0000_0000_0000_0000_0000_0000_0000 <= e.pnl_pct
                <= 0x1_0000_0000_0000_0000_0000_0000_0000,
            old(self).position_view() matches Some(p) ==> closed_as(
                old(self).config_view(),
                p,
                exit_price,
                reason,
                now_ms as int,
                old(self).account_view(),
                final(self).account_view(),
                r,
            ),
            old(self).account_consistent() && r is None ==> final(self).account_consistent(),
            old(self).account_consistent() ==> (r matches Some(e) ==> (i64::MIN <= old(
                self,
            ).balance_view() + e.pnl <= i64::MAX && i64::MIN <= old(self).total_pnl_view() + e.pnl
                <= i64::MAX ==> final(self).account_consistent())),
    {
        let pos = match self.position.take() {
            Some(p) => p,
            None => {
                return None;
            },
        };
        let trade_id = self.record_id;
        self.record_id = None;
        let kind = classify_side(pos.side.as_str(), true);
        let frac = sim_pnl_fraction(kind, pos.entry_price, exit_price);
        let value = sim_position_value(self.balance, self.config.trading.position_size_pct);
        let pnl = sim_pnl_of(value, self.config.trading.leverage, frac);
        self.balance = clamp_to_i64(self.balance as i128 + pnl as i128);
        self.total_pnl = clamp_to_i64(self.total_pnl as i128 + pnl as i128);
        self.total_trades = self.total_trades + 1;
        if pnl > 0 {
            self.wins = self.wins + 1;
        } else {
            self.losses = self.losses + 1;
        }
        let now_s = floor_div(now_ms as i128, 1000);
        let hold_time = clamp_to_i64(now_s - pos.entry_time as i128);
        let win_rate = self.win_rate();
        Some(
            CloseEvent {
                side: pos.side,
                entry_price: pos.entry_price,
                exit_price,
                pnl,
                pnl_pct: frac,
                hold_time,
                reason: sim_reason_string(reason),
                total_trades: self.total_trades,
                win_rate,
                total_pnl: self.total_pnl,
                balance: self.balance,
                trade_id,
            },
        )
    }
}

impl DryRunTrader {
    /// One tick of the simulation on the current public book (time in
    /// milliseconds).  First, when a position is open, the mid price is
    /// recorded in its highest and lowest prices and the position is closed
    /// when `exit_reason` (with `"LONG"` / `"SHORT"` sides) says so.  Then,
    /// when no position is open, a signal is generated from the imbalance,
    /// a price difference of `OBI * 100` and 30 s left, and a position is
    /// opened at the mid price when the signal is long or short and passes
    /// the reversal check.
    pub fn tick(&mut self, book: &crate::binance_ws::OrderBook, now_ms: i64) -> (r: TickOutcome)
        requires
            old(self).total_trades_view() < u32::MAX,
            old(self).counts_consistent(),
            old(self).engine_consistent(),
        ensures
            final(self).engine_consistent(),
            old(self).account_consistent() && r.closed is None ==> final(self).account_consistent(),
            old(self).account_consistent() ==> (r.closed matches Some(e) ==> (i64::MIN <= old(
                self,
            ).balance_view() + e.pnl <= i64::MAX && i64::MIN <= old(self).total_pnl_view() + e.pnl
                <= i64::MAX ==> final(self).account_consistent())),
            ({
                let price = mid_price(book.best_bid, book.best_ask);
                let obi = obi_ppm(book.bids_volume as int, book.asks_volume as int);
                let cfg = old(self).config_view();
                let after_exit: Option<Position> = match old(self).position_view() {
                    Some(p) => {
                        let q = Position {
                            highest_price: max_u64(p.highest_price, price),
                            lowest_price: min_u64(p.lowest_price, price),
                            ..p
                        };
                        if exit_reason(
                            cfg.risk,
                            q,
                            price,
                            clamp_i64(seconds_of(now_ms as int) - p.entry_time) as int,
                            true,
                        ) is Some {
                            None
                        } else {
                            Some(q)
                        }
                    },
                    None => None,
                };
                let signal = signal_for(cfg.signal, obi, signal_diff(obi), SIGNAL_TIME_MS as int);
                let enters = after_exit is None && signal != TradeSignal::Neutral && reversal_ok(
                    cfg.signal,
                    signal,
                    obi,
                );
                &&& r.price == price
                &&& r.obi as int == obi
                &&& (r.closed is Some <==> (old(self).position_view() is Some && after_exit is None))
                &&& (r.opened is Some <==> enters)
                &&& final(self).total_trades_view() == old(self).total_trades_view() + if r.closed is Some {
                    1int
                } else {
                    0int
                }
                &&& final(self).counts_consistent()
                &&& final(self).config_view() == cfg
                &&& final(self).running_view() == old(self).running_view()
                &&& (enters ==> (final(self).position_view() matches Some(p) && p.entry_price == price
                    && p.entry_time == seconds_of(now_ms as int)))
                &&& (!enters ==> final(self).position_view() == after_exit)
                &&& (after_exit is None ==> final(self).engine_view().last_obi_view() == obi)
                &&& (after_exit is Some ==> final(self).engine_view() == old(self).engine_view())
                &&& (r.closed is None ==> final(self).account_view() == old(self).account_view())
                &&& (r.closed matches Some(e) ==> e.trade_id == old(self).record_id_view()
                    && final(self).account_view() == account_after_close(old(self).account_view(), e.pnl)
                    && -0x1_0000_0000_0000_0000_0000_0000_0000 <= e.pnl_pct
                    <= 0x1_0000_0000_0000_0000_0000_0000_0000)
                &&& ((r.opened is Some || r.closed is Some) ==> final(self).record_id_view() is None)
                &&& ((r.opened is None && r.closed is None) ==> final(self).record_id_view() == old(
                    self,
                ).record_id_view())
                &&& (after_exit is None ==> final(self).engine_view().decision_obi_view() == (if signal
                    != TradeSignal::Neutral {
                    Some(obi as i64)
                } else {
                    old(self).engine_view().decision_obi_view()
                }))
                &&& position_step(
                    old(self).position_view(),
                    final(self).position_view(),
                    r.opened is Some,
                    r.closed is Some,
                )
                &&& exit_as(
                    cfg,
                    old(self).position_view(),
                    price,
                    now_ms as int,
                    old(self).account_view(),
                    final(self).account_view(),
                    r.closed,
                )
                &&& (enters ==> opened_as(
                    cfg,
                    final(self).balance_view(),
                    signal,
                    price,
                    obi as i64,
                    now_ms as int,
                    final(self).position_view(),
                    r.opened,
                ))
            }),
    {
        let price_wide = (book.best_bid as u128 + book.best_ask as u128) / 2;
        let price = price_wide as u64;
        let obi = SignalEngine::calculate_obi(book.bids_volume, book.asks_volume);
        let ghost cfg = self.config;
        let ghost old_position = self.position;

        // 1. exit check on an open position
        let mut exit: Option<CloseReason> = None;
        let now_s = floor_div(now_ms as i128, 1000);
        match &mut self.position {
            Some(pos) => {
                pos.update_price(price);
                let hold_time = clamp_to_i64(now_s - pos.entry_time as i128);
                exit = decide_exit(&self.config.risk, pos, price, hold_time as i128, true);
            },
            None => {},
        }
        let closed = match exit {
            Some(reason) => self.close_position(price, reason, now_ms),
            None => None,
        };

        // 2. entry on a signal when flat
        let mut opened: Option<OpenEvent> = None;
        if self.position.is_none() {
            proof {
                assert(-1_000_000 <= obi <= 1_000_000);
            }
            let diff = obi * 10_000;
            let signal = self.signal_engine.generate_signal(obi, diff, SIGNAL_TIME_MS);
            if signal != TradeSignal::Neutral {
                if self.signal_engine.check_obi_reversal(&signal, obi) {
                    opened = self.open_position(signal, price, obi, now_ms);
                }
            }
        }
        TickOutcome { price, obi, closed, opened }
    }
}

/// Holds a value within `i64`.
pub fn clamp_to_i64(v: i128) -> (r: i64)
    ensures
        r == clamp_i64(v as int),
{
    if v > i64::MAX as i128 {
        i64::MAX
    } else if v < i64::MIN as i128 {
        i64::MIN
    } else {
        v as i64
    }
}

/// `position_value`, computed without overflow.
pub fn sim_position_value(balance: i64, share_ppm: i32) -> (r: i128)
    ensures
        r as int == position_value(balance as int, share_ppm as int),
        -0x4000_0000_0000_0000_0000 <= r <= 0x4000_0000_0000_0000_0000,
{
    let b = balance as i128;
    let s = share_ppm as i128;
    proof {
        assert(-0x4000_0000_0000_0000_0000_0000 <= b * s <= 0x4000_0000_0000_0000_0000_0000) by (nonlinear_arith)
            requires
                -0x8000_0000_0000_0000 <= b <= 0x7fff_ffff_ffff_ffff,
                -0x8000_0000 <= s <= 0x7fff_ffff,
        ;
    }
    let r = floor_div(b * s, 1_000_000);
    proof {
        let n = (b * s) as int;
        assert(-0x4000_0000_0000_0000_0000 <= n / 1_000_000 <= 0x4000_0000_0000_0000_0000) by (nonlinear_arith)
            requires
                -0x4000_0000_0000_0000_0000_0000 <= n <= 0x4000_0000_0000_0000_0000_0000,
        ;
    }
    r
}

/// `sim_quantity`, computed without overflow.
pub fn sim_quantity_of(value: i128, leverage: u32, price: u64) -> (r: u64)
    requires
        -0x4000_0000_0000_0000_0000 <= value <= 0x4000_0000_0000_0000_0000,
    ensures
        r == sim_quantity(value as int, leverage as int, price as int),
{
    let ghost num = value as int * leverage as int * (UNITS as int);
    if value <= 0 || leverage == 0 {
        proof {
            assert(num <= 0) by (nonlinear_arith)
                requires
                    num == value as int * leverage as int * 100_000_000,
                    value <= 0 || leverage == 0,
                    leverage >= 0,
            ;
        }
        return 0;
    }
    proof {
        assert(num > 0) by (nonlinear_arith)
            requires
                num == value as int * leverage as int * 100_000_000,
                value > 0,
                leverage > 0,
        ;
    }
    if price == 0 {
        return u64::MAX;
    }
    proof {
        assert(value as int * leverage as int <= 0x4000_0000_0000_0000_0000 * 0xffff_ffff) by (nonlinear_arith)
            requires
                0 < value <= 0x4000_0000_0000_0000_0000,
                0 < leverage <= 0xffff_ffff,
        ;
    }
    let w = (value as u128) * (leverage as u128);
    match w.checked_mul(100_000_000) {
        None => {
            proof {
                assert(num / (price as int) > u64::MAX as int) by (nonlinear_arith)
                    requires
                        num > u128::MAX as int,
                        0 < price as int <= u64::MAX as int,
                {
                    assert(num >= price as int * 0x1_0000_0000_0000_0001);
                }
            }
            u64::MAX
        },
        Some(c) => {
            let q = c / (price as u128);
            if q > u64::MAX as u128 {
                u64::MAX
            } else {
                q as u64
            }
        },
    }
}

/// `sim_pnl_ppm`, computed without overflow.
pub fn sim_pnl_fraction(kind: SideKind, entry: u64, exit: u64) -> (r: i128)
    ensures
        r as int == sim_pnl_ppm(kind, entry as int, exit as int),
        -0x1_0000_0000_0000_0000_0000_0000_0000 <= r <= 0x1_0000_0000_0000_0000_0000_0000_0000,
{
    let e = entry as i128;
    let x = exit as i128;
    let (num, den): (i128, i128) = match kind {
        SideKind::Long => (x - e, e),
        SideKind::Short => (e - x, e),
        SideKind::Other => (0, 1),
    };
    if den <= 0 {
        return 0;
    }
    proof {
        assert(-0x1_0000_0000_0000_0000_0000_0000_0000 <= num * 1_000_000 <= 0x1_0000_0000_0000_0000_0000_0000_0000)
            by (nonlinear_arith)
            requires
                -0x1_0000_0000_0000_0000 <= num <= 0x1_0000_0000_0000_0000,
        ;
    }
    let q = floor_div(num * 1_000_000, den);
    proof {
        let n = (num * 1_000_000) as int;
        let d = den as int;
        assert(-0x1_0000_0000_0000_0000_0000_0000_0000 <= n / d <= 0x1_0000_0000_0000_0000_0000_0000_0000)
            by (nonlinear_arith)
            requires
                -0x1_0000_0000_0000_0000_0000_0000_0000 <= n <= 0x1_0000_0000_0000_0000_0000_0000_0000,
                d >= 1,
        ;
        assert(q as int == n / d);
    }
    q
}

/// `sim_pnl`, computed without overflow.
pub fn sim_pnl_of(value: i128, leverage: u32, frac_ppm: i128) -> (r: i64)
    requires
        -0x4000_0000_0000_0000_0000 <= value <= 0x4000_0000_0000_0000_0000,
    ensures
        r == sim_pnl(value as int, leverage as int, frac_ppm as int),
{
    proof {
        assert(-0x4000_0000_0000_0000_0000 * 0xffff_ffff <= value as int * leverage as int
            <= 0x4000_0000_0000_0000_0000 * 0xffff_ffff) by (nonlinear_arith)
            requires
                -0x4000_0000_0000_0000_0000 <= value <= 0x4000_0000_0000_0000_0000,
                0 <= leverage <= 0xffff_ffff,
        ;
    }
    let w = value * (leverage as i128);
    let ghost exact = w as int * frac_ppm as int;
    match w.checked_mul(frac_ppm) {
        None => {
            proof {
                assert(exact / 1_000_000 > i64::MAX as int || exact / 1_000_000 < i64::MIN as int)
                    by (nonlinear_arith)
                    requires
                        exact > i128::MAX as int || exact < i128::MIN as int,
                ;
            }
            if (w > 0) == (frac_ppm > 0) {
                proof {
                    assert(exact > 0) by (nonlinear_arith)
                        requires
                            exact == w as int * frac_ppm as int,
                            (w > 0) == (frac_ppm > 0),
                            exact != 0,
                    ;
                }
                i64::MAX
            } else {
                proof {
                    assert(exact < 0) by (nonlinear_arith)
                        requires
                            exact == w as int * frac_ppm as int,
                            (w > 0) != (frac_ppm > 0),
                            exact != 0,
                    ;
                }
                i64::MIN
            }
        },
        Some(c) => {
            proof {
                assert(value as int * leverage as int * frac_ppm as int == exact);
            }
            if c == i128::MIN {
                proof {
                    assert((c as int) / 1_000_000 < i64::MIN as int);
                }
                i64::MIN
            } else {
                clamp_to_i64(floor_div(c, 1_000_000))
            }
        },
    }
}

/// The entry rule of the trading loops: they hand the signal engine a price
/// difference of `OBI * 100` and 30 s left, so when the difference
/// threshold is no larger than what either imbalance threshold implies and
/// the window holds 30 s (as in the default configuration: +0.40, -0.30, a
/// difference of 30, 10 s to 45 s), the signal is long exactly at an
/// imbalance at or above the bull threshold, short exactly at one at or
/// below the bear threshold, and none otherwise.
pub proof fn lemma_loop_signal_rule(cfg: SignalConfig, obi: int)
    requires
        cfg.bear_no_obi < 0 < cfg.gold_bull_obi,
        cfg.diff_threshold <= cfg.gold_bull_obi * 10_000,
        cfg.diff_threshold <= -cfg.bear_no_obi * 10_000,
        cfg.time_min <= SIGNAL_TIME_MS <= cfg.time_max,
    ensures
        signal_for(cfg, obi, signal_diff(obi), SIGNAL_TIME_MS as int) == (if obi >= cfg.gold_bull_obi {
            TradeSignal::Long
        } else if obi <= cfg.bear_no_obi {
            TradeSignal::Short
        } else {
            TradeSignal::Neutral
        }),
{
}

/// Two positions entered alike: same side, entry price, quantity and time.
pub open spec fn same_entry(a: Position, b: Position) -> bool {
    a.side@ == b.side@ && a.entry_price == b.entry_price && a.quantity == b.quantity && a.entry_time
        == b.entry_time
}

/// How the simulated position may change in one tick, from `p0` to `p1`,
/// where `opened` / `closed` say whether the tick opened / closed one: only
/// an open position is closed; a position is opened only when none was open
/// or the open one was just closed; without an entry a position stays
/// exactly when it was open and not closed, and then it is the same entry.
pub open spec fn position_step(p0: Option<Position>, p1: Option<Position>, opened: bool, closed: bool) -> bool {
    &&& (closed ==> p0 is Some)
    &&& (opened ==> p1 is Some && (p0 is None || closed))
    &&& (!opened ==> (p1 is Some <==> (p0 is Some && !closed)))
    &&& (match (p0, p1) {
        (Some(a), Some(b)) => !closed ==> same_entry(a, b),
        _ => true,
    })
}

/// The number of `true` entries.
pub open spec fn count_true(bs: Seq<bool>) -> int
    decreases bs.len(),
{
    if bs.len() == 0 {
        0
    } else {
        count_true(bs.drop_last()) + if bs.last() { 1int } else { 0int }
    }
}

/// 1 for an open position, 0 for none.
pub open spec fn open_count(p: Option<Position>) -> int {
    if p is Some {
        1
    } else {
        0
    }
}

/// Over any run of ticks, with `ps` the positions before and after each tick
/// and `opened` / `closed` what each tick did: the positions opened less the
/// positions closed is the change in the number of open positions (0 or 1).
/// So at most one position is open at a time, and from a flat start no
/// position is opened more than once without a close in between.
pub proof fn lemma_positions_over_ticks(ps: Seq<Option<Position>>, opened: Seq<bool>, closed: Seq<bool>)
    requires
        ps.len() == opened.len() + 1,
        closed.len() == opened.len(),
        forall|i: int| 0 <= i < opened.len() ==> position_step(#[trigger] ps[i], ps[i + 1], opened[i], closed[i]),
    ensures
        count_true(opened) - count_true(closed) == open_count(ps.last()) - open_count(ps[0]),
        ps[0] is None ==> count_true(opened) <= count_true(closed) + 1,
    decreases opened.len(),
{
    if opened.len() > 0 {
        let n = opened.len() - 1;
        let ps0 = ps.drop_last();
        assert forall|i: int| 0 <= i < opened.drop_last().len() implies position_step(
            #[trigger] ps0[i],
            ps0[i + 1],
            opened.drop_last()[i],
            closed.drop_last()[i],
        ) by {
            assert(ps0[i] == ps[i]);
            assert(ps0[i + 1] == ps[i + 1]);
            assert(position_step(ps[i], ps[i + 1], opened[i], closed[i]));
        }
        lemma_positions_over_ticks(ps0, opened.drop_last(), closed.drop_last());
        assert(position_step(ps[n], ps[n + 1], opened[n], closed[n]));
        assert(ps0.last() == ps[n]);
    }
}

/// The sum of the profits.
pub open spec fn sum_pnls(pnls: Seq<i64>) -> int
    decreases pnls.len(),
{
    if pnls.len() == 0 {
        0
    } else {
        sum_pnls(pnls.drop_last()) + pnls.last()
    }
}

/// The number of profits above zero.
pub open spec fn count_positive(pnls: Seq<i64>) -> int
    decreases pnls.len(),
{
    if pnls.len() == 0 {
        0
    } else {
        count_positive(pnls.drop_last()) + if pnls.last() > 0 { 1int } else { 0int }
    }
}

/// The account after closes with the profits `pnls`, in order.
pub open spec fn account_after_closes(acc: (i64, i64, u32, u32, u32), pnls: Seq<i64>) -> (i64, i64, u32, u32, u32)
    decreases pnls.len(),
{
    if pnls.len() == 0 {
        acc
    } else {
        account_after_close(account_after_closes(acc, pnls.drop_last()), pnls.last())
    }
}

/// The simulated account over any run of closes (entries leave it alone),
/// starting from a fresh account with `initial`: every close is counted,
/// the wins are the closes with a profit above zero and the losses the rest
/// (a zero profit is a loss), and, while the running totals fit in `i64`,
/// the total profit is the sum of the profits and the balance the initial
/// balance plus that sum.
pub proof fn lemma_account_over_closes(initial: i64, pnls: Seq<i64>)
    requires
        pnls.len() < u32::MAX,
    ensures
        ({
            let acc = account_after_closes((initial, 0i64, 0u32, 0u32, 0u32), pnls);
            &&& acc.2 == pnls.len()
            &&& acc.3 == count_positive(pnls)
            &&& acc.3 + acc.4 == acc.2
            &&& ((forall|k: int|
                0 <= k <= pnls.len() ==> i64::MIN <= #[trigger] sum_pnls(pnls.take(k)) <= i64::MAX
                    && i64::MIN <= initial + sum_pnls(pnls.take(k)) <= i64::MAX) ==> acc.1 == sum_pnls(pnls)
                && acc.0 == initial + sum_pnls(pnls))
        }),
    decreases pnls.len(),
{
    if pnls.len() > 0 {
        let n = pnls.len() - 1;
        let front = pnls.drop_last();
        lemma_account_over_closes(initial, front);
        lemma_count_positive_bound(front);
        if forall|k: int|
            0 <= k <= pnls.len() ==> i64::MIN <= #[trigger] sum_pnls(pnls.take(k)) <= i64::MAX && i64::MIN
                <= initial + sum_pnls(pnls.take(k)) <= i64::MAX {
            assert forall|k: int|
                0 <= k <= front.len() implies i64::MIN <= #[trigger] sum_pnls(front.take(k)) <= i64::MAX
                && i64::MIN <= initial + sum_pnls(front.take(k)) <= i64::MAX by {
                assert(front.take(k) =~= pnls.take(k));
                assert(i64::MIN <= sum_pnls(pnls.take(k)) <= i64::MAX);
            }
            assert(pnls.take(n + 1) =~= pnls);
            assert(i64::MIN <= sum_pnls(pnls.take(n + 1)) <= i64::MAX);
            assert(front.take(n) =~= front);
            assert(i64::MIN <= sum_pnls(pnls.take(n)) <= i64::MAX);
            assert(pnls.take(n) =~= front);
        }
    }
}

proof fn lemma_count_positive_bound(pnls: Seq<i64>)
    ensures
        0 <= count_positive(pnls) <= pnls.len(),
    decreases pnls.len(),
{
    if pnls.len() > 0 {
        lemma_count_positive_bound(pnls.drop_last());
    }
}

proof fn lemma_floor_quotient(n: int, d: int)
    requires
        d > 0,
    ensures
        (n / d) * d <= n < (n / d + 1) * d,
{
    assert((n / d) * d <= n < (n / d + 1) * d) by (nonlinear_arith)
        requires
            d > 0,
    {
        assert(n == d * (n / d) + n % d);
        assert(0 <= n % d < d);
    }
}

/// The profit fraction of a simulated trade is the price move in the
/// position's favour over the entry price, in ppm, rounded down: for a
/// `"LONG"` position `f * entry <= (exit - entry) * 10^6 < (f + 1) * entry`,
/// for a `"SHORT"` one the same with the move reversed.  So a long loses
/// (a negative fraction) exactly when the price fell and a short exactly
/// when it rose.
pub proof fn lemma_sim_pnl_fraction_direction(entry: int, exit: int)
    requires
        entry > 0,
    ensures
        ({
            let f = sim_pnl_ppm(strict_side_kind("LONG"@), entry, exit);
            let g = sim_pnl_ppm(strict_side_kind("SHORT"@), entry, exit);
            &&& f * entry <= (exit - entry) * 1_000_000 < (f + 1) * entry
            &&& g * entry <= (entry - exit) * 1_000_000 < (g + 1) * entry
            &&& (f < 0 <==> exit < entry)
            &&& (g < 0 <==> exit > entry)
        }),
{
    reveal_strlit("LONG");
    reveal_strlit("SHORT");
    assert("SHORT"@.len() != "LONG"@.len());
    let f = sim_pnl_ppm(strict_side_kind("LONG"@), entry, exit);
    let g = sim_pnl_ppm(strict_side_kind("SHORT"@), entry, exit);
    lemma_floor_quotient((exit - entry) * 1_000_000, entry);
    lemma_floor_quotient((entry - exit) * 1_000_000, entry);
    assert(f < 0 <==> exit < entry) by (nonlinear_arith)
        requires
            f * entry <= (exit - entry) * 1_000_000 < (f + 1) * entry,
            entry > 0,
    ;
    assert(g < 0 <==> exit > entry) by (nonlinear_arith)
        requires
            g * entry <= (entry - exit) * 1_000_000 < (g + 1) * entry,
            entry > 0,
    ;
}

/// The profit of a simulated close has the sign of its profit fraction (for
/// a non-negative margin and leverage): a fraction below zero never books a
/// gain, and one above zero never a loss.
pub proof fn lemma_sim_pnl_sign(value: int, leverage: int, frac_ppm: int)
    requires
        value >= 0,
        leverage >= 0,
    ensures
        frac_ppm <= 0 ==> sim_pnl(value, leverage, frac_ppm) <= 0,
        frac_ppm >= 0 ==> sim_pnl(value, leverage, frac_ppm) >= 0,
{
    let w = value * leverage;
    assert(w >= 0) by (nonlinear_arith)
        requires
            value >= 0,
            leverage >= 0,
            w == value * leverage,
    ;
    let n = value * leverage * frac_ppm;
    if frac_ppm <= 0 {
        assert(n <= 0) by (nonlinear_arith)
            requires
                w >= 0,
                frac_ppm <= 0,
                n == w * frac_ppm,
                w == value * leverage,
        ;
    } else {
        assert(n >= 0) by (nonlinear_arith)
            requires
                w >= 0,
                frac_ppm >= 0,
                n == w * frac_ppm,
                w == value * leverage,
        ;
    }
}

} // verus!
