//! Risk management: the open position, stop-loss / take-profit prices, exit
//! conditions and position sizing.
use vstd::prelude::*;
use crate::config::RiskConfig;
use crate::decimal::{floor_div, same_text, PPM};

verus! {

/// The direction a side text names.
#[derive(Clone, Copy, PartialEq, Eq, Structural)]
pub enum SideKind {
    Long,
    Short,
    Other,
}

/// `"LONG"` or `"BUY"` is long, `"SHORT"` or `"SELL"` is short.
pub open spec fn side_kind(s: Seq<char>) -> SideKind {
    if s == "LONG"@ || s == "BUY"@ {
        SideKind::Long
    } else if s == "SHORT"@ || s == "SELL"@ {
        SideKind::Short
    } else {
        SideKind::Other
    }
}

/// Only `"LONG"` is long and only `"SHORT"` is short.
pub open spec fn strict_side_kind(s: Seq<char>) -> SideKind {
    if s == "LONG"@ {
        SideKind::Long
    } else if s == "SHORT"@ {
        SideKind::Short
    } else {
        SideKind::Other
    }
}

/// Classifies a side text; with `strict` only `"LONG"` and `"SHORT"` count.
pub fn classify_side(side: &str, strict: bool) -> (r: SideKind)
    ensures
        r == (if strict {
            strict_side_kind(side@)
        } else {
            side_kind(side@)
        }),
{
    if same_text(side, "LONG") || (!strict && same_text(side, "BUY")) {
        SideKind::Long
    } else if same_text(side, "SHORT") || (!strict && same_text(side, "SELL")) {
        SideKind::Short
    } else {
        SideKind::Other
    }
}

/// An open position.  Prices in units, quantity in units of the base asset.
pub struct Position {
    pub entry_price: u64,
    pub quantity: u64,
    /// `"LONG"` or `"SHORT"` (or `"BUY"` / `"SELL"`).
    pub side: String,
    /// Seconds since the Unix epoch.
    pub entry_time: i64,
    /// Highest price seen (for the trailing stop).
    pub highest_price: u64,
    /// Lowest price seen (for the trailing stop).
    pub lowest_price: u64,
}

impl Clone for Position {
    fn clone(&self) -> (r: Self)
        ensures
            r == *self,
    {
        Position {
            entry_price: self.entry_price,
            quantity: self.quantity,
            side: self.side.clone(),
            entry_time: self.entry_time,
            highest_price: self.highest_price,
            lowest_price: self.lowest_price,
        }
    }
}

pub open spec fn max_u64(a: u64, b: u64) -> u64 {
    if a >= b {
        a
    } else {
        b
    }
}

pub open spec fn min_u64(a: u64, b: u64) -> u64 {
    if a <= b {
        a
    } else {
        b
    }
}

impl Position {
    /// A position opened at `entry_time` (seconds since the Unix epoch).
    pub fn new(entry_price: u64, quantity: u64, side: &str, entry_time: i64) -> (r: Self)
        ensures
            r.entry_price == entry_price,
            r.quantity == quantity,
            r.side@ == side@,
            r.entry_time == entry_time,
            r.highest_price == entry_price,
            r.lowest_price == entry_price,
    {
        Position {
            entry_price,
            quantity,
            side: side.to_owned(),
            entry_time,
            highest_price: entry_price,
            lowest_price: entry_price,
        }
    }

    /// Records a new price in the highest and lowest prices seen.
    pub fn update_price(&mut self, current_price: u64)
        ensures
            final(self).highest_price == max_u64(old(self).highest_price, current_price),
            final(self).lowest_price == min_u64(old(self).lowest_price, current_price),
            final(self).entry_price == old(self).entry_price,
            final(self).quantity == old(self).quantity,
            final(self).side == old(self).side,
            final(self).entry_time == old(self).entry_time,
    {
        if current_price > self.highest_price {
            self.highest_price = current_price;
        }
        if current_price < self.lowest_price {
            self.lowest_price = current_price;
        }
    }
}

/// Why a position is closed.
#[derive(Clone, Copy, PartialEq, Eq, Structural)]
pub enum CloseReason {
    Timeout,
    TakeProfit,
    StopLoss,
    TrailingStop,
}

/// The profit of a position as a fraction `num / den` of the entry price:
/// `(price - entry) / entry` long, `(entry - price) / entry` short, and
/// `0 / 1` for any other side.
pub open spec fn pnl_num(kind: SideKind, entry_price: int, price: int) -> int {
    match kind {
        SideKind::Long => price - entry_price,
        SideKind::Short => entry_price - price,
        SideKind::Other => 0,
    }
}

pub open spec fn pnl_den(kind: SideKind, entry_price: int) -> int {
    match kind {
        SideKind::Other => 1,
        _ => entry_price,
    }
}

/// `num / den >= thr / 10^6`.  A zero denominator gives an infinite profit
/// for a positive numerator, an infinite loss for a negative one, and no
/// number (which compares false) for a zero one.
pub open spec fn ratio_at_least(num: int, den: int, thr_ppm: int) -> bool {
    if den > 0 {
        num * (PPM as int) >= thr_ppm * den
    } else {
        num > 0
    }
}

/// `num / den <= thr / 10^6`, read as `ratio_at_least` reads it.
pub open spec fn ratio_at_most(num: int, den: int, thr_ppm: int) -> bool {
    if den > 0 {
        num * (PPM as int) <= thr_ppm * den
    } else {
        num < 0
    }
}

/// Whether a position with this profit fraction and these prices is to be
/// closed, and why; `held` is the time since entry in seconds.  With `strict`
/// only `"LONG"` / `"SHORT"` sides count; otherwise `"BUY"` / `"SELL"` too.
pub open spec fn exit_reason(cfg: RiskConfig, pos: Position, price: u64, held: int, strict: bool) -> Option<CloseReason> {
    let kind = if strict { strict_side_kind(pos.side@) } else { side_kind(pos.side@) };
    let num = pnl_num(kind, pos.entry_price as int, price as int);
    let den = pnl_den(kind, pos.entry_price as int);
    let ppm = PPM as int;
    if held > (cfg.max_hold_time_secs as i64) as int {
        Some(CloseReason::Timeout)
    } else if ratio_at_least(num, den, cfg.take_profit_pct as int) {
        Some(CloseReason::TakeProfit)
    } else if ratio_at_most(num, den, -(cfg.stop_loss_pct as int)) {
        Some(CloseReason::StopLoss)
    } else if cfg.trailing_stop && num > 0 && match kind {
        SideKind::Long => price as int * ppm <= pos.highest_price as int * (ppm - cfg.trailing_stop_pct as int),
        SideKind::Short => price as int * ppm >= pos.lowest_price as int * (ppm + cfg.trailing_stop_pct as int),
        SideKind::Other => false,
    } {
        Some(CloseReason::TrailingStop)
    } else {
        None
    }
}

/// Decides `exit_reason` for a position.
pub fn decide_exit(cfg: &RiskConfig, pos: &Position, price: u64, held: i128, strict: bool) -> (r: Option<CloseReason>)
    ensures
        r == exit_reason(*cfg, *pos, price, held as int, strict),
{
    let kind = classify_side(pos.side.as_str(), strict);
    let entry = pos.entry_price as i128;
    let p = price as i128;
    let (num, den): (i128, i128) = match kind {
        SideKind::Long => (p - entry, entry),
        SideKind::Short => (entry - p, entry),
        SideKind::Other => (0, 1),
    };
    let ppm: i128 = 1_000_000;
    proof {
        assert(num as int == pnl_num(kind, pos.entry_price as int, price as int));
        assert(den as int == pnl_den(kind, pos.entry_price as int));
        assert(-0x1_0000_0000_0000_0000 <= num as int <= 0x1_0000_0000_0000_0000);
        assert(0 <= den as int <= 0x1_0000_0000_0000_0000);
    }
    if held > (cfg.max_hold_time_secs as i64) as i128 {
        return Some(CloseReason::Timeout);
    }
    let tp = cfg.take_profit_pct as i128;
    let sl = cfg.stop_loss_pct as i128;
    proof {
        assert(-0x1_0000_0000_0000_0000_0000_0000_0000 <= num * ppm <= 0x1_0000_0000_0000_0000_0000_0000_0000)
            by (nonlinear_arith)
            requires
                -0x1_0000_0000_0000_0000 <= num <= 0x1_0000_0000_0000_0000,
                ppm == 1_000_000,
        ;
        assert(-0x1_0000_0000_0000_0000_0000_0000_0000 <= tp * den <= 0x1_0000_0000_0000_0000_0000_0000_0000)
            by (nonlinear_arith)
            requires
                -0x8000_0000 <= tp <= 0x8000_0000,
                0 <= den <= 0x1_0000_0000_0000_0000,
        ;
        assert(-0x1_0000_0000_0000_0000_0000_0000_0000 <= sl * den <= 0x1_0000_0000_0000_0000_0000_0000_0000)
            by (nonlinear_arith)
            requires
                -0x8000_0000 <= sl <= 0x8000_0000,
                0 <= den <= 0x1_0000_0000_0000_0000,
        ;
    }
    let at_least_tp = if den > 0 {
        num * ppm >= tp * den
    } else {
        num > 0
    };
    if at_least_tp {
        return Some(CloseReason::TakeProfit);
    }
    proof {
        assert((-(sl as int)) * (den as int) == -((sl as int) * (den as int))) by (nonlinear_arith);
    }
    let at_most_sl = if den > 0 {
        num * ppm <= -(sl * den)
    } else {
        num < 0
    };
    if at_most_sl {
        return Some(CloseReason::StopLoss);
    }
    if cfg.trailing_stop && num > 0 {
        let tr = cfg.trailing_stop_pct as i128;
        let hi = pos.highest_price as i128;
        let lo = pos.lowest_price as i128;
        proof {
            assert(0 <= p * ppm <= 0x1_0000_0000_0000_0000_0000_0000_0000) by (nonlinear_arith)
                requires
                    0 <= p <= 0x1_0000_0000_0000_0000,
                    ppm == 1_000_000,
            ;
            assert(-0x1_0000_0000_0000_0000_0000_0000_0000 <= hi * (ppm - tr) <= 0x1_0000_0000_0000_0000_0000_0000_0000)
                by (nonlinear_arith)
                requires
                    0 <= hi <= 0x1_0000_0000_0000_0000,
                    -0x8000_0000 <= tr <= 0x8000_0000,
                    ppm == 1_000_000,
            ;
            assert(-0x1_0000_0000_0000_0000_0000_0000_0000 <= lo * (ppm + tr) <= 0x1_0000_0000_0000_0000_0000_0000_0000)
                by (nonlinear_arith)
                requires
                    0 <= lo <= 0x1_0000_0000_0000_0000,
                    -0x8000_0000 <= tr <= 0x8000_0000,
                    ppm == 1_000_000,
            ;
        }
        let trailing_hit = match kind {
            SideKind::Long => p * ppm <= hi * (ppm - tr),
            SideKind::Short => p * ppm >= lo * (ppm + tr),
            SideKind::Other => false,
        };
        if trailing_hit {
            return Some(CloseReason::TrailingStop);
        }
    }
    None
}

/// The text the risk manager gives for a close reason.
pub open spec fn risk_reason_text(r: CloseReason) -> Seq<char> {
    match r {
        CloseReason::Timeout => "超时平仓"@,
        CloseReason::TakeProfit => "止盈"@,
        CloseReason::StopLoss => "止损"@,
        CloseReason::TrailingStop => "移动止损"@,
    }
}

pub fn risk_reason_string(r: CloseReason) -> (s: String)
    ensures
        s@ == risk_reason_text(r),
{
    match r {
        CloseReason::Timeout => "超时平仓".to_owned(),
        CloseReason::TakeProfit => "止盈".to_owned(),
        CloseReason::StopLoss => "止损".to_owned(),
        CloseReason::TrailingStop => "移动止损".to_owned(),
    }
}

/// The stop-loss and take-profit prices for an entry, rounded down: below
/// and above the entry for a long, above and below for a short, `(0, 0)`
/// for any other side.
pub open spec fn sl_tp_prices(cfg: RiskConfig, entry_price: int, kind: SideKind) -> (int, int) {
    let ppm = PPM as int;
    let sl = cfg.stop_loss_pct as int;
    let tp = cfg.take_profit_pct as int;
    match kind {
        SideKind::Long => ((entry_price * (ppm - sl)) / ppm, (entry_price * (ppm + tp)) / ppm),
        SideKind::Short => ((entry_price * (ppm + sl)) / ppm, (entry_price * (ppm - tp)) / ppm),
        SideKind::Other => (0, 0),
    }
}

/// The smallest order quantity: 0.001 of the base asset, in units.
pub const MIN_QTY: u64 = 100_000;

/// The quantity for `balance * share * leverage / price`, in units of the
/// base asset, rounded down; at least `MIN_QTY` and at most `u64::MAX`.
pub open spec fn position_size(balance: int, entry_price: int, leverage: int, share_ppm: int) -> int {
    let num = balance * share_ppm * leverage * 100;
    if num < 0 || num / entry_price < MIN_QTY as int {
        MIN_QTY as int
    } else if num / entry_price > u64::MAX as int {
        u64::MAX as int
    } else {
        num / entry_price
    }
}

proof fn lemma_price_times_factor(e: int, f: int)
    requires
        0 <= e <= 0x1_0000_0000_0000_0000,
        -0x8000_0000 - 1_000_000 <= f <= 0x8000_0000 + 1_000_000,
    ensures
        -0x1_0000_0000_0000_0000_0000_0000_0000 < e * f < 0x1_0000_0000_0000_0000_0000_0000_0000,
{
    assert(-0x1_0000_0000_0000_0000_0000_0000_0000 < e * f < 0x1_0000_0000_0000_0000_0000_0000_0000)
        by (nonlinear_arith)
        requires
            0 <= e <= 0x1_0000_0000_0000_0000,
            -0x8000_0000 - 1_000_000 <= f <= 0x8000_0000 + 1_000_000,
    ;
}

/// The exit check at `price` and time `now` (seconds) of a position
/// `position`: without one nothing changes and nothing closes; with one the
/// price is recorded in its highest and lowest prices (`position2`) and the
/// result says whether to close and why, by `exit_reason`.
pub open spec fn stop_check(
    cfg: RiskConfig,
    position: Option<Position>,
    price: u64,
    now: int,
    position2: Option<Position>,
    r: (bool, Option<String>),
) -> bool {
    match position {
        None => !r.0 && r.1 is None && position2 is None,
        Some(p) => {
            let q = Position {
                highest_price: max_u64(p.highest_price, price),
                lowest_price: min_u64(p.lowest_price, price),
                ..p
            };
            let reason = exit_reason(cfg, q, price, now - p.entry_time as int, false);
            &&& position2 == Some(q)
            &&& r.0 == reason is Some
            &&& (reason is None ==> r.1 is None)
            &&& (reason matches Some(why) ==> (r.1 matches Some(s) && s@ == risk_reason_text(why)))
        },
    }
}

/// The risk manager.
pub struct RiskManager {
    config: RiskConfig,
    position: Option<Position>,
}

impl RiskManager {
    pub closed spec fn config_view(&self) -> RiskConfig {
        self.config
    }

    pub closed spec fn position_view(&self) -> Option<Position> {
        self.position
    }

    pub fn new(config: RiskConfig) -> (r: Self)
        ensures
            r.config_view() == config,
            r.position_view() == None::<Position>,
    {
        RiskManager { config, position: None }
    }

    /// Opens a position at `entry_time` (seconds since the Unix epoch).
    pub fn open_position(&mut self, entry_price: u64, quantity: u64, side: &str, entry_time: i64)
        ensures
            final(self).config_view() == old(self).config_view(),
            final(self).position_view() matches Some(p) && p.entry_price == entry_price
                && p.quantity == quantity && p.side@ == side@ && p.entry_time == entry_time
                && p.highest_price == entry_price && p.lowest_price == entry_price,
    {
        self.position = Some(Position::new(entry_price, quantity, side, entry_time));
    }

    /// Closes the position.
    pub fn close_position(&mut self)
        ensures
            final(self).config_view() == old(self).config_view(),
            final(self).position_view() == None::<Position>,
    {
        self.position = None;
    }

    pub fn has_position(&self) -> (r: bool)
        ensures
            r == self.position_view() is Some,
    {
        self.position.is_some()
    }

    pub fn get_position(&self) -> (r: Option<&Position>)
        ensures
            r == match self.position_view() {
                Some(p) => Some(&p),
                None => None::<&Position>,
            },
    {
        match &self.position {
            Some(p) => Some(p),
            None => None,
        }
    }

    /// The stop-loss and take-profit prices for an entry on `side`
    /// (`"LONG"`/`"BUY"` or `"SHORT"`/`"SELL"`; `(0, 0)` for anything else),
    /// in units, rounded down.
    pub fn calculate_sl_tp(&self, entry_price: u64, side: &str) -> (r: (i128, i128))
        ensures
            r.0 as int == sl_tp_prices(self.config_view(), entry_price as int, side_kind(side@)).0,
            r.1 as int == sl_tp_prices(self.config_view(), entry_price as int, side_kind(side@)).1,
    {
        let kind = classify_side(side, false);
        let e = entry_price as i128;
        let ppm: i128 = 1_000_000;
        let sl = self.config.stop_loss_pct as i128;
        let tp = self.config.take_profit_pct as i128;
        let f_lo_sl = ppm - sl;
        let f_hi_sl = ppm + sl;
        let f_lo_tp = ppm - tp;
        let f_hi_tp = ppm + tp;
        proof {
            lemma_price_times_factor(e as int, f_lo_sl as int);
            lemma_price_times_factor(e as int, f_hi_sl as int);
            lemma_price_times_factor(e as int, f_lo_tp as int);
            lemma_price_times_factor(e as int, f_hi_tp as int);
        }
        match kind {
            SideKind::Long => (floor_div(e * f_lo_sl, ppm), floor_div(e * f_hi_tp, ppm)),
            SideKind::Short => (floor_div(e * f_hi_sl, ppm), floor_div(e * f_lo_tp, ppm)),
            SideKind::Other => (0, 0),
        }
    }

    /// Checks the exit conditions at the current price at time `now`
    /// (seconds since the Unix epoch): first records the price in the highest
    /// and lowest prices seen, then decides by `exit_reason` (`stop_check`).
    pub fn check_stop_conditions(&mut self, current_price: u64, now: i64) -> (r: (bool, Option<String>))
        ensures
            final(self).config_view() == old(self).config_view(),
            stop_check(
                old(self).config_view(),
                old(self).position_view(),
                current_price,
                now as int,
                final(self).position_view(),
                r,
            ),
    {
        match &mut self.position {
            None => (false, None),
            Some(pos) => {
                pos.update_price(current_price);
                let held = now as i128 - pos.entry_time as i128;
                match decide_exit(&self.config, pos, current_price, held, false) {
                    Some(why) => (true, Some(risk_reason_string(why))),
                    None => (false, None),
                }
            },
        }
    }

    /// The order quantity for a balance (units), an entry price (units), a
    /// leverage and a share of the balance (ppm): `position_size`.
    pub fn calculate_position_size(&self, balance: i64, entry_price: u64, leverage: u32, position_size_pct: i32) -> (r: u64)
        requires
            entry_price > 0,
        ensures
            r as int == position_size(balance as int, entry_price as int, leverage as int, position_size_pct as int),
    {
        size_position(balance, entry_price, leverage, position_size_pct)
    }
}

/// `position_size`, computed without overflow.
pub fn size_position(balance: i64, entry_price: u64, leverage: u32, share_ppm: i32) -> (r: u64)
    requires
        entry_price > 0,
    ensures
        r as int == position_size(balance as int, entry_price as int, leverage as int, share_ppm as int),
{
    let ghost bi = balance as int;
    let ghost si = share_ppm as int;
    let ghost li = leverage as int;
    let ghost pi = entry_price as int;
    let ghost num = bi * si * li * 100;
    let negative = (balance < 0 && share_ppm > 0) || (balance > 0 && share_ppm < 0);
    let zero = balance == 0 || share_ppm == 0 || leverage == 0;
    if zero || negative {
        proof {
            if zero {
                assert(num == 0) by (nonlinear_arith)
                    requires
                        num == bi * si * li * 100,
                        bi == 0 || si == 0 || li == 0,
                ;
            } else {
                assert(num < 0) by (nonlinear_arith)
                    requires
                        num == bi * si * li * 100,
                        (bi < 0 && si > 0) || (bi > 0 && si < 0),
                        li > 0,
                ;
            }
            assert(num / pi <= 0) by (nonlinear_arith)
                requires
                    num <= 0,
                    pi > 0,
            ;
        }
        return MIN_QTY;
    }
    let mb: u128 = if balance < 0 {
        (-(balance as i128)) as u128
    } else {
        balance as u128
    };
    let ms: u128 = if share_ppm < 0 {
        (-(share_ppm as i128)) as u128
    } else {
        share_ppm as u128
    };
    proof {
        assert(mb as int * ms as int <= 0x8000_0000_0000_0000 * 0x8000_0000) by (nonlinear_arith)
            requires
                mb <= 0x8000_0000_0000_0000,
                ms <= 0x8000_0000,
        ;
        assert(mb as int * ms as int * leverage as int <= 0x8000_0000_0000_0000 * 0x8000_0000 * 0xffff_ffff)
            by (nonlinear_arith)
            requires
                mb * ms <= 0x8000_0000_0000_0000 * 0x8000_0000,
                leverage <= 0xffff_ffff,
        ;
        assert(num == mb as int * ms as int * leverage as int * 100) by (nonlinear_arith)
            requires
                num == bi * si * li * 100,
                mb as int == (if bi < 0 { -bi } else { bi }),
                ms as int == (if si < 0 { -si } else { si }),
                li == leverage as int,
                (bi > 0 && si > 0) || (bi < 0 && si < 0),
        ;
    }
    let a = mb * ms * (leverage as u128);
    match a.checked_mul(100) {
        None => {
            proof {
                assert(num / pi > u64::MAX as int) by (nonlinear_arith)
                    requires
                        num > u128::MAX as int,
                        0 < pi <= u64::MAX as int,
                {
                    assert(num >= pi * 0x1_0000_0000_0000_0001);
                }
            }
            u64::MAX
        },
        Some(c) => {
            let q = c / (entry_price as u128);
            if q < MIN_QTY as u128 {
                MIN_QTY
            } else if q > u64::MAX as u128 {
                u64::MAX
            } else {
                q as u64
            }
        },
    }
}

/// Updating the prices seen keeps the lowest price at or below, and the
/// highest price at or above, both the entry price and the latest price.
pub proof fn lemma_price_extremes(p: Position, price: u64)
    requires
        p.lowest_price <= p.entry_price <= p.highest_price,
    ensures
        min_u64(p.lowest_price, price) <= p.entry_price <= max_u64(p.highest_price, price),
        min_u64(p.lowest_price, price) <= price <= max_u64(p.highest_price, price),
{
}

/// A long position's stop loss lies at or below and its take profit at or
/// above the entry; a short position's the other way round (for
/// non-negative percentages).
pub proof fn lemma_sl_tp_sides(cfg: RiskConfig, entry_price: nat)
    requires
        0 <= cfg.stop_loss_pct <= 1_000_000,
        0 <= cfg.take_profit_pct,
    ensures
        sl_tp_prices(cfg, entry_price as int, SideKind::Long).0 <= entry_price <= sl_tp_prices(
            cfg,
            entry_price as int,
            SideKind::Long,
        ).1,
        sl_tp_prices(cfg, entry_price as int, SideKind::Short).1 <= entry_price <= sl_tp_prices(
            cfg,
            entry_price as int,
            SideKind::Short,
        ).0,
{
    let e = entry_price as int;
    let sl = cfg.stop_loss_pct as int;
    let tp = cfg.take_profit_pct as int;
    assert((e * (1_000_000 - sl)) / 1_000_000 <= e) by (nonlinear_arith)
        requires
            e >= 0,
            0 <= sl,
    ;
    assert((e * (1_000_000 + tp)) / 1_000_000 >= e) by (nonlinear_arith)
        requires
            e >= 0,
            0 <= tp,
    ;
    assert((e * (1_000_000 + sl)) / 1_000_000 >= e) by (nonlinear_arith)
        requires
            e >= 0,
            0 <= sl,
    ;
    assert((e * (1_000_000 - tp)) / 1_000_000 <= e) by (nonlinear_arith)
        requires
            e >= 0,
            0 <= tp,
    ;
}

/// The trailing stop only closes a position that is in profit.
pub proof fn lemma_trailing_stop_in_profit(cfg: RiskConfig, pos: Position, price: u64, held: int, strict: bool)
    ensures
        exit_reason(cfg, pos, price, held, strict) == Some(CloseReason::TrailingStop) ==> pnl_num(
            if strict { strict_side_kind(pos.side@) } else { side_kind(pos.side@) },
            pos.entry_price as int,
            price as int,
        ) > 0,
{
}

/// A position held past the maximum hold time is closed for the timeout,
/// whatever the price.
pub proof fn lemma_timeout_first(cfg: RiskConfig, pos: Position, price: u64, held: int, strict: bool)
    requires
        held > (cfg.max_hold_time_secs as i64) as int,
    ensures
        exit_reason(cfg, pos, price, held, strict) == Some(CloseReason::Timeout),
{
}

/// Within the hold time, a long position is closed with profit once the
/// price has risen by the take-profit share of the entry, and stopped out
/// once it has fallen by the stop-loss share (for a positive take-profit
/// share and a non-negative stop-loss share).
pub proof fn lemma_long_exits(cfg: RiskConfig, pos: Position, price: u64, held: int)
    requires
        pos.side@ == "LONG"@,
        pos.entry_price > 0,
        held <= (cfg.max_hold_time_secs as i64) as int,
        cfg.take_profit_pct > 0,
        cfg.stop_loss_pct >= 0,
    ensures
        price as int * 1_000_000 >= pos.entry_price as int * (1_000_000 + cfg.take_profit_pct as int)
            ==> exit_reason(cfg, pos, price, held, true) == Some(CloseReason::TakeProfit),
        price as int * 1_000_000 <= pos.entry_price as int * (1_000_000 - cfg.stop_loss_pct as int)
            ==> exit_reason(cfg, pos, price, held, true) == Some(CloseReason::StopLoss),
{
    let e = pos.entry_price as int;
    let p = price as int;
    let tp = cfg.take_profit_pct as int;
    let sl = cfg.stop_loss_pct as int;
    assert((p - e) * 1_000_000 >= tp * e <==> p * 1_000_000 >= e * (1_000_000 + tp)) by (nonlinear_arith);
    assert((p - e) * 1_000_000 <= (-sl) * e <==> p * 1_000_000 <= e * (1_000_000 - sl)) by (nonlinear_arith);
    if p * 1_000_000 <= e * (1_000_000 - sl) {
        assert((p - e) * 1_000_000 < tp * e) by (nonlinear_arith)
            requires
                (p - e) * 1_000_000 <= (-sl) * e,
                sl >= 0,
                tp > 0,
                e > 0,
        ;
    }
}

/// Within the hold time, a short position is closed with profit once the
/// price has fallen by the take-profit share of the entry, and stopped out
/// once it has risen by the stop-loss share.
pub proof fn lemma_short_exits(cfg: RiskConfig, pos: Position, price: u64, held: int)
    requires
        pos.side@ == "SHORT"@,
        pos.entry_price > 0,
        held <= (cfg.max_hold_time_secs as i64) as int,
        cfg.take_profit_pct > 0,
        cfg.stop_loss_pct >= 0,
    ensures
        price as int * 1_000_000 <= pos.entry_price as int * (1_000_000 - cfg.take_profit_pct as int)
            ==> exit_reason(cfg, pos, price, held, true) == Some(CloseReason::TakeProfit),
        price as int * 1_000_000 >= pos.entry_price as int * (1_000_000 + cfg.stop_loss_pct as int)
            ==> exit_reason(cfg, pos, price, held, true) == Some(CloseReason::StopLoss),
{
    let e = pos.entry_price as int;
    let p = price as int;
    let tp = cfg.take_profit_pct as int;
    let sl = cfg.stop_loss_pct as int;
    assert("SHORT"@ != "LONG"@) by {
        reveal_strlit("SHORT");
        reveal_strlit("LONG");
        assert("SHORT"@.len() != "LONG"@.len());
    }
    assert((e - p) * 1_000_000 >= tp * e <==> p * 1_000_000 <= e * (1_000_000 - tp)) by (nonlinear_arith);
    assert((e - p) * 1_000_000 <= (-sl) * e <==> p * 1_000_000 >= e * (1_000_000 + sl)) by (nonlinear_arith);
    if p * 1_000_000 >= e * (1_000_000 + sl) {
        assert((e - p) * 1_000_000 < tp * e) by (nonlinear_arith)
            requires
                (e - p) * 1_000_000 <= (-sl) * e,
                sl >= 0,
                tp > 0,
                e > 0,
        ;
    }
}

/// An order is never smaller than the minimum quantity of 0.001, and for a
/// positive balance, share and leverage it is the size the balance buys
/// (rounded down) whenever that is at least the minimum and fits.
pub proof fn lemma_position_size_floor(balance: int, entry_price: int, leverage: int, share_ppm: int)
    requires
        entry_price > 0,
    ensures
        position_size(balance, entry_price, leverage, share_ppm) >= MIN_QTY as int,
        ({
            let q = (balance * share_ppm * leverage * 100) / entry_price;
            balance > 0 && share_ppm > 0 && leverage > 0 && MIN_QTY as int <= q <= u64::MAX as int
                ==> position_size(balance, entry_price, leverage, share_ppm) == q
        }),
{
    let num = balance * share_ppm * leverage * 100;
    if balance > 0 && share_ppm > 0 && leverage > 0 {
        assert(num > 0) by (nonlinear_arith)
            requires
                num == balance * share_ppm * leverage * 100,
                balance > 0,
                share_ppm > 0,
                leverage > 0,
        ;
    }
}

proof fn lemma_side_words_differ()
    ensures
        "SHORT"@ != "LONG"@,
        "SHORT"@ != "BUY"@,
        "SELL"@ != "LONG"@,
        "SELL"@ != "BUY"@,
        "LONG"@ != "SHORT"@,
        "LONG"@ != "SELL"@,
        "BUY"@ != "SHORT"@,
        "BUY"@ != "SELL"@,
{
    reveal_strlit("SHORT");
    reveal_strlit("LONG");
    reveal_strlit("SELL");
    reveal_strlit("BUY");
    assert("SHORT"@.len() != "LONG"@.len());
    assert("SHORT"@.len() != "BUY"@.len());
    assert("SELL"@[0] != "LONG"@[0]);
    assert("SELL"@.len() != "BUY"@.len());
}

/// The trailing stop closes a position only in profit and only once the
/// price has come back by the trailing share from its best: a short
/// (`"SHORT"`, or `"SELL"` when not strict) only with the price below the
/// entry and at or above its lowest price times (1 + share); a long
/// (`"LONG"`, or `"BUY"` when not strict) only with the price above the
/// entry and at or below its highest price times (1 - share); any other
/// side never.  It also only fires with the trailing stop on and within the
/// hold time.
pub proof fn lemma_trailing_stop_trigger(cfg: RiskConfig, pos: Position, price: u64, held: int, strict: bool)
    requires
        exit_reason(cfg, pos, price, held, strict) == Some(CloseReason::TrailingStop),
    ensures
        cfg.trailing_stop,
        held <= (cfg.max_hold_time_secs as i64) as int,
        pos.side@ == "SHORT"@ || pos.side@ == "LONG"@ || (!strict && (pos.side@ == "SELL"@ || pos.side@
            == "BUY"@)),
        (pos.side@ == "SHORT"@ || (!strict && pos.side@ == "SELL"@)) ==> price < pos.entry_price
            && price as int * 1_000_000 >= pos.lowest_price as int * (1_000_000 + cfg.trailing_stop_pct as int),
        (pos.side@ == "LONG"@ || (!strict && pos.side@ == "BUY"@)) ==> price > pos.entry_price
            && price as int * 1_000_000 <= pos.highest_price as int * (1_000_000 - cfg.trailing_stop_pct as int),
{
    lemma_side_words_differ();
}

/// Within the hold time, a short in profit that has not reached the take
/// profit stays open while the price is below its lowest price times
/// (1 + trailing share): it has not rebounded enough for the trailing stop.
pub proof fn lemma_short_kept_below_trailing_trigger(
    cfg: RiskConfig,
    pos: Position,
    price: u64,
    held: int,
    strict: bool,
)
    requires
        pos.side@ == "SHORT"@,
        cfg.stop_loss_pct >= 0,
        held <= (cfg.max_hold_time_secs as i64) as int,
        price < pos.entry_price,
        (pos.entry_price - price) * 1_000_000 < cfg.take_profit_pct as int * pos.entry_price,
        price as int * 1_000_000 < pos.lowest_price as int * (1_000_000 + cfg.trailing_stop_pct as int),
    ensures
        exit_reason(cfg, pos, price, held, strict) is None,
{
    lemma_side_words_differ();
    let kind = if strict { strict_side_kind(pos.side@) } else { side_kind(pos.side@) };
    assert(kind == SideKind::Short);
    let num: int = pos.entry_price - price;
    let den: int = pos.entry_price as int;
    let sl = cfg.stop_loss_pct as int;
    assert(num * 1_000_000 > -sl * den) by (nonlinear_arith)
        requires
            num > 0,
            den > 0,
            sl >= 0,
    ;
}

/// Within the hold time, a long in profit that has not reached the take
/// profit stays open while the price is above its highest price times
/// (1 - trailing share).
pub proof fn lemma_long_kept_above_trailing_trigger(
    cfg: RiskConfig,
    pos: Position,
    price: u64,
    held: int,
    strict: bool,
)
    requires
        pos.side@ == "LONG"@,
        cfg.stop_loss_pct >= 0,
        held <= (cfg.max_hold_time_secs as i64) as int,
        0 < pos.entry_price < price,
        (price - pos.entry_price) * 1_000_000 < cfg.take_profit_pct as int * pos.entry_price,
        price as int * 1_000_000 > pos.highest_price as int * (1_000_000 - cfg.trailing_stop_pct as int),
    ensures
        exit_reason(cfg, pos, price, held, strict) is None,
{
    lemma_side_words_differ();
    let kind = if strict { strict_side_kind(pos.side@) } else { side_kind(pos.side@) };
    assert(kind == SideKind::Long);
    let num: int = price - pos.entry_price;
    let den: int = pos.entry_price as int;
    let sl = cfg.stop_loss_pct as int;
    assert(num * 1_000_000 > -sl * den) by (nonlinear_arith)
        requires
            num > 0,
            den > 0,
            sl >= 0,
    ;
}

} // verus!
