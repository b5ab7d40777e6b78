//! Trade records and the statistics computed from them.
use vstd::prelude::*;
use crate::decimal::{
    fixed_text, floor_div, format_int, format_units, int_text, pad_left, pad_left_text, pad_right,
    pad_right_text,
};

verus! {

/// One trade as it is stored.  Prices in units of 10^-8, quantity in units
/// of the base asset, imbalance in ppm, hold time in seconds, timestamp in
/// milliseconds since the Unix epoch.
pub struct TradeRecord {
    pub id: i64,
    pub timestamp: i64,
    pub symbol: String,
    pub side: String,
    pub entry_price: u64,
    pub exit_price: Option<u64>,
    pub quantity: u64,
    pub pnl: Option<i64>,
    pub obi: i64,
    pub diff: i64,
    pub hold_time: Option<i64>,
    pub reason: String,
    pub status: String,
}

impl Clone for TradeRecord {
    fn clone(&self) -> (r: Self)
        ensures
            r == *self,
    {
        TradeRecord {
            id: self.id,
            timestamp: self.timestamp,
            symbol: self.symbol.clone(),
            side: self.side.clone(),
            entry_price: self.entry_price,
            exit_price: self.exit_price,
            quantity: self.quantity,
            pnl: self.pnl,
            obi: self.obi,
            diff: self.diff,
            hold_time: self.hold_time,
            reason: self.reason.clone(),
            status: self.status.clone(),
        }
    }
}

/// Trade statistics.  Amounts in units of 10^-8; rates and ratios as
/// stated per field.
#[derive(Clone, Copy, PartialEq, Eq, Structural)]
pub struct TradeStats {
    pub total_trades: u32,
    pub wins: u32,
    pub losses: u32,
    pub total_pnl: i128,
    pub avg_pnl: i128,
    /// Milliseconds.
    pub avg_hold_time: i128,
    /// Percent scaled by 10^6.
    pub win_rate: i64,
    /// Gross profit over gross loss in ppm; `None` when there is no loss
    /// (an infinite factor).
    pub profit_factor: Option<i128>,
    pub max_drawdown: i128,
    /// The annualised Sharpe ratio in ppm; `None` when it cannot be formed
    /// within 128-bit arithmetic.
    pub sharpe_ratio: Option<i64>,
}

/// The profit of a closed record, 0 for an open one.
pub open spec fn pnl_or_zero(r: TradeRecord) -> int {
    match r.pnl {
        Some(p) => p as int,
        None => 0,
    }
}

/// The number of records with a profit above zero.
pub open spec fn count_wins(rs: Seq<TradeRecord>) -> int
    decreases rs.len(),
{
    if rs.len() == 0 {
        0
    } else {
        count_wins(rs.drop_last()) + if pnl_or_zero(rs.last()) > 0 { 1int } else { 0int }
    }
}

/// The sum of the profits.
pub open spec fn sum_pnl(rs: Seq<TradeRecord>) -> int
    decreases rs.len(),
{
    if rs.len() == 0 {
        0
    } else {
        sum_pnl(rs.drop_last()) + pnl_or_zero(rs.last())
    }
}

/// The sum of the positive profits.
pub open spec fn sum_profit(rs: Seq<TradeRecord>) -> int
    decreases rs.len(),
{
    if rs.len() == 0 {
        0
    } else {
        sum_profit(rs.drop_last()) + if pnl_or_zero(rs.last()) > 0 { pnl_or_zero(rs.last()) } else { 0int }
    }
}

/// The sum of the magnitudes of the negative profits.
pub open spec fn sum_loss(rs: Seq<TradeRecord>) -> int
    decreases rs.len(),
{
    if rs.len() == 0 {
        0
    } else {
        sum_loss(rs.drop_last()) + if pnl_or_zero(rs.last()) < 0 { -pnl_or_zero(rs.last()) } else { 0int }
    }
}

/// The number of records with a hold time.
pub open spec fn count_held(rs: Seq<TradeRecord>) -> int
    decreases rs.len(),
{
    if rs.len() == 0 {
        0
    } else {
        count_held(rs.drop_last()) + if rs.last().hold_time is Some { 1int } else { 0int }
    }
}

/// The sum of the hold times.
pub open spec fn sum_held(rs: Seq<TradeRecord>) -> int
    decreases rs.len(),
{
    if rs.len() == 0 {
        0
    } else {
        sum_held(rs.drop_last()) + match rs.last().hold_time {
            Some(h) => h as int,
            None => 0int,
        }
    }
}

/// The number of records with a profit (closed trades).
pub open spec fn count_closed(rs: Seq<TradeRecord>) -> int
    decreases rs.len(),
{
    if rs.len() == 0 {
        0
    } else {
        count_closed(rs.drop_last()) + if rs.last().pnl is Some { 1int } else { 0int }
    }
}

/// The sum of the squared profits.
pub open spec fn sum_sq_pnl(rs: Seq<TradeRecord>) -> int
    decreases rs.len(),
{
    if rs.len() == 0 {
        0
    } else {
        sum_sq_pnl(rs.drop_last()) + pnl_or_zero(rs.last()) * pnl_or_zero(rs.last())
    }
}

/// The running total of the profits.
pub open spec fn cumulative(rs: Seq<TradeRecord>) -> int {
    sum_pnl(rs)
}

/// The highest running total so far (starting from 0).
pub open spec fn peak(rs: Seq<TradeRecord>) -> int
    decreases rs.len(),
{
    if rs.len() == 0 {
        0
    } else {
        let p = peak(rs.drop_last());
        if cumulative(rs) > p { cumulative(rs) } else { p }
    }
}

/// The largest fall of the running total from its peak.
pub open spec fn max_drawdown(rs: Seq<TradeRecord>) -> int
    decreases rs.len(),
{
    if rs.len() == 0 {
        0
    } else {
        let m = max_drawdown(rs.drop_last());
        let d = peak(rs) - cumulative(rs);
        if d > m { d } else { m }
    }
}

/// `252 * 10^12`: the Sharpe ratio is annualised over 252 trading days and
/// given in ppm, so its square is scaled by this factor.
pub const SHARPE_K: u128 = 252_000_000_000_000;

/// The pieces the Sharpe ratio is formed from fit into 128 bits: the sum of
/// squares, the count times it, and the square of the sum.
pub open spec fn sharpe_fits(n: int, s: int, q: int) -> bool {
    &&& q <= u128::MAX as int
    &&& n * q <= u128::MAX as int
    &&& s * s <= u128::MAX as int
}

/// `m` is the Sharpe magnitude: the largest value (at most `i64::MAX`) whose
/// square times `n^2 * variance` stays within `SHARPE_K * sum^2`.
pub open spec fn sharpe_magnitude(m: int, s: int, b: int) -> bool {
    &&& 0 <= m <= i64::MAX as int
    &&& m * m * b <= (SHARPE_K as int) * s * s
    &&& (m == i64::MAX as int || (m + 1) * (m + 1) * b > (SHARPE_K as int) * s * s)
}

/// The product of two `u128` values as a high and a low half.
pub fn mul_wide(a: u128, b: u128) -> (r: (u128, u128))
    ensures
        r.0 as int * 0x1_0000_0000_0000_0000_0000_0000_0000_0000 + r.1 as int == a as int * b as int,
{
    let base: u128 = 0x1_0000_0000_0000_0000;
    let a1 = a / base;
    let a0 = a % base;
    let b1 = b / base;
    let b0 = b % base;
    proof {
        assert(a1 < base && b1 < base);
        assert(a0 as int * b0 as int <= (base as int - 1) * (base as int - 1)) by (nonlinear_arith)
            requires
                a0 < base,
                b0 < base,
        ;
        assert(a0 as int * b1 as int <= (base as int - 1) * (base as int - 1)) by (nonlinear_arith)
            requires
                a0 < base,
                b1 < base,
        ;
        assert(a1 as int * b0 as int <= (base as int - 1) * (base as int - 1)) by (nonlinear_arith)
            requires
                a1 < base,
                b0 < base,
        ;
        assert(a1 as int * b1 as int <= (base as int - 1) * (base as int - 1)) by (nonlinear_arith)
            requires
                a1 < base,
                b1 < base,
        ;
    }
    let p00 = a0 * b0;
    let p01 = a0 * b1;
    let p10 = a1 * b0;
    let p11 = a1 * b1;
    let mid = p00 / base + p01 % base + p10 % base;
    let lo = p00 % base + (mid % base) * base;
    let hi = p11 + p01 / base + p10 / base + mid / base;
    proof {
        let bb = 0x1_0000_0000_0000_0000int;
        assert(a as int == a1 as int * 0x1_0000_0000_0000_0000 + a0 as int);
        assert(b as int == b1 as int * 0x1_0000_0000_0000_0000 + b0 as int);
        assert(a as int * b as int == p11 as int * 0x1_0000_0000_0000_0000_0000_0000_0000_0000
            + (p01 as int + p10 as int) * 0x1_0000_0000_0000_0000 + p00 as int) by (nonlinear_arith)
            requires
                a as int == a1 as int * 0x1_0000_0000_0000_0000 + a0 as int,
                b as int == b1 as int * 0x1_0000_0000_0000_0000 + b0 as int,
                p00 as int == a0 as int * b0 as int,
                p01 as int == a0 as int * b1 as int,
                p10 as int == a1 as int * b0 as int,
                p11 as int == a1 as int * b1 as int,
        ;
        assert(p00 as int == (p00 as int / bb) * 0x1_0000_0000_0000_0000 + p00 as int % bb);
        assert(p01 as int == (p01 as int / bb) * 0x1_0000_0000_0000_0000 + p01 as int % bb);
        assert(p10 as int == (p10 as int / bb) * 0x1_0000_0000_0000_0000 + p10 as int % bb);
        assert(mid as int == (mid as int / bb) * 0x1_0000_0000_0000_0000 + mid as int % bb);
    }
    (hi, lo)
}

/// Whether `a * b <= c * d`.
pub fn product_le(a: u128, b: u128, c: u128, d: u128) -> (r: bool)
    ensures
        r == (a as int * b as int <= c as int * d as int),
{
    let (h1, l1) = mul_wide(a, b);
    let (h2, l2) = mul_wide(c, d);
    h1 < h2 || (h1 == h2 && l1 <= l2)
}

/// The Sharpe magnitude for a sum `s` (given as `s^2`) and `b = n^2 *
/// variance > 0`.
fn sharpe_search(s_sq: u128, b: u128) -> (m: u64)
    requires
        b > 0,
        SHARPE_K as int * s_sq as int <= u128::MAX as int * 0x1_0000_0000_0000_0000_0000_0000_0000_0000,
    ensures
        m <= i64::MAX,
        m as int * m as int * b as int <= SHARPE_K as int * s_sq as int,
        m == i64::MAX || (m as int + 1) * (m as int + 1) * b as int > SHARPE_K as int * s_sq as int,
{
    let cap: u64 = 0x7fff_ffff_ffff_ffff;
    let cap_sq: u128 = 0x3fff_ffff_ffff_ffff_0000_0000_0000_0001;
    assert(cap_sq as int == cap as int * cap as int);
    if product_le(cap_sq, b, SHARPE_K, s_sq) {
        return cap;
    }
    assert(0int * 0int * b as int == 0) by (nonlinear_arith);
    assert(0 <= SHARPE_K as int * s_sq as int) by (nonlinear_arith);
    let mut lo: u64 = 0;
    let mut hi: u64 = cap;
    while hi - lo > 1
        invariant
            lo < hi <= 0x7fff_ffff_ffff_ffff,
            b > 0,
            lo as int * lo as int * b as int <= SHARPE_K as int * s_sq as int,
            hi as int * hi as int * b as int > SHARPE_K as int * s_sq as int,
        decreases hi - lo,
    {
        let mid = lo + (hi - lo) / 2;
        proof {
            assert(mid as int * mid as int <= 0x3fff_ffff_ffff_ffff_0000_0000_0000_0001) by (nonlinear_arith)
                requires
                    0 <= mid <= 0x7fff_ffff_ffff_ffff,
            ;
        }
        let mid_sq = (mid as u128) * (mid as u128);
        if product_le(mid_sq, b, SHARPE_K, s_sq) {
            lo = mid;
        } else {
            hi = mid;
        }
    }
    proof {
        assert(hi as int == lo as int + 1);
    }
    lo
}

proof fn lemma_prefix_step(rs: Seq<TradeRecord>, i: int)
    requires
        0 <= i < rs.len(),
    ensures
        rs.take(i + 1).drop_last() == rs.take(i),
        rs.take(i + 1).last() == rs[i],
{
    assert(rs.take(i + 1).drop_last() =~= rs.take(i));
}

/// The highest running total of the profits is at least 0 and at least the
/// current total, so the maximum drawdown is never negative.
pub proof fn lemma_peak_bounds(rs: Seq<TradeRecord>)
    ensures
        peak(rs) >= 0,
        peak(rs) >= cumulative(rs),
        max_drawdown(rs) >= 0,
    decreases rs.len(),
{
    if rs.len() > 0 {
        lemma_peak_bounds(rs.drop_last());
    }
}

/// Statistics of no trades: everything zero.
pub open spec fn zero_stats() -> TradeStats {
    TradeStats {
        total_trades: 0,
        wins: 0,
        losses: 0,
        total_pnl: 0,
        avg_pnl: 0,
        avg_hold_time: 0,
        win_rate: 0,
        profit_factor: Some(0i128),
        max_drawdown: 0,
        sharpe_ratio: Some(0i64),
    }
}

/// The Sharpe ratio `r` for `n` closed trades with profit sum `s` and sum of
/// squares `q`: 0 for fewer than two trades or no spread, `None` when its
/// pieces do not fit into 128 bits, else the signed magnitude.
pub open spec fn sharpe_ok(r: Option<i64>, n: int, s: int, q: int) -> bool {
    if n <= 1 {
        r == Some(0i64)
    } else if !sharpe_fits(n, s, q) {
        r is None
    } else if n * q - s * s <= 0 {
        r == Some(0i64)
    } else {
        &&& r is Some
        &&& (s >= 0 ==> r.unwrap() >= 0)
        &&& (s < 0 ==> r.unwrap() <= 0)
        &&& sharpe_magnitude(
            if r.unwrap() < 0 { -r.unwrap() } else { r.unwrap() as int },
            s,
            n * q - s * s,
        )
    }
}

/// The profit factor in ppm: gross profit over gross loss rounded down,
/// `None` when there is no loss.
pub open spec fn profit_factor_of(rs: Seq<TradeRecord>) -> Option<i128> {
    if sum_loss(rs) > 0 {
        Some(((sum_profit(rs) * 1_000_000) / sum_loss(rs)) as i128)
    } else {
        None
    }
}

/// The average hold time in milliseconds over the records that have one
/// (rounded down), 0 when none has.
pub open spec fn avg_hold_ms(rs: Seq<TradeRecord>) -> int {
    if count_held(rs) > 0 {
        (sum_held(rs) * 1000) / count_held(rs)
    } else {
        0
    }
}

/// `r` is the statistics of the non-empty list `rs`.
pub open spec fn stats_of(rs: Seq<TradeRecord>, r: TradeStats) -> bool {
    let n = rs.len() as int;
    &&& r.total_trades as int == n
    &&& r.wins as int == count_wins(rs)
    &&& r.losses as int == n - count_wins(rs)
    &&& r.total_pnl as int == sum_pnl(rs)
    &&& r.avg_pnl as int == sum_pnl(rs) / n
    &&& r.avg_hold_time as int == avg_hold_ms(rs)
    &&& r.win_rate as int == (count_wins(rs) * 100_000_000) / n
    &&& r.profit_factor == profit_factor_of(rs)
    &&& r.max_drawdown as int == max_drawdown(rs)
    &&& sharpe_ok(r.sharpe_ratio, count_closed(rs), sum_pnl(rs), sum_sq_pnl(rs))
}

impl TradeStats {
    /// Statistics of no trades: everything zero.
    pub fn new() -> (r: Self)
        ensures
            r == zero_stats(),
    {
        TradeStats {
            total_trades: 0,
            wins: 0,
            losses: 0,
            total_pnl: 0,
            avg_pnl: 0,
            avg_hold_time: 0,
            win_rate: 0,
            profit_factor: Some(0),
            max_drawdown: 0,
            sharpe_ratio: Some(0),
        }
    }

    /// Statistics of a list of trades.  Every record counts as a trade; a
    /// profit above zero is a win and anything else a loss.  The average
    /// profit is over all trades and the average hold time over the records
    /// that have one (both rounded down); the win rate is in percent scaled
    /// by 10^6; the profit factor is gross profit over gross loss in ppm
    /// (`None` when there is no loss); the maximum drawdown is the largest
    /// fall of the running total of profits from its highest point (starting
    /// at 0).  The Sharpe ratio is `mean / std * sqrt(252)` over the closed
    /// trades, in ppm, rounded toward zero: 0 for fewer than two closed trades
    /// or no spread, and `None` when its pieces do not fit into 128 bits.
    pub fn from_records(records: &Vec<TradeRecord>) -> (r: Self)
        requires
            records@.len() <= u32::MAX,
        ensures
            records@.len() == 0 ==> r == zero_stats(),
            records@.len() > 0 ==> stats_of(records@, r),
    {
        let n = records.len();
        if n == 0 {
            return TradeStats::new();
        }
        let mut wins: u64 = 0;
        let mut sum: i128 = 0;
        let mut profit: i128 = 0;
        let mut loss: i128 = 0;
        let mut held_count: u64 = 0;
        let mut held_sum: i128 = 0;
        let mut closed: u64 = 0;
        let mut sq: u128 = 0;
        let mut sq_overflow = false;
        let mut top: i128 = 0;
        let mut drawdown: i128 = 0;
        let mut i: usize = 0;
        let ghost rs = records@;
        while i < n
            invariant
                n == rs.len(),
                rs == records@,
                n <= u32::MAX,
                i <= n,
                wins as int == count_wins(rs.take(i as int)),
                0 <= wins <= i,
                sum as int == sum_pnl(rs.take(i as int)),
                -(i as int) * 0x8000_0000_0000_0000 <= sum <= (i as int) * 0x8000_0000_0000_0000,
                profit as int == sum_profit(rs.take(i as int)),
                0 <= profit <= (i as int) * 0x8000_0000_0000_0000,
                loss as int == sum_loss(rs.take(i as int)),
                0 <= loss <= (i as int) * 0x8000_0000_0000_0000,
                held_count as int == count_held(rs.take(i as int)),
                0 <= held_count <= i,
                held_sum as int == sum_held(rs.take(i as int)),
                -(i as int) * 0x8000_0000_0000_0000 <= held_sum <= (i as int) * 0x8000_0000_0000_0000,
                closed as int == count_closed(rs.take(i as int)),
                0 <= closed <= i,
                !sq_overflow ==> sq as int == sum_sq_pnl(rs.take(i as int)),
                sq_overflow ==> sum_sq_pnl(rs.take(i as int)) > u128::MAX as int,
                sum_sq_pnl(rs.take(i as int)) >= 0,
                top as int == peak(rs.take(i as int)),
                0 <= top <= (i as int) * 0x8000_0000_0000_0000,
                drawdown as int == max_drawdown(rs.take(i as int)),
                0 <= drawdown <= (i as int) * 0x1_0000_0000_0000_0000,
            decreases n - i,
        {
            proof {
                lemma_prefix_step(rs, i as int);
                lemma_peak_bounds(rs.take(i as int));
                lemma_peak_bounds(rs.take(i + 1));
            }
            let rec = &records[i];
            let p: i64 = match rec.pnl {
                Some(v) => v,
                None => 0,
            };
            if p > 0 {
                wins = wins + 1;
                profit = profit + p as i128;
            }
            if p < 0 {
                loss = loss - p as i128;
            }
            sum = sum + p as i128;
            if rec.pnl.is_some() {
                closed = closed + 1;
            }
            match rec.hold_time {
                Some(h) => {
                    held_count = held_count + 1;
                    held_sum = held_sum + h as i128;
                },
                None => {},
            }
            let pp = (if p < 0 {
                -(p as i128)
            } else {
                p as i128
            }) as u128;
            proof {
                assert(pp as int * pp as int == p as int * p as int) by (nonlinear_arith)
                    requires
                        pp as int == (if p < 0 { -(p as int) } else { p as int }),
                ;
                assert(pp as int * pp as int <= 0x4000_0000_0000_0000_0000_0000_0000_0000) by (nonlinear_arith)
                    requires
                        pp <= 0x8000_0000_0000_0000,
                ;
            }
            let p_sq = pp * pp;
            if !sq_overflow {
                match sq.checked_add(p_sq) {
                    Some(v) => {
                        sq = v;
                    },
                    None => {
                        sq_overflow = true;
                    },
                }
            }
            if sum > top {
                top = sum;
            }
            let d = top - sum;
            if d > drawdown {
                drawdown = d;
            }
            i = i + 1;
        }
        proof {
            assert(rs.take(n as int) =~= rs);
        }
        let total_trades = n as u32;
        let wins32 = wins as u32;
        let avg_pnl = floor_div(sum, n as i128);
        let avg_hold_time = if held_count > 0 {
            floor_div(held_sum * 1000, held_count as i128)
        } else {
            0
        };
        proof {
            assert(wins as int * 100_000_000 / (n as int) <= 100_000_000) by (nonlinear_arith)
                requires
                    0 <= wins <= n,
                    n > 0,
            {
                assert(wins as int * 100_000_000 <= n as int * 100_000_000);
            }
        }
        let win_rate = ((wins as u128 * 100_000_000) / (n as u128)) as i64;
        let profit_factor = if loss > 0 {
            Some(floor_div(profit * 1_000_000, loss))
        } else {
            None
        };
        let sharpe = Self::sharpe_of(closed, sum, sq, sq_overflow, Ghost(sum_sq_pnl(rs)));
        TradeStats {
            total_trades,
            wins: wins32,
            losses: total_trades - wins32,
            total_pnl: sum,
            avg_pnl,
            avg_hold_time,
            win_rate,
            profit_factor,
            max_drawdown: drawdown,
            sharpe_ratio: sharpe,
        }
    }

    /// The Sharpe ratio from the closed-trade count, the profit sum and the
    /// sum of squares `q` (held in `sq` unless it went past 128 bits).
    fn sharpe_of(closed: u64, sum: i128, sq: u128, sq_overflow: bool, Ghost(q): Ghost<int>) -> (r:
        Option<i64>)
        requires
            closed <= u32::MAX,
            q >= 0,
            !sq_overflow ==> sq as int == q,
            sq_overflow ==> q > u128::MAX as int,
        ensures
            sharpe_ok(r, closed as int, sum as int, q),
    {
        if closed <= 1 {
            return Some(0);
        }
        if sq_overflow {
            return None;
        }
        let nq = match (closed as u128).checked_mul(sq) {
            Some(v) => v,
            None => {
                return None;
            },
        };
        let s_abs: u128 = if sum < 0 {
            ((-(sum + 1)) as u128) + 1
        } else {
            sum as u128
        };
        assert(s_abs as int * s_abs as int == sum as int * sum as int) by (nonlinear_arith)
            requires
                s_abs as int == (if sum < 0 { -(sum as int) } else { sum as int }),
        ;
        let s_sq = match s_abs.checked_mul(s_abs) {
            Some(v) => v,
            None => {
                return None;
            },
        };
        if nq <= s_sq {
            return Some(0);
        }
        let b = nq - s_sq;
        assert(SHARPE_K as int * s_sq as int <= u128::MAX as int
            * 0x1_0000_0000_0000_0000_0000_0000_0000_0000) by (nonlinear_arith)
            requires
                s_sq <= u128::MAX,
                SHARPE_K as int <= u128::MAX as int,
        ;
        let m = sharpe_search(s_sq, b);
        assert(sharpe_fits(closed as int, sum as int, q));
        assert(b as int == closed as int * q - sum as int * sum as int);
        let v: i64 = if sum < 0 {
            -(m as i64)
        } else {
            m as i64
        };
        assert((SHARPE_K as int) * sum as int * sum as int == SHARPE_K as int * s_sq as int)
            by (nonlinear_arith)
            requires
                s_sq as int == sum as int * sum as int,
        ;
        assert(sharpe_magnitude(if v < 0 { -v } else { v as int }, sum as int, b as int));
        Some(v)
    }
}

/// A ratio in ppm as `{:>8.2}` writes it; an infinite one (`None`) as
/// `inf`.
pub open spec fn ratio_text(v: Option<i128>) -> Seq<char> {
    match v {
        Some(x) => pad_left(fixed_text(x * 100, 2, false), 8, ' '),
        None => pad_left("inf"@, 8, ' '),
    }
}

/// The Sharpe ratio as `{:>8.2}` writes it; one that could not be formed
/// (`None`) as `n/a`.
pub open spec fn sharpe_text(v: Option<i64>) -> Seq<char> {
    match v {
        Some(x) => pad_left(fixed_text(x * 100, 2, false), 8, ' '),
        None => pad_left("n/a"@, 8, ' '),
    }
}

/// The lines of the statistics report.
pub open spec fn report_text(st: TradeStats) -> Seq<Seq<char>> {
    seq![
        ""@,
        "╔══════════════════════════════════════════════════════════════╗"@,
        "║                    📊 交易统计报告                            ║"@,
        "╠══════════════════════════════════════════════════════════════╣"@,
        "║  总交易数: "@ + pad_left(int_text(st.total_trades as int), 6, ' ')
            + "                                            ║"@,
        "║  胜: "@ + pad_left(int_text(st.wins as int), 6, ' ') + "  负: "@ + pad_left(
            int_text(st.losses as int),
            6,
            ' ',
        ) + "  胜率: "@ + pad_left(fixed_text(st.win_rate * 100, 1, false), 5, ' ')
            + "%                     ║"@,
        "╠──────────────────────────────────────────────────────────────╣"@,
        "║  总盈亏: "@ + pad_left(fixed_text(st.total_pnl as int, 2, false), 10, '+')
            + " USDT                                   ║"@,
        "║  平均盈亏: "@ + pad_left(fixed_text(st.avg_pnl as int, 4, false), 10, '+')
            + " USDT                                 ║"@,
        "║  平均持仓: "@ + pad_left(fixed_text(st.avg_hold_time * 100_000, 1, false), 8, ' ')
            + " 秒                                     ║"@,
        "╠──────────────────────────────────────────────────────────────╣"@,
        "║  盈亏比: "@ + ratio_text(st.profit_factor) + "                                          ║"@,
        "║  最大回撤: "@ + pad_left(fixed_text(st.max_drawdown as int, 2, false), 8, ' ')
            + " USDT                                   ║"@,
        "║  Sharpe比率: "@ + sharpe_text(st.sharpe_ratio) + "                                      ║"@,
        "╚══════════════════════════════════════════════════════════════╝"@,
    ]
}

/// The texts of a list of lines.
pub open spec fn line_texts(lines: Seq<String>) -> Seq<Seq<char>> {
    lines.map_values(|l: String| l@)
}

/// Appends a line.
fn push_line(lines: &mut Vec<String>, line: String)
    ensures
        line_texts(final(lines)@) == line_texts(old(lines)@).push(line@),
{
    lines.push(line);
    assert(line_texts(final(lines)@) =~= line_texts(old(lines)@).push(line@));
}

/// Joins three texts.
fn join3(a: &str, b: &str, c: &str) -> (r: String)
    ensures
        r@ == a@ + b@ + c@,
{
    let mut s = a.to_owned();
    s.append(b);
    s.append(c);
    s
}

impl TradeStats {
    /// The lines of the statistics report (`report_text`).
    pub fn report_lines(&self) -> (r: Vec<String>)
        requires
            -0x4000_0000_0000_0000_0000_0000_0000 <= self.avg_hold_time <= 0x4000_0000_0000_0000_0000_0000_0000,
            self.profit_factor matches Some(x) ==> -0x100_0000_0000_0000_0000_0000_0000_0000 <= x
                <= 0x100_0000_0000_0000_0000_0000_0000_0000,
        ensures
            line_texts(r@) == report_text(*self),
    {
        proof {
            reveal_strlit(" ");
            reveal_strlit("+");
        }
        let mut lines: Vec<String> = Vec::new();
        push_line(&mut lines, String::new());
        push_line(&mut lines, "╔══════════════════════════════════════════════════════════════╗".to_owned());
        push_line(&mut lines, "║                    📊 交易统计报告                            ║".to_owned());
        push_line(&mut lines, "╠══════════════════════════════════════════════════════════════╣".to_owned());
        let t = pad_left_text(format_int(self.total_trades as i128).as_str(), 6, " ");
        push_line(&mut lines, join3("║  总交易数: ", t.as_str(), "                                            ║"));
        let w = pad_left_text(format_int(self.wins as i128).as_str(), 6, " ");
        let l = pad_left_text(format_int(self.losses as i128).as_str(), 6, " ");
        let rate = pad_left_text(format_units(self.win_rate as i128 * 100, 1, false).as_str(), 5, " ");
        let mut line = join3("║  胜: ", w.as_str(), "  负: ");
        line.append(l.as_str());
        line.append("  胜率: ");
        line.append(rate.as_str());
        line.append("%                     ║");
        push_line(&mut lines, line);
        push_line(&mut lines, "╠──────────────────────────────────────────────────────────────╣".to_owned());
        let p = pad_left_text(format_units(self.total_pnl, 2, false).as_str(), 10, "+");
        push_line(&mut lines, join3("║  总盈亏: ", p.as_str(), " USDT                                   ║"));
        let a = pad_left_text(format_units(self.avg_pnl, 4, false).as_str(), 10, "+");
        push_line(&mut lines, join3("║  平均盈亏: ", a.as_str(), " USDT                                 ║"));
        let h = pad_left_text(format_units(self.avg_hold_time * 100_000, 1, false).as_str(), 8, " ");
        push_line(&mut lines, join3("║  平均持仓: ", h.as_str(), " 秒                                     ║"));
        push_line(&mut lines, "╠──────────────────────────────────────────────────────────────╣".to_owned());
        let pf = match self.profit_factor {
            Some(x) => pad_left_text(format_units(x * 100, 2, false).as_str(), 8, " "),
            None => pad_left_text("inf", 8, " "),
        };
        push_line(&mut lines, join3("║  盈亏比: ", pf.as_str(), "                                          ║"));
        let d = pad_left_text(format_units(self.max_drawdown, 2, false).as_str(), 8, " ");
        push_line(&mut lines, join3("║  最大回撤: ", d.as_str(), " USDT                                   ║"));
        let sh = match self.sharpe_ratio {
            Some(x) => pad_left_text(format_units(x as i128 * 100, 2, false).as_str(), 8, " "),
            None => pad_left_text("n/a", 8, " "),
        };
        push_line(&mut lines, join3("║  Sharpe比率: ", sh.as_str(), "                                      ║"));
        push_line(&mut lines, "╚══════════════════════════════════════════════════════════════╝".to_owned());
        proof {
            reveal_strlit("");
            let a = line_texts(lines@);
            let b = report_text(*self);
            assert(a[0] == b[0]);
            assert(a[4] == b[4]);
            assert(a[5] == b[5]);
            assert(a[7] == b[7]);
            assert(a[9] == b[9]);
            assert(a[11] == b[11]);
            assert(a[13] == b[13]);
        }
        assert(line_texts(lines@) =~= report_text(*self));
        lines
    }
}

/// The verdict on a win rate (percent scaled by 10^6).
pub open spec fn win_rate_verdict(w: int) -> Seq<char> {
    if w >= 90_000_000 {
        "  ✅ 胜率优秀 (>=90%)"@
    } else if w >= 80_000_000 {
        "  ✅ 胜率良好 (>=80%)"@
    } else if w >= 60_000_000 {
        "  ⚠️  胜率一般 (>=60%)"@
    } else {
        "  ❌ 胜率偏低 (<60%)"@
    }
}

/// The verdict on a profit factor (ppm); an infinite one is excellent.
pub open spec fn profit_factor_verdict(pf: Option<i128>) -> Seq<char> {
    let excellent = match pf {
        Some(x) => x >= 2_000_000,
        None => true,
    };
    if excellent {
        "  ✅ 盈亏比优秀 (>=2.0)"@
    } else if pf.unwrap() >= 1_500_000 {
        "  ✅ 盈亏比良好 (>=1.5)"@
    } else if pf.unwrap() >= 1_000_000 {
        "  ⚠️  盈亏比一般 (>=1.0)"@
    } else {
        "  ❌ 盈亏比亏损 (<1.0)"@
    }
}

/// The verdict on a Sharpe ratio (ppm); one that could not be formed passes
/// no threshold.
pub open spec fn sharpe_verdict(sr: Option<i64>) -> Seq<char> {
    match sr {
        Some(x) => if x >= 2_000_000 {
            "  ✅ Sharpe优秀 (>=2.0)"@
        } else if x >= 1_000_000 {
            "  ✅ Sharpe良好 (>=1.0)"@
        } else if x >= 0 {
            "  ⚠️  Sharpe一般 (>=0)"@
        } else {
            "  ❌ Sharpe负值 (<0)"@
        },
        None => "  ❌ Sharpe负值 (<0)"@,
    }
}

/// The lines of the strategy assessment that follows the report.
pub open spec fn assessment_text(st: TradeStats) -> Seq<Seq<char>> {
    seq![
        ""@,
        "📈 策略评估:"@,
        win_rate_verdict(st.win_rate as int),
        profit_factor_verdict(st.profit_factor),
        sharpe_verdict(st.sharpe_ratio),
        ""@,
    ]
}

impl TradeStats {
    /// The lines of the strategy assessment (`assessment_text`).
    pub fn assessment_lines(&self) -> (r: Vec<String>)
        ensures
            line_texts(r@) == assessment_text(*self),
    {
        let mut lines: Vec<String> = Vec::new();
        push_line(&mut lines, String::new());
        push_line(&mut lines, "📈 策略评估:".to_owned());
        let w = if self.win_rate >= 90_000_000 {
            "  ✅ 胜率优秀 (>=90%)"
        } else if self.win_rate >= 80_000_000 {
            "  ✅ 胜率良好 (>=80%)"
        } else if self.win_rate >= 60_000_000 {
            "  ⚠️  胜率一般 (>=60%)"
        } else {
            "  ❌ 胜率偏低 (<60%)"
        };
        push_line(&mut lines, w.to_owned());
        let pf = match self.profit_factor {
            None => "  ✅ 盈亏比优秀 (>=2.0)",
            Some(x) => if x >= 2_000_000 {
                "  ✅ 盈亏比优秀 (>=2.0)"
            } else if x >= 1_500_000 {
                "  ✅ 盈亏比良好 (>=1.5)"
            } else if x >= 1_000_000 {
                "  ⚠️  盈亏比一般 (>=1.0)"
            } else {
                "  ❌ 盈亏比亏损 (<1.0)"
            },
        };
        push_line(&mut lines, pf.to_owned());
        let sr = match self.sharpe_ratio {
            None => "  ❌ Sharpe负值 (<0)",
            Some(x) => if x >= 2_000_000 {
                "  ✅ Sharpe优秀 (>=2.0)"
            } else if x >= 1_000_000 {
                "  ✅ Sharpe良好 (>=1.0)"
            } else if x >= 0 {
                "  ⚠️  Sharpe一般 (>=0)"
            } else {
                "  ❌ Sharpe负值 (<0)"
            },
        };
        push_line(&mut lines, sr.to_owned());
        push_line(&mut lines, String::new());
        proof {
            reveal_strlit("");
            let a = line_texts(lines@);
            let b = assessment_text(*self);
            assert(a[0] == b[0]);
            assert(a[5] == b[5]);
        }
        assert(line_texts(lines@) =~= assessment_text(*self));
        lines
    }
}

/// The profit column of the trade list: the profit with two decimals and a
/// sign, or `开仓中` for an open trade.
pub open spec fn pnl_column(pnl: Option<i64>) -> Seq<char> {
    match pnl {
        Some(p) => fixed_text(p as int, 2, true),
        None => "开仓中"@,
    }
}

/// The line of one trade in the trade list.
pub open spec fn trade_line_text(t: TradeRecord) -> Seq<char> {
    "║  ID:"@ + int_text(t.id as int) + " "@ + pad_right(t.side@, 6) + " @ $"@ + fixed_text(
        t.entry_price as int,
        2,
        false,
    ) + "  PnL: "@ + pad_left(pnl_column(t.pnl), 10, ' ') + "  ["@ + (if t.pnl is Some {
        "已平仓"@
    } else {
        "持仓中"@
    }) + "]"@
}

/// The lines of the list of the latest trades (`limit` asked for).
pub open spec fn trade_list_text(trades: Seq<TradeRecord>, limit: int) -> Seq<Seq<char>> {
    trade_list_head(limit) + trades.map_values(|t: TradeRecord| trade_line_text(t)) + trade_list_tail()
}

/// The head of the trade list.
pub open spec fn trade_list_head(limit: int) -> Seq<Seq<char>> {
    seq![
        ""@,
        "╔══════════════════════════════════════════════════════════════════════════╗"@,
        "║  最近 "@ + int_text(limit) + " 笔交易                                                            ║"@,
        "╠══════════════════════════════════════════════════════════════════════════╣"@,
    ]
}

/// The foot of the trade list.
pub open spec fn trade_list_tail() -> Seq<Seq<char>> {
    seq!["╚══════════════════════════════════════════════════════════════════════════╝"@, ""@]
}

/// Writes the line of one trade (`trade_line_text`).
pub fn trade_line(t: &TradeRecord) -> (r: String)
    ensures
        r@ == trade_line_text(*t),
{
    proof {
        reveal_strlit(" ");
    }
    let mut s = "║  ID:".to_owned();
    s.append(format_int(t.id as i128).as_str());
    s.append(" ");
    s.append(pad_right_text(t.side.as_str(), 6).as_str());
    s.append(" @ $");
    s.append(format_units(t.entry_price as i128, 2, false).as_str());
    s.append("  PnL: ");
    let pnl = match t.pnl {
        Some(p) => format_units(p as i128, 2, true),
        None => "开仓中".to_owned(),
    };
    s.append(pad_left_text(pnl.as_str(), 10, " ").as_str());
    s.append("  [");
    if t.pnl.is_some() {
        s.append("已平仓");
    } else {
        s.append("持仓中");
    }
    s.append("]");
    s
}

/// Writes the list of the latest trades (`trade_list_text`).
pub fn trade_list_lines(trades: &Vec<TradeRecord>, limit: usize) -> (r: Vec<String>)
    ensures
        line_texts(r@) == trade_list_text(trades@, limit as int),
{
    let mut lines: Vec<String> = Vec::new();
    push_line(&mut lines, String::new());
    push_line(&mut lines, "╔══════════════════════════════════════════════════════════════════════════╗".to_owned());
    push_line(&mut lines, join3("║  最近 ", format_int(limit as i128).as_str(), " 笔交易                                                            ║"));
    push_line(&mut lines, "╠══════════════════════════════════════════════════════════════════════════╣".to_owned());
    proof {
        reveal_strlit("");
    }
    let ghost head = line_texts(lines@);
    assert(head[0] == trade_list_head(limit as int)[0]);
    assert(head =~= trade_list_head(limit as int));
    let n = trades.len();
    let mut i: usize = 0;
    while i < n
        invariant
            n == trades@.len(),
            i <= n,
            line_texts(lines@) == head + trades@.take(i as int).map_values(|t: TradeRecord| trade_line_text(t)),
        decreases n - i,
    {
        let line = trade_line(&trades[i]);
        push_line(&mut lines, line);
        i = i + 1;
        assert(trades@.take(i as int).map_values(|t: TradeRecord| trade_line_text(t)) =~= trades@.take(
            i - 1,
        ).map_values(|t: TradeRecord| trade_line_text(t)).push(trade_line_text(trades@[i - 1])));
    }
    push_line(&mut lines, "╚══════════════════════════════════════════════════════════════════════════╝".to_owned());
    push_line(&mut lines, String::new());
    proof {
        assert(trades@.take(n as int) =~= trades@);
        let tail = line_texts(lines@).subrange(4 + n as int, 6 + n as int);
        assert(tail[1] == trade_list_tail()[1]);
        assert(tail =~= trade_list_tail());
        assert(line_texts(lines@) =~= head + trades@.map_values(|t: TradeRecord| trade_line_text(t)) + tail);
    }
    assert(line_texts(lines@) =~= trade_list_text(trades@, limit as int));
    lines
}

/// In the statistics of a list of trades the wins and losses add up to the
/// trades, the profit factor is infinite exactly when no trade lost, and the
/// maximum drawdown is never negative.
pub proof fn lemma_stats_shape(rs: Seq<TradeRecord>, r: TradeStats)
    requires
        rs.len() > 0,
        stats_of(rs, r),
    ensures
        r.wins as int + r.losses as int == r.total_trades as int,
        (r.profit_factor is None) <==> sum_loss(rs) == 0,
        r.max_drawdown >= 0,
{
    lemma_sum_loss_nonneg(rs);
    lemma_peak_bounds(rs);
}

proof fn lemma_sum_loss_nonneg(rs: Seq<TradeRecord>)
    ensures
        sum_loss(rs) >= 0,
    decreases rs.len(),
{
    if rs.len() > 0 {
        lemma_sum_loss_nonneg(rs.drop_last());
    }
}

/// The sum of `f` over the records.
pub open spec fn sum_by(rs: Seq<TradeRecord>, f: spec_fn(TradeRecord) -> int) -> int
    decreases rs.len(),
{
    if rs.len() == 0 {
        0
    } else {
        sum_by(rs.drop_last(), f) + f(rs.last())
    }
}

/// 1 for a record with a profit above zero.
pub open spec fn win_weight() -> spec_fn(TradeRecord) -> int {
    |r: TradeRecord| if pnl_or_zero(r) > 0 { 1int } else { 0int }
}

/// The profit of a record.
pub open spec fn pnl_weight() -> spec_fn(TradeRecord) -> int {
    |r: TradeRecord| pnl_or_zero(r)
}

/// The profit of a record when it is above zero.
pub open spec fn profit_weight() -> spec_fn(TradeRecord) -> int {
    |r: TradeRecord| if pnl_or_zero(r) > 0 { pnl_or_zero(r) } else { 0int }
}

/// The magnitude of the profit of a record when it is below zero.
pub open spec fn loss_weight() -> spec_fn(TradeRecord) -> int {
    |r: TradeRecord| if pnl_or_zero(r) < 0 { -pnl_or_zero(r) } else { 0int }
}

/// 1 for a record with a hold time.
pub open spec fn held_weight() -> spec_fn(TradeRecord) -> int {
    |r: TradeRecord| if r.hold_time is Some { 1int } else { 0int }
}

/// The hold time of a record.
pub open spec fn hold_weight() -> spec_fn(TradeRecord) -> int {
    |r: TradeRecord| match r.hold_time {
        Some(h) => h as int,
        None => 0int,
    }
}

/// 1 for a closed record.
pub open spec fn closed_weight() -> spec_fn(TradeRecord) -> int {
    |r: TradeRecord| if r.pnl is Some { 1int } else { 0int }
}

/// The squared profit of a record.
pub open spec fn sq_weight() -> spec_fn(TradeRecord) -> int {
    |r: TradeRecord| pnl_or_zero(r) * pnl_or_zero(r)
}

/// Each per-record total used by the statistics is a `sum_by`.
proof fn lemma_totals_as_sums(rs: Seq<TradeRecord>)
    ensures
        count_wins(rs) == sum_by(rs, win_weight()),
        sum_pnl(rs) == sum_by(rs, pnl_weight()),
        sum_profit(rs) == sum_by(rs, profit_weight()),
        sum_loss(rs) == sum_by(rs, loss_weight()),
        count_held(rs) == sum_by(rs, held_weight()),
        sum_held(rs) == sum_by(rs, hold_weight()),
        count_closed(rs) == sum_by(rs, closed_weight()),
        sum_sq_pnl(rs) == sum_by(rs, sq_weight()),
    decreases rs.len(),
{
    if rs.len() > 0 {
        lemma_totals_as_sums(rs.drop_last());
    }
}

/// Taking one record out of the list takes its weight out of the sum.
proof fn lemma_sum_by_remove(rs: Seq<TradeRecord>, f: spec_fn(TradeRecord) -> int, k: int)
    requires
        0 <= k < rs.len(),
    ensures
        sum_by(rs, f) == sum_by(rs.remove(k), f) + f(rs[k]),
    decreases rs.len(),
{
    if k == rs.len() - 1 {
        assert(rs.remove(k) =~= rs.drop_last());
    } else {
        lemma_sum_by_remove(rs.drop_last(), f, k);
        assert(rs.drop_last().remove(k) =~= rs.remove(k).drop_last());
        assert(rs.remove(k).last() == rs.last());
    }
}

/// A sum over the records does not depend on their order.
pub proof fn lemma_sum_by_order_free(
    rs1: Seq<TradeRecord>,
    rs2: Seq<TradeRecord>,
    f: spec_fn(TradeRecord) -> int,
)
    requires
        rs1.to_multiset() == rs2.to_multiset(),
    ensures
        sum_by(rs1, f) == sum_by(rs2, f),
    decreases rs1.len(),
{
    broadcast use vstd::seq_lib::group_to_multiset_ensures;

    if rs1.len() == 0 {
        assert(rs2.to_multiset().len() == 0);
    } else {
        let n = rs1.len() - 1;
        let x = rs1[n];
        assert(rs1.contains(x));
        assert(rs1.to_multiset().count(x) > 0);
        assert(rs2.contains(x));
        let k = choose|k: int| 0 <= k < rs2.len() && rs2[k] == x;
        assert(rs1.remove(n) =~= rs1.drop_last());
        assert(rs1.remove(n).to_multiset() == rs1.to_multiset().remove(x));
        assert(rs2.remove(k).to_multiset() == rs2.to_multiset().remove(x));
        lemma_sum_by_order_free(rs1.drop_last(), rs2.remove(k), f);
        lemma_sum_by_remove(rs2, f, k);
    }
}

proof fn lemma_sharpe_magnitude_unique(m1: int, m2: int, s: int, b: int)
    requires
        b > 0,
        sharpe_magnitude(m1, s, b),
        sharpe_magnitude(m2, s, b),
    ensures
        m1 == m2,
{
    if m1 < m2 {
        assert((m1 + 1) * (m1 + 1) * b <= m2 * m2 * b) by (nonlinear_arith)
            requires
                0 <= m1 + 1 <= m2,
                b > 0,
        ;
    } else if m2 < m1 {
        assert((m2 + 1) * (m2 + 1) * b <= m1 * m1 * b) by (nonlinear_arith)
            requires
                0 <= m2 + 1 <= m1,
                b > 0,
        ;
    }
}

/// The Sharpe ratio is fixed by the count, the sum and the sum of squares.
proof fn lemma_sharpe_unique(r1: Option<i64>, r2: Option<i64>, n: int, s: int, q: int)
    requires
        sharpe_ok(r1, n, s, q),
        sharpe_ok(r2, n, s, q),
    ensures
        r1 == r2,
{
    if n > 1 && sharpe_fits(n, s, q) && n * q - s * s > 0 {
        let v1 = r1.unwrap();
        let v2 = r2.unwrap();
        let m1: int = if v1 < 0 { -v1 } else { v1 as int };
        let m2: int = if v2 < 0 { -v2 } else { v2 as int };
        lemma_sharpe_magnitude_unique(m1, m2, s, n * q - s * s);
    }
}

/// The statistics do not depend on the order of the trades: two lists that
/// hold the same records in any order give the same count, wins, losses,
/// total and average profit, average hold time, win rate, profit factor and
/// Sharpe ratio.  (The maximum drawdown follows the running total and so
/// the order.)
pub proof fn lemma_stats_order_free(
    rs1: Seq<TradeRecord>,
    rs2: Seq<TradeRecord>,
    r1: TradeStats,
    r2: TradeStats,
)
    requires
        rs1.len() > 0,
        rs1.to_multiset() == rs2.to_multiset(),
        stats_of(rs1, r1),
        stats_of(rs2, r2),
    ensures
        r1.total_trades == r2.total_trades,
        r1.wins == r2.wins,
        r1.losses == r2.losses,
        r1.total_pnl == r2.total_pnl,
        r1.avg_pnl == r2.avg_pnl,
        r1.avg_hold_time == r2.avg_hold_time,
        r1.win_rate == r2.win_rate,
        r1.profit_factor == r2.profit_factor,
        r1.sharpe_ratio == r2.sharpe_ratio,
{
    broadcast use vstd::seq_lib::to_multiset_len;

    assert(rs1.len() == rs1.to_multiset().len());
    assert(rs2.len() == rs2.to_multiset().len());
    lemma_totals_as_sums(rs1);
    lemma_totals_as_sums(rs2);
    lemma_sum_by_order_free(rs1, rs2, win_weight());
    lemma_sum_by_order_free(rs1, rs2, pnl_weight());
    lemma_sum_by_order_free(rs1, rs2, profit_weight());
    lemma_sum_by_order_free(rs1, rs2, loss_weight());
    lemma_sum_by_order_free(rs1, rs2, held_weight());
    lemma_sum_by_order_free(rs1, rs2, hold_weight());
    lemma_sum_by_order_free(rs1, rs2, closed_weight());
    lemma_sum_by_order_free(rs1, rs2, sq_weight());
    lemma_sharpe_unique(
        r1.sharpe_ratio,
        r2.sharpe_ratio,
        count_closed(rs1),
        sum_pnl(rs1),
        sum_sq_pnl(rs1),
    );
}

proof fn lemma_held_bounds(rs: Seq<TradeRecord>)
    ensures
        0 <= count_held(rs),
        -(count_held(rs) * 0x8000_0000_0000_0000) <= sum_held(rs) <= count_held(rs)
            * 0x8000_0000_0000_0000,
    decreases rs.len(),
{
    if rs.len() > 0 {
        lemma_held_bounds(rs.drop_last());
    }
}

proof fn lemma_profit_bounds(rs: Seq<TradeRecord>)
    ensures
        0 <= sum_profit(rs) <= rs.len() * 0x8000_0000_0000_0000,
    decreases rs.len(),
{
    if rs.len() > 0 {
        lemma_profit_bounds(rs.drop_last());
    }
}

proof fn lemma_quotient_bounds(x: int, c: int, m: int)
    requires
        c > 0,
        m >= 0,
        -(c * m) <= x <= c * m,
    ensures
        -m <= x / c <= m,
{
    assert(-m <= x / c <= m) by (nonlinear_arith)
        requires
            c > 0,
            m >= 0,
            -(c * m) <= x <= c * m,
    ;
}

/// The statistics of at most `u32::MAX` trades stay within the bounds that
/// `report_lines` asks for: the average hold time is at most `1000 * 2^63`
/// milliseconds in size and the profit factor at most `2^115`.
pub proof fn lemma_stats_printable(rs: Seq<TradeRecord>, r: TradeStats)
    requires
        0 < rs.len() <= u32::MAX,
        stats_of(rs, r),
    ensures
        -0x4000_0000_0000_0000_0000_0000_0000 <= r.avg_hold_time <= 0x4000_0000_0000_0000_0000_0000_0000,
        r.profit_factor matches Some(x) ==> -0x100_0000_0000_0000_0000_0000_0000_0000 <= x
            <= 0x100_0000_0000_0000_0000_0000_0000_0000,
{
    lemma_held_bounds(rs);
    lemma_profit_bounds(rs);
    let c = count_held(rs);
    if c > 0 {
        assert(-(c * (1000 * 0x8000_0000_0000_0000)) <= sum_held(rs) * 1000 <= c * (1000
            * 0x8000_0000_0000_0000)) by (nonlinear_arith)
            requires
                c > 0,
                -(c * 0x8000_0000_0000_0000) <= sum_held(rs) <= c * 0x8000_0000_0000_0000,
        ;
        lemma_quotient_bounds(sum_held(rs) * 1000, c, 1000int * 0x8000_0000_0000_0000);
    }
    let l = sum_loss(rs);
    if l > 0 {
        let n = rs.len() as int;
        let m: int = 0x8000_0000_0000_0000int * 1_000_000 * 0x1_0000_0000;
        assert(0 <= sum_profit(rs) * 1_000_000 <= l * m) by (nonlinear_arith)
            requires
                l >= 1,
                0 <= sum_profit(rs) <= n * 0x8000_0000_0000_0000,
                0 < n <= 0x1_0000_0000,
                m == 0x8000_0000_0000_0000 * 1_000_000 * 0x1_0000_0000,
        ;
        lemma_quotient_bounds(sum_profit(rs) * 1_000_000, l, m);
    }
}

/// The running total of the first `k` records.
pub open spec fn running_total(rs: Seq<TradeRecord>, k: int) -> int {
    sum_pnl(rs.take(k))
}

/// The peak is the highest running total over every prefix of the records
/// (the empty prefix, with total 0, included): it is at least each of them
/// and equal to one of them.
pub proof fn lemma_peak_is_highest_total(rs: Seq<TradeRecord>)
    ensures
        forall|k: int| 0 <= k <= rs.len() ==> peak(rs) >= #[trigger] running_total(rs, k),
        exists|k: int| 0 <= k <= rs.len() && peak(rs) == #[trigger] running_total(rs, k),
    decreases rs.len(),
{
    assert(rs.take(0) =~= Seq::<TradeRecord>::empty());
    assert(running_total(rs, 0) == 0);
    if rs.len() == 0 {
        assert(peak(rs) == running_total(rs, 0));
    } else {
        let n = rs.len() - 1;
        let front = rs.drop_last();
        lemma_peak_is_highest_total(front);
        lemma_peak_bounds(rs);
        assert(rs.take(n + 1) =~= rs);
        assert(running_total(rs, n + 1) == cumulative(rs));
        assert forall|k: int| 0 <= k <= rs.len() implies peak(rs) >= #[trigger] running_total(rs, k) by {
            if k <= n {
                assert(rs.take(k) =~= front.take(k));
                assert(running_total(rs, k) == running_total(front, k));
            }
        }
        let k0 = choose|k: int| 0 <= k <= front.len() && peak(front) == #[trigger] running_total(front, k);
        assert(rs.take(k0) =~= front.take(k0));
        assert(running_total(rs, k0) == running_total(front, k0));
        if cumulative(rs) > peak(front) {
            assert(peak(rs) == running_total(rs, n + 1));
        } else {
            assert(peak(rs) == running_total(rs, k0));
        }
    }
}

/// The maximum drawdown is the largest fall of the running total from an
/// earlier (or the same) running total: at least every such fall, and equal
/// to one of them.
pub proof fn lemma_max_drawdown_is_largest_fall(rs: Seq<TradeRecord>)
    ensures
        forall|i: int, j: int|
            0 <= i <= j <= rs.len() ==> max_drawdown(rs) >= #[trigger] running_total(rs, i) - #[trigger] running_total(
                rs,
                j,
            ),
        exists|i: int, j: int|
            0 <= i <= j <= rs.len() && max_drawdown(rs) == #[trigger] running_total(rs, i) - #[trigger] running_total(
                rs,
                j,
            ),
    decreases rs.len(),
{
    assert(rs.take(0) =~= Seq::<TradeRecord>::empty());
    assert(running_total(rs, 0) == 0);
    if rs.len() == 0 {
        assert(max_drawdown(rs) == running_total(rs, 0) - running_total(rs, 0));
    } else {
        let n = rs.len() - 1;
        let front = rs.drop_last();
        lemma_max_drawdown_is_largest_fall(front);
        lemma_peak_is_highest_total(rs);
        assert(rs.take(n + 1) =~= rs);
        assert(running_total(rs, n + 1) == cumulative(rs));
        assert forall|i: int, j: int| 0 <= i <= j <= rs.len() implies max_drawdown(rs) >= #[trigger] running_total(
            rs,
            i,
        ) - #[trigger] running_total(rs, j) by {
            if j <= n {
                assert(rs.take(i) =~= front.take(i));
                assert(rs.take(j) =~= front.take(j));
                assert(running_total(rs, i) == running_total(front, i));
                assert(running_total(rs, j) == running_total(front, j));
                assert(max_drawdown(front) >= running_total(front, i) - running_total(front, j));
            } else {
                assert(peak(rs) >= running_total(rs, i));
            }
        }
        let (i0, j0) = choose|i: int, j: int|
            0 <= i <= j <= front.len() && max_drawdown(front) == #[trigger] running_total(front, i)
                - #[trigger] running_total(front, j);
        assert(rs.take(i0) =~= front.take(i0));
        assert(rs.take(j0) =~= front.take(j0));
        assert(running_total(rs, i0) == running_total(front, i0));
        assert(running_total(rs, j0) == running_total(front, j0));
        let k = choose|k: int| 0 <= k <= rs.len() && peak(rs) == #[trigger] running_total(rs, k);
        let d = peak(rs) - cumulative(rs);
        if d > max_drawdown(front) {
            assert(max_drawdown(rs) == running_total(rs, k) - running_total(rs, n + 1));
        } else {
            assert(max_drawdown(rs) == running_total(rs, i0) - running_total(rs, j0));
        }
    }
}

} // verus!
