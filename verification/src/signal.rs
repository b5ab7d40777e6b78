//! The signal engine: trade signals from the order-book imbalance (OBI).
//!
//! `OBI = (bids_volume - asks_volume) / (bids_volume + asks_volume)`, held in
//! parts per million.  A long is signalled at an imbalance at or above the
//! bull threshold and a short at or below the bear threshold, when the price
//! difference is large enough and the time left lies inside the window.
use vstd::prelude::*;
use crate::config::SignalConfig;
use crate::decimal::PPM;

verus! {

/// A trade signal.
#[derive(Clone, Copy, PartialEq, Eq, Structural)]
pub enum TradeSignal {
    Long,
    Short,
    /// No trade.
    Neutral,
}

/// The signal engine.
pub struct SignalEngine {
    config: SignalConfig,
    last_obi: i64,
    decision_obi: Option<i64>,
}

/// Integer division rounded toward zero.
pub open spec fn div_toward_zero(n: int, d: int) -> int {
    if n >= 0 {
        n / d
    } else {
        -((-n) / d)
    }
}

/// The imbalance of two volumes in ppm, rounded toward zero, except that an
/// imbalance other than 0 but smaller than one ppm keeps its sign as +1 or
/// -1; 0 when the volumes are equal.
pub open spec fn obi_ppm(bids_vol: int, asks_vol: int) -> int {
    if bids_vol + asks_vol == 0 {
        0
    } else {
        let q = div_toward_zero((bids_vol - asks_vol) * (PPM as int), bids_vol + asks_vol);
        if q == 0 && bids_vol > asks_vol {
            1
        } else if q == 0 && bids_vol < asks_vol {
            -1
        } else {
            q
        }
    }
}

pub open spec fn abs(v: int) -> int {
    if v < 0 {
        -v
    } else {
        v
    }
}

/// The signal for an imbalance, a price difference and the time left.
pub open spec fn signal_for(cfg: SignalConfig, obi: int, price_diff: int, time_remaining: int) -> TradeSignal {
    let strong = abs(price_diff) >= cfg.diff_threshold;
    let in_window = cfg.time_min <= time_remaining && time_remaining <= cfg.time_max;
    if obi >= cfg.gold_bull_obi && strong && in_window {
        TradeSignal::Long
    } else if obi <= cfg.bear_no_obi && strong && in_window {
        TradeSignal::Short
    } else {
        TradeSignal::Neutral
    }
}

/// Whether a signal still holds at the current imbalance: a long needs a
/// non-negative and a short a non-positive imbalance; with the check off
/// everything passes.
pub open spec fn reversal_ok(cfg: SignalConfig, signal: TradeSignal, current_obi: int) -> bool {
    if !cfg.obi_reversal_check {
        true
    } else {
        match signal {
            TradeSignal::Long => current_obi >= 0,
            TradeSignal::Short => current_obi <= 0,
            TradeSignal::Neutral => true,
        }
    }
}

impl SignalEngine {
    pub closed spec fn config_view(&self) -> SignalConfig {
        self.config
    }

    pub closed spec fn last_obi_view(&self) -> i64 {
        self.last_obi
    }

    pub closed spec fn decision_obi_view(&self) -> Option<i64> {
        self.decision_obi
    }

    pub fn new(config: SignalConfig) -> (r: Self)
        ensures
            r.config_view() == config,
            r.last_obi_view() == 0,
            r.decision_obi_view() == None::<i64>,
    {
        SignalEngine { config, last_obi: 0, decision_obi: None }
    }

    /// The order-book imbalance in ppm (`obi_ppm`): rounded toward zero, an
    /// imbalance under one ppm keeping its sign.
    pub fn calculate_obi(bids_vol: u64, asks_vol: u64) -> (r: i64)
        ensures
            r as int == obi_ppm(bids_vol as int, asks_vol as int),
            -1_000_000 <= r <= 1_000_000,
    {
        let total = bids_vol as u128 + asks_vol as u128;
        if total == 0 {
            return 0;
        }
        if bids_vol >= asks_vol {
            let num = ((bids_vol - asks_vol) as u128) * 1_000_000;
            let q = num / total;
            proof {
                let n = (bids_vol - asks_vol) as int;
                let t = total as int;
                assert(q as int <= 1_000_000) by (nonlinear_arith)
                    requires
                        q as int == (n * 1_000_000) / t,
                        0 <= n <= t,
                        t > 0,
                {
                    assert(n * 1_000_000 <= t * 1_000_000);
                }
            }
            if q == 0 && bids_vol > asks_vol {
                1
            } else {
                q as i64
            }
        } else {
            let num = ((asks_vol - bids_vol) as u128) * 1_000_000;
            let q = num / total;
            proof {
                let n = (asks_vol - bids_vol) as int;
                let t = total as int;
                assert(q as int <= 1_000_000) by (nonlinear_arith)
                    requires
                        q as int == (n * 1_000_000) / t,
                        0 <= n <= t,
                        t > 0,
                {
                    assert(n * 1_000_000 <= t * 1_000_000);
                }
                assert(((bids_vol as int - asks_vol as int) * 1_000_000) == -(n * 1_000_000));
            }
            if q == 0 {
                -1
            } else {
                -(q as i64)
            }
        }
    }

    /// Generates the trade signal for an imbalance (ppm), a price difference
    /// (units) and the time left (milliseconds).  The imbalance is always
    /// recorded as the last one seen; a long or short signal also records it
    /// as the imbalance of the decision.
    pub fn generate_signal(&mut self, obi: i64, price_diff: i64, time_remaining: i64) -> (r: TradeSignal)
        ensures
            r == signal_for(old(self).config_view(), obi as int, price_diff as int, time_remaining as int),
            final(self).config_view() == old(self).config_view(),
            final(self).last_obi_view() == obi,
            final(self).decision_obi_view() == (if r != TradeSignal::Neutral {
                Some(obi)
            } else {
                old(self).decision_obi_view()
            }),
    {
        self.last_obi = obi;
        let abs_diff: i128 = if price_diff < 0 {
            -(price_diff as i128)
        } else {
            price_diff as i128
        };
        let strong = abs_diff >= self.config.diff_threshold as i128;
        let in_window = time_remaining >= self.config.time_min && time_remaining <= self.config.time_max;

        if obi >= self.config.gold_bull_obi && strong && in_window {
            self.decision_obi = Some(obi);
            return TradeSignal::Long;
        }
        if obi <= self.config.bear_no_obi && strong && in_window {
            self.decision_obi = Some(obi);
            return TradeSignal::Short;
        }
        TradeSignal::Neutral
    }

    /// Checks that the imbalance has not turned against the signal between
    /// decision and entry.
    pub fn check_obi_reversal(&self, signal: &TradeSignal, current_obi: i64) -> (r: bool)
        ensures
            r == reversal_ok(self.config_view(), *signal, current_obi as int),
    {
        if !self.config.obi_reversal_check {
            return true;
        }
        match signal {
            TradeSignal::Long => current_obi >= 0,
            TradeSignal::Short => current_obi <= 0,
            TradeSignal::Neutral => true,
        }
    }

    /// The imbalance recorded at the last decision.
    pub fn decision_obi(&self) -> (r: Option<i64>)
        ensures
            r == self.decision_obi_view(),
    {
        self.decision_obi
    }

    /// Forgets the imbalance of the last decision.
    pub fn reset(&mut self)
        ensures
            final(self).decision_obi_view() == None::<i64>,
            final(self).config_view() == old(self).config_view(),
            final(self).last_obi_view() == old(self).last_obi_view(),
    {
        self.decision_obi = None;
    }
}

/// The imbalance changes sign when the two volumes are swapped.
pub proof fn lemma_obi_antisymmetric(bids_vol: nat, asks_vol: nat)
    ensures
        obi_ppm(bids_vol as int, asks_vol as int) == -obi_ppm(asks_vol as int, bids_vol as int),
{
}

/// The imbalance is positive exactly when bids outweigh asks, negative
/// exactly when asks outweigh bids, 0 exactly when they are equal, and lies
/// between -1 and +1.
pub proof fn lemma_obi_sign(bids_vol: nat, asks_vol: nat)
    ensures
        obi_ppm(bids_vol as int, asks_vol as int) > 0 <==> bids_vol > asks_vol,
        obi_ppm(bids_vol as int, asks_vol as int) < 0 <==> bids_vol < asks_vol,
        obi_ppm(bids_vol as int, asks_vol as int) == 0 <==> bids_vol == asks_vol,
        -1_000_000 <= obi_ppm(bids_vol as int, asks_vol as int) <= 1_000_000,
{
    let t = bids_vol + asks_vol;
    if t > 0 {
        if bids_vol >= asks_vol {
            let n = (bids_vol - asks_vol) as int;
            assert(0 <= (n * 1_000_000) / (t as int) <= 1_000_000) by (nonlinear_arith)
                requires
                    0 <= n <= t,
                    t > 0,
            {
                assert(n * 1_000_000 <= t * 1_000_000);
            }
        } else {
            let n = (asks_vol - bids_vol) as int;
            assert(0 <= (n * 1_000_000) / (t as int) <= 1_000_000) by (nonlinear_arith)
                requires
                    0 <= n <= t,
                    t > 0,
            {
                assert(n * 1_000_000 <= t * 1_000_000);
            }
            assert((bids_vol as int - asks_vol as int) * 1_000_000 == -(n * 1_000_000));
        }
    }
}

/// A long is signalled at or above the bull threshold and a short at or
/// below the bear threshold (below the bull one), whenever the price
/// difference is large enough and the time lies inside the window; no
/// signal is given otherwise.
pub proof fn lemma_signal_conditions(cfg: SignalConfig, obi: int, price_diff: int, time_remaining: int)
    ensures
        ({
            let active = abs(price_diff) >= cfg.diff_threshold && cfg.time_min <= time_remaining <= cfg.time_max;
            &&& (active && obi >= cfg.gold_bull_obi ==> signal_for(cfg, obi, price_diff, time_remaining)
                == TradeSignal::Long)
            &&& (active && obi < cfg.gold_bull_obi && obi <= cfg.bear_no_obi ==> signal_for(
                cfg,
                obi,
                price_diff,
                time_remaining,
            ) == TradeSignal::Short)
        }),
        signal_for(cfg, obi, price_diff, time_remaining) == TradeSignal::Long ==> obi >= cfg.gold_bull_obi,
        signal_for(cfg, obi, price_diff, time_remaining) == TradeSignal::Short ==> obi <= cfg.bear_no_obi,
        signal_for(cfg, obi, price_diff, time_remaining) != TradeSignal::Neutral ==> abs(price_diff)
            >= cfg.diff_threshold && cfg.time_min <= time_remaining <= cfg.time_max,
{
}

/// With a non-negative bull threshold and a non-positive bear threshold (as
/// configured by default: +0.40 and -0.30), a signal never fails the
/// reversal check at the imbalance it was generated from.
pub proof fn lemma_signal_passes_own_reversal_check(
    cfg: SignalConfig,
    obi: int,
    price_diff: int,
    time_remaining: int,
)
    requires
        cfg.gold_bull_obi >= 0,
        cfg.bear_no_obi <= 0,
    ensures
        reversal_ok(cfg, signal_for(cfg, obi, price_diff, time_remaining), obi),
{
}

} // verus!
