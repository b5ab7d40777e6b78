//! Live trading: the decisions of the trading loop.
//!
//! The trader decides; the caller does the network work.  Each tick the
//! caller hands `step` the public book and the time and performs the action
//! it returns: closing asks for the close order of `close_request`, and on
//! success for `on_closed`; opening asks for the balance
//! (`balance_request`), the quantity of `order_quantity`, the market order
//! of `open_request`, and on success for `on_opened`, which gives the
//! stop-loss / take-profit orders and the record to store; the id the record
//! is stored under goes back through `record_saved`, and the close names it.
use vstd::prelude::*;
use crate::binance_rest::{
    opposite_side, param_texts, signed_texts, stop_order_texts, BinanceRestClient,
    SignedRequest,
};
use crate::binance_ws::OrderBook;
use crate::config::Config;
use crate::decimal::{fixed_text, floor_div, int_text, nat_text, UNITS};
use crate::dry_run::{clamp_i64, clamp_to_i64, mid_price, seconds_of, signal_diff, SIGNAL_TIME_MS};
use crate::report::TradeRecord;
use crate::risk::{
    classify_side, exit_reason, max_u64, min_u64, pnl_num, position_size, risk_reason_text,
    side_kind, sl_tp_prices, Position, RiskManager,
};
use crate::signal::{div_toward_zero, obi_ppm, reversal_ok, signal_for, SignalEngine, TradeSignal};

verus! {

/// The smallest balance an order is placed with: 10 USDT, in units.
pub const MIN_BALANCE: i64 = 1_000_000_000;

/// What the trading loop is to do after a tick.
pub enum TraderAction {
    /// Nothing this tick.
    Wait,
    /// Close the open position at `exit_price`.
    Close { exit_price: u64, reason: Option<String> },
    /// Open a position on `signal` at `entry_price`.
    Open { signal: TradeSignal, entry_price: u64 },
}

/// A closed trade.
pub struct ClosedTrade {
    pub side: String,
    pub exit_price: u64,
    /// In units.
    pub pnl: i64,
    /// Seconds.
    pub hold_time: i64,
    /// The id under which the record of the trade was stored (see
    /// `record_saved`), to update with the result; none when it was not.
    pub trade_id: Option<i64>,
}

/// An opened trade: the protective orders to place and the record to store.
pub struct OpenedTrade {
    pub stop_loss: i128,
    pub take_profit: i128,
    pub stop_orders: (SignedRequest, SignedRequest),
    pub record: TradeRecord,
}

/// The order side of a signal: `"BUY"` for a long and `"SELL"` for a short.
pub open spec fn order_side(signal: TradeSignal) -> Seq<char> {
    if signal == TradeSignal::Long {
        "BUY"@
    } else {
        "SELL"@
    }
}

/// The side handed to the close order of a position: `"BUY"` for a long
/// (`"LONG"` or `"BUY"`) and `"SELL"` for anything else.
pub open spec fn close_side_of(side: Seq<char>) -> Seq<char> {
    if side == "LONG"@ || side == "BUY"@ {
        "BUY"@
    } else {
        "SELL"@
    }
}

/// The profit of a trade in units: the price move in the trade's favour
/// times the quantity, rounded toward zero; 0 for an unknown side.
pub open spec fn trade_pnl(side: Seq<char>, entry_price: int, exit_price: int, quantity: int) -> int {
    div_toward_zero(pnl_num(side_kind(side), entry_price, exit_price) * quantity, UNITS as int)
}

/// What one tick does: `position`/`engine` before, `position2`/`engine2`
/// after, `r` the action returned.
pub open spec fn step_outcome(
    cfg: Config,
    position: Option<Position>,
    engine: SignalEngine,
    book: OrderBook,
    now_s: int,
    position2: Option<Position>,
    engine2: SignalEngine,
    r: TraderAction,
) -> bool {
    let price = mid_price(book.best_bid, book.best_ask);
    let obi = obi_ppm(book.bids_volume as int, book.asks_volume as int);
    match position {
        Some(p) => {
            let q = Position {
                highest_price: max_u64(p.highest_price, price),
                lowest_price: min_u64(p.lowest_price, price),
                ..p
            };
            let reason = exit_reason(cfg.risk, q, price, now_s - p.entry_time, false);
            &&& position2 == Some(q)
            &&& engine2 == engine
            &&& (reason is None ==> r is Wait)
            &&& (reason matches Some(why) ==> (r matches TraderAction::Close { exit_price, reason: Some(t) }
                && exit_price == price && t@ == risk_reason_text(why)))
        },
        None => {
            let signal = signal_for(cfg.signal, obi, signal_diff(obi), SIGNAL_TIME_MS as int);
            let enters = signal != TradeSignal::Neutral && reversal_ok(cfg.signal, signal, obi);
            &&& position2 is None
            &&& engine2.config_view() == engine.config_view()
            &&& engine2.last_obi_view() == obi
            &&& (enters ==> (r matches TraderAction::Open { signal: s, entry_price } && s == signal
                && entry_price == price))
            &&& (!enters ==> r is Wait)
        },
    }
}

/// What booking an entry gives: `position2` the position after, `r` the
/// result.
pub open spec fn opened_outcome(
    cfg: Config,
    client: BinanceRestClient,
    signal: TradeSignal,
    entry_price: u64,
    quantity: u64,
    book: OrderBook,
    now_ms: int,
    position2: Option<Position>,
    r: Option<OpenedTrade>,
) -> bool {
    let side = order_side(signal);
    let prices = sl_tp_prices(cfg.risk, entry_price as int, side_kind(side));
    let obi = obi_ppm(book.bids_volume as int, book.asks_volume as int);
    &&& position2 matches Some(p) && p.entry_price == entry_price && p.quantity == quantity && p.side@
        == side && p.entry_time == seconds_of(now_ms) && p.highest_price == entry_price
        && p.lowest_price == entry_price
    &&& r is Some
    &&& r.unwrap().stop_loss == prices.0
    &&& r.unwrap().take_profit == prices.1
    &&& r.unwrap().stop_orders.0.url@ == client.base_url_view() + "/fapi/v1/order"@
    &&& r.unwrap().stop_orders.1.url@ == client.base_url_view() + "/fapi/v1/order"@
    &&& param_texts(r.unwrap().stop_orders.0.params@) == signed_texts(
        client.secret_view(),
        stop_order_texts(cfg.trading.symbol@, opposite_side(side), "STOP_MARKET"@, prices.0, now_ms),
    )
    &&& param_texts(r.unwrap().stop_orders.1.params@) == signed_texts(
        client.secret_view(),
        stop_order_texts(cfg.trading.symbol@, opposite_side(side), "TAKE_PROFIT_MARKET"@, prices.1, now_ms),
    )
    &&& entry_record(r.unwrap().record, cfg.trading.symbol@, side, entry_price, quantity, obi, now_ms)
}

/// The record of an entry.
pub open spec fn entry_record(
    rec: TradeRecord,
    symbol: Seq<char>,
    side: Seq<char>,
    entry_price: u64,
    quantity: u64,
    obi: int,
    now_ms: int,
) -> bool {
    &&& rec.id == 0
    &&& rec.timestamp == now_ms
    &&& rec.symbol@ == symbol
    &&& rec.side@ == side
    &&& rec.entry_price == entry_price
    &&& rec.exit_price is None
    &&& rec.quantity == quantity
    &&& rec.pnl is None
    &&& rec.obi == obi
    &&& rec.diff == signal_diff(obi)
    &&& rec.hold_time is None
    &&& rec.reason@ == "signal_"@ + side
    &&& rec.status@ == "open"@
}

/// The live trader.
pub struct FuturesTrader {
    config: Config,
    signal_engine: SignalEngine,
    risk_manager: RiskManager,
    rest_client: BinanceRestClient,
    is_running: bool,
    record_id: Option<i64>,
}

impl FuturesTrader {
    pub closed spec fn config_view(&self) -> Config {
        self.config
    }

    pub closed spec fn engine_view(&self) -> SignalEngine {
        self.signal_engine
    }

    pub closed spec fn position_view(&self) -> Option<Position> {
        self.risk_manager.position_view()
    }

    pub closed spec fn running_view(&self) -> bool {
        self.is_running
    }

    pub closed spec fn client_view(&self) -> BinanceRestClient {
        self.rest_client
    }

    /// The id of the stored record of the open position, once known.
    pub closed spec fn record_id_view(&self) -> Option<i64> {
        self.record_id
    }

    /// The risk manager and the signal engine work with their parts of the
    /// configuration.
    pub open spec fn consistent(&self) -> bool {
        self.engine_view().config_view() == self.config_view().signal
    }

    pub closed spec fn risk_consistent(&self) -> bool {
        self.risk_manager.config_view() == self.config.risk
    }

    /// A trader for `config` whose orders are sent through `client`.
    pub fn new(config: Config, client: reqwest::Client) -> (r: Self)
        ensures
            r.client_view().http_view() == client,
            r.config_view() == config,
            r.consistent(),
            r.risk_consistent(),
            r.engine_view().decision_obi_view() == None::<i64>,
            r.position_view() == None::<Position>,
            r.record_id_view() == None::<i64>,
            !r.running_view(),
            r.client_view().secret_view() == config.binance.api_secret@,
            r.client_view().key_view() == config.binance.api_key@,
    {
        let signal_engine = SignalEngine::new(config.signal);
        let risk_manager = RiskManager::new(config.risk);
        let rest_client = BinanceRestClient::new(&config.binance, client);
        FuturesTrader { config, signal_engine, risk_manager, rest_client, is_running: false, record_id: None }
    }

    /// The REST client the orders are signed with.
    pub fn rest_client(&self) -> (r: &BinanceRestClient)
        ensures
            *r == self.client_view(),
    {
        &self.rest_client
    }

    /// The leverage setting sent at start-up: the configured symbol and
    /// leverage.
    pub fn leverage_request(&self, timestamp: i64) -> (r: SignedRequest)
        ensures
            r.url@ == self.client_view().base_url_view() + "/fapi/v1/leverage"@,
            param_texts(r.params@) == signed_texts(
                self.client_view().secret_view(),
                seq![
                    ("symbol"@, self.config_view().trading.symbol@),
                    ("leverage"@, nat_text(self.config_view().trading.leverage as nat)),
                    ("timestamp"@, int_text(timestamp as int)),
                ],
            ),
    {
        self.rest_client.leverage_request(self.config.trading.symbol.as_str(), self.config.trading.leverage, timestamp)
    }

    pub fn start(&mut self)
        ensures
            final(self).running_view(),
            final(self).config_view() == old(self).config_view(),
            final(self).engine_view() == old(self).engine_view(),
            final(self).position_view() == old(self).position_view(),
            final(self).client_view() == old(self).client_view(),
            final(self).risk_consistent() == old(self).risk_consistent(),
            final(self).record_id_view() == old(self).record_id_view(),
    {
        self.is_running = true;
    }

    pub fn stop(&mut self)
        ensures
            !final(self).running_view(),
            final(self).config_view() == old(self).config_view(),
            final(self).engine_view() == old(self).engine_view(),
            final(self).position_view() == old(self).position_view(),
            final(self).client_view() == old(self).client_view(),
            final(self).risk_consistent() == old(self).risk_consistent(),
            final(self).record_id_view() == old(self).record_id_view(),
    {
        self.is_running = false;
    }

    /// Notes the id under which the record of the open position was stored,
    /// so that its close updates that record.
    pub fn record_saved(&mut self, id: i64)
        ensures
            final(self).record_id_view() == Some(id),
            final(self).running_view() == old(self).running_view(),
            final(self).config_view() == old(self).config_view(),
            final(self).engine_view() == old(self).engine_view(),
            final(self).position_view() == old(self).position_view(),
            final(self).client_view() == old(self).client_view(),
            final(self).risk_consistent() == old(self).risk_consistent(),
    {
        self.record_id = Some(id);
    }

    pub fn is_running(&self) -> (r: bool)
        ensures
            r == self.running_view(),
    {
        self.is_running
    }

    pub fn has_position(&self) -> (r: bool)
        ensures
            r == self.position_view() is Some,
    {
        self.risk_manager.has_position()
    }

    /// One tick of the trading loop on the current public book (`now_s` in
    /// seconds since the Unix epoch).  With a position open, the mid price
    /// is recorded in its highest and lowest prices and the position is to be
    /// closed when `exit_reason` says so.  Without one, a signal is generated
    /// from the imbalance, a price difference of `OBI * 100` and 30 s left,
    /// and a position is to be opened at the mid price when the signal is
    /// long or short and passes the reversal check.
    pub fn step(&mut self, book: &OrderBook, now_s: i64) -> (r: TraderAction)
        requires
            old(self).risk_consistent(),
            old(self).consistent(),
        ensures
            final(self).config_view() == old(self).config_view(),
            final(self).client_view() == old(self).client_view(),
            final(self).running_view() == old(self).running_view(),
            final(self).risk_consistent(),
            final(self).consistent(),
            final(self).record_id_view() == old(self).record_id_view(),
            step_outcome(
                old(self).config_view(),
                old(self).position_view(),
                old(self).engine_view(),
                *book,
                now_s as int,
                final(self).position_view(),
                final(self).engine_view(),
                r,
            ),
    {
        let price = ((book.best_bid as u128 + book.best_ask as u128) / 2) as u64;
        if self.risk_manager.has_position() {
            let (should_close, reason) = self.risk_manager.check_stop_conditions(price, now_s);
            if should_close {
                return TraderAction::Close { exit_price: price, reason };
            }
            return TraderAction::Wait;
        }
        let obi = SignalEngine::calculate_obi(book.bids_volume, book.asks_volume);
        let diff = obi * 10_000;
        let signal = self.signal_engine.generate_signal(obi, diff, SIGNAL_TIME_MS);
        if signal != TradeSignal::Neutral && self.signal_engine.check_obi_reversal(&signal, obi) {
            return TraderAction::Open { signal, entry_price: price };
        }
        TraderAction::Wait
    }

    /// The order that closes the open position: a market order on the
    /// side opposite to `close_side_of` its side, for its whole quantity;
    /// `None` without a position.
    pub fn close_request(&self, timestamp: i64) -> (r: Option<SignedRequest>)
        ensures
            self.position_view() is None ==> r is None,
            self.position_view() matches Some(p) ==> (r matches Some(req) && req.url@
                == self.client_view().base_url_view() + "/fapi/v1/order"@ && param_texts(req.params@)
                == signed_texts(
                self.client_view().secret_view(),
                seq![
                    ("symbol"@, self.config_view().trading.symbol@),
                    ("side"@, opposite_side(close_side_of(p.side@))),
                    ("type"@, "MARKET"@),
                    ("quantity"@, fixed_text(p.quantity as int, 6, false)),
                    ("timestamp"@, int_text(timestamp as int)),
                ],
            )),
    {
        match self.risk_manager.get_position() {
            None => None,
            Some(pos) => {
                let close_side = if classify_side(pos.side.as_str(), false) == crate::risk::SideKind::Long {
                    "BUY"
                } else {
                    "SELL"
                };
                proof {
                    reveal_strlit("BUY");
                    reveal_strlit("SELL");
                    reveal_strlit("LONG");
                }
                Some(
                    self.rest_client.close_position_request(
                        self.config.trading.symbol.as_str(),
                        close_side,
                        pos.quantity,
                        timestamp,
                    ),
                )
            },
        }
    }

    /// Books the close of the open position at `exit_price` (`now_s` in
    /// seconds): the profit by `trade_pnl` (held within `i64`), the time
    /// held, and the position is gone.  The result goes to the record stored
    /// for the position (`record_saved`), when there is one.
    pub fn on_closed(&mut self, exit_price: u64, now_s: i64) -> (r: Option<ClosedTrade>)
        requires
            old(self).risk_consistent(),
        ensures
            final(self).config_view() == old(self).config_view(),
            final(self).engine_view() == old(self).engine_view(),
            final(self).client_view() == old(self).client_view(),
            final(self).running_view() == old(self).running_view(),
            final(self).risk_consistent(),
            final(self).position_view() is None,
            old(self).position_view() is None ==> r is None,
            old(self).position_view() matches Some(p) ==> (r matches Some(t) && t.side@ == p.side@
                && t.exit_price == exit_price && t.pnl == clamp_i64(
                trade_pnl(p.side@, p.entry_price as int, exit_price as int, p.quantity as int),
            ) && t.hold_time == clamp_i64(now_s - p.entry_time) && t.trade_id == old(
                self,
            ).record_id_view()),
            old(self).position_view() is None ==> final(self).record_id_view() == old(self).record_id_view(),
            old(self).position_view() is Some ==> final(self).record_id_view() is None,
    {
        let (side, entry_price, quantity, entry_time) = match self.risk_manager.get_position() {
            None => {
                return None;
            },
            Some(pos) => (pos.side.clone(), pos.entry_price, pos.quantity, pos.entry_time),
        };
        let pnl = clamp_to_i64(pnl_of(side.as_str(), entry_price, exit_price, quantity));
        let hold_time = clamp_to_i64(now_s as i128 - entry_time as i128);
        self.risk_manager.close_position();
        let trade_id = self.record_id;
        self.record_id = None;
        Some(ClosedTrade { side, exit_price, pnl, hold_time, trade_id })
    }

    /// The balance query sent before an entry.
    pub fn balance_request(&self, timestamp: i64) -> (r: SignedRequest)
        ensures
            r.url@ == self.client_view().base_url_view() + "/fapi/v2/balance"@,
            param_texts(r.params@) == signed_texts(
                self.client_view().secret_view(),
                seq![("timestamp"@, int_text(timestamp as int))],
            ),
    {
        self.rest_client.balance_request(timestamp)
    }

    /// The quantity to order with an available balance (units) at a price:
    /// none below 10 USDT or at a zero price, else `position_size` of the
    /// configured leverage and share.
    pub fn order_quantity(&self, balance: i64, entry_price: u64) -> (r: Option<u64>)
        ensures
            (balance < MIN_BALANCE || entry_price == 0) ==> r is None,
            !(balance < MIN_BALANCE || entry_price == 0) ==> r == Some(
                position_size(
                    balance as int,
                    entry_price as int,
                    self.config_view().trading.leverage as int,
                    self.config_view().trading.position_size_pct as int,
                ) as u64,
            ),
    {
        if balance < MIN_BALANCE || entry_price == 0 {
            return None;
        }
        Some(
            self.risk_manager.calculate_position_size(
                balance,
                entry_price,
                self.config.trading.leverage,
                self.config.trading.position_size_pct,
            ),
        )
    }

    /// The market order for a signal: `"BUY"` for a long and `"SELL"` for a
    /// short; none for a neutral signal.
    pub fn open_request(&self, signal: TradeSignal, quantity: u64, timestamp: i64) -> (r: Option<SignedRequest>)
        ensures
            signal == TradeSignal::Neutral ==> r is None,
            signal != TradeSignal::Neutral ==> (r matches Some(req) && req.url@
                == self.client_view().base_url_view() + "/fapi/v1/order"@ && param_texts(req.params@)
                == signed_texts(
                self.client_view().secret_view(),
                seq![
                    ("symbol"@, self.config_view().trading.symbol@),
                    ("side"@, order_side(signal)),
                    ("type"@, "MARKET"@),
                    ("quantity"@, fixed_text(quantity as int, 6, false)),
                    ("timestamp"@, int_text(timestamp as int)),
                ],
            )),
    {
        let side = match signal {
            TradeSignal::Long => "BUY",
            TradeSignal::Short => "SELL",
            TradeSignal::Neutral => {
                return None;
            },
        };
        Some(self.rest_client.open_position_request(self.config.trading.symbol.as_str(), side, quantity, timestamp))
    }

    /// Books an entry filled on `signal` at `entry_price` for `quantity`
    /// (`now_ms` in milliseconds): the stop-loss and take-profit prices of
    /// the risk manager and their orders, the position (entered now, in
    /// seconds), and the record to store, whose imbalance is that of the
    /// current book.  A neutral signal books nothing.
    pub fn on_opened(&mut self, signal: TradeSignal, entry_price: u64, quantity: u64, book: &OrderBook, now_ms: i64) -> (r:
        Option<OpenedTrade>)
        requires
            old(self).risk_consistent(),
        ensures
            final(self).config_view() == old(self).config_view(),
            final(self).engine_view() == old(self).engine_view(),
            final(self).client_view() == old(self).client_view(),
            final(self).running_view() == old(self).running_view(),
            final(self).risk_consistent(),
            signal == TradeSignal::Neutral ==> r is None && final(self).position_view() == old(
                self,
            ).position_view() && final(self).record_id_view() == old(self).record_id_view(),
            signal != TradeSignal::Neutral ==> final(self).record_id_view() is None,
            signal != TradeSignal::Neutral ==> opened_outcome(
                old(self).config_view(),
                old(self).client_view(),
                signal,
                entry_price,
                quantity,
                *book,
                now_ms as int,
                final(self).position_view(),
                r,
            ),
    {
        let side = match signal {
            TradeSignal::Long => "BUY",
            TradeSignal::Short => "SELL",
            TradeSignal::Neutral => {
                return None;
            },
        };
        let (stop_loss, take_profit) = self.risk_manager.calculate_sl_tp(entry_price, side);
        let stop_orders = self.rest_client.stop_loss_take_profit_requests(
            self.config.trading.symbol.as_str(),
            side,
            stop_loss,
            take_profit,
            now_ms,
        );
        let entry_time = floor_div(now_ms as i128, 1000) as i64;
        self.risk_manager.open_position(entry_price, quantity, side, entry_time);
        self.record_id = None;
        let obi = SignalEngine::calculate_obi(book.bids_volume, book.asks_volume);
        let mut reason = "signal_".to_owned();
        reason.append(side);
        let record = TradeRecord {
            id: 0,
            timestamp: now_ms,
            symbol: self.config.trading.symbol.clone(),
            side: side.to_owned(),
            entry_price,
            exit_price: None,
            quantity,
            pnl: None,
            obi,
            diff: obi * 10_000,
            hold_time: None,
            reason,
            status: "open".to_owned(),
        };
        Some(OpenedTrade { stop_loss, take_profit, stop_orders, record })
    }
}

/// `trade_pnl`, computed without overflow.
pub fn pnl_of(side: &str, entry_price: u64, exit_price: u64, quantity: u64) -> (r: i128)
    ensures
        r as int == trade_pnl(side@, entry_price as int, exit_price as int, quantity as int),
{
    let kind = classify_side(side, false);
    let diff: i128 = match kind {
        crate::risk::SideKind::Long => exit_price as i128 - entry_price as i128,
        crate::risk::SideKind::Short => entry_price as i128 - exit_price as i128,
        crate::risk::SideKind::Other => 0,
    };
    let mag: u128 = if diff < 0 {
        (-diff) as u128
    } else {
        diff as u128
    };
    proof {
        assert(mag as int * quantity as int <= 0xffff_ffff_ffff_ffff * 0xffff_ffff_ffff_ffff) by (nonlinear_arith)
            requires
                mag <= 0xffff_ffff_ffff_ffff,
                quantity <= 0xffff_ffff_ffff_ffff,
        ;
    }
    let q = (mag * quantity as u128) / (UNITS as u128);
    proof {
        assert(q as int <= 0xffff_ffff_ffff_ffff * 0xffff_ffff_ffff_ffff / 100_000_000);
        if diff < 0 {
            assert((diff as int) * (quantity as int) == -((mag as int) * (quantity as int))) by (nonlinear_arith)
                requires
                    mag as int == -(diff as int),
            ;
            assert((diff as int) * (quantity as int) <= 0) by (nonlinear_arith)
                requires
                    diff < 0,
                    quantity >= 0,
            ;
        } else {
            assert((diff as int) * (quantity as int) == (mag as int) * (quantity as int));
        }
    }
    if diff < 0 {
        -(q as i128)
    } else {
        q as i128
    }
}

/// At most one position: a tick with a position open never opens another
/// one, and a tick without one never closes anything.
pub proof fn lemma_one_position_at_a_time(
    cfg: Config,
    position: Option<Position>,
    engine: SignalEngine,
    book: OrderBook,
    now_s: int,
    position2: Option<Position>,
    engine2: SignalEngine,
    r: TraderAction,
)
    requires
        step_outcome(cfg, position, engine, book, now_s, position2, engine2, r),
    ensures
        position is Some ==> !(r is Open),
        position is None ==> !(r is Close),
{
}

/// The order that closes a long position sells and the one that closes a
/// short position buys.
pub proof fn lemma_close_order_side(side: Seq<char>)
    ensures
        (side == "LONG"@ || side == "BUY"@) ==> opposite_side(close_side_of(side)) == "SELL"@,
        !(side == "LONG"@ || side == "BUY"@) ==> opposite_side(close_side_of(side)) == "BUY"@,
{
    assert("BUY"@ != "SELL"@) by {
        reveal_strlit("BUY");
        reveal_strlit("SELL");
        assert("BUY"@.len() != "SELL"@.len());
    }
}

proof fn lemma_order_sides_differ()
    ensures
        "SHORT"@ != "LONG"@,
        "SHORT"@ != "BUY"@,
        "SELL"@ != "LONG"@,
        "SELL"@ != "BUY"@,
{
    reveal_strlit("SHORT");
    reveal_strlit("LONG");
    reveal_strlit("SELL");
    reveal_strlit("BUY");
    assert("SHORT"@.len() != "LONG"@.len());
    assert("SHORT"@.len() != "BUY"@.len());
    assert("SELL"@[0] != "LONG"@[0]);
    assert("SELL"@.len() != "BUY"@.len());
}

/// The profit of a long trade is the price move times the quantity, in
/// units (10^-8), rounded toward zero: it has the sign of the move, and
/// `m = (exit - entry) * quantity` lies within one unit of it.
pub proof fn lemma_long_trade_pnl(entry: int, exit: int, quantity: int)
    ensures
        ({
            let p = trade_pnl("LONG"@, entry, exit, quantity);
            let m = (exit - entry) * quantity;
            &&& m >= 0 ==> p >= 0 && p * 100_000_000 <= m < (p + 1) * 100_000_000
            &&& m < 0 ==> p <= 0 && (p - 1) * 100_000_000 < m <= p * 100_000_000
        }),
{
    reveal_strlit("LONG");
}

/// A trade's profit follows the price move in its favour: a long (`"LONG"`
/// or `"BUY"`) books what `lemma_long_trade_pnl` gives, a short (`"SHORT"`
/// or `"SELL"`) exactly the opposite (so a short closed above its entry
/// loses), and any other side nothing.
pub proof fn lemma_trade_pnl_sides(side: Seq<char>, entry: int, exit: int, quantity: int)
    ensures
        (side == "LONG"@ || side == "BUY"@) ==> trade_pnl(side, entry, exit, quantity) == trade_pnl(
            "LONG"@,
            entry,
            exit,
            quantity,
        ),
        (side == "SHORT"@ || side == "SELL"@) ==> trade_pnl(side, entry, exit, quantity) == -trade_pnl(
            "LONG"@,
            entry,
            exit,
            quantity,
        ),
        !(side == "LONG"@ || side == "BUY"@ || side == "SHORT"@ || side == "SELL"@) ==> trade_pnl(
            side,
            entry,
            exit,
            quantity,
        ) == 0,
{
    lemma_order_sides_differ();
    let m = (exit - entry) * quantity;
    assert((entry - exit) * quantity == -m) by (nonlinear_arith)
        requires
            m == (exit - entry) * quantity,
    ;
}

/// A short closed above its entry books a loss (none at all only while the
/// move times the quantity is under one unit); one closed below it, a gain.
pub proof fn lemma_short_trade_pnl_sign(side: Seq<char>, entry: int, exit: int, quantity: int)
    requires
        side == "SHORT"@ || side == "SELL"@,
        quantity >= 0,
    ensures
        exit >= entry ==> trade_pnl(side, entry, exit, quantity) <= 0,
        (exit - entry) * quantity >= 100_000_000 ==> trade_pnl(side, entry, exit, quantity) < 0,
        exit <= entry ==> trade_pnl(side, entry, exit, quantity) >= 0,
{
    lemma_trade_pnl_sides(side, entry, exit, quantity);
    lemma_long_trade_pnl(entry, exit, quantity);
    let m = (exit - entry) * quantity;
    if exit >= entry {
        assert(m >= 0) by (nonlinear_arith)
            requires
                m == (exit - entry) * quantity,
                exit >= entry,
                quantity >= 0,
        ;
    } else {
        assert(m <= 0) by (nonlinear_arith)
            requires
                m == (exit - entry) * quantity,
                exit < entry,
                quantity >= 0,
        ;
    }
}

} // verus!
