//! Configuration.  Amounts are in units of 10^-8 and ratios in parts per
//! million (see `decimal`); durations of the signal window are in
//! milliseconds.
use vstd::prelude::*;

verus! {

pub struct Config {
    pub binance: BinanceConfig,
    pub trading: TradingConfig,
    pub telegram: TelegramConfig,
    pub risk: RiskConfig,
    pub signal: SignalConfig,
    pub database: DatabaseConfig,
    pub logging: LoggingConfig,
}

pub struct TelegramConfig {
    pub enabled: bool,
    pub bot_token: String,
    pub chat_id: String,
}

pub struct BinanceConfig {
    pub api_key: String,
    pub api_secret: String,
    pub testnet: bool,
}

pub struct TradingConfig {
    pub symbol: String,
    pub leverage: u32,
    /// Share of the balance put into one position, in ppm.
    pub position_size_pct: i32,
    pub max_positions: u32,
    /// Simulated trading.
    pub dry_run: bool,
    /// Starting balance of the simulation, in units.
    pub initial_balance: i64,
}

#[derive(Clone, Copy)]
pub struct RiskConfig {
    /// In ppm of the entry price.
    pub stop_loss_pct: i32,
    /// In ppm of the entry price.
    pub take_profit_pct: i32,
    pub max_hold_time_secs: u64,
    pub trailing_stop: bool,
    /// In ppm of the best price seen.
    pub trailing_stop_pct: i32,
}

#[derive(Clone, Copy)]
pub struct SignalConfig {
    /// Imbalance (ppm) at or above which a long is signalled.
    pub gold_bull_obi: i64,
    /// Imbalance (ppm) at or below which a short is signalled.
    pub bear_no_obi: i64,
    /// Minimum absolute price difference, in units.
    pub diff_threshold: i64,
    /// Start of the time window, in milliseconds.
    pub time_min: i64,
    /// End of the time window, in milliseconds.
    pub time_max: i64,
    pub obi_reversal_check: bool,
}

pub struct DatabaseConfig {
    pub path: String,
}

pub struct LoggingConfig {
    pub level: String,
}

impl Clone for TelegramConfig {
    fn clone(&self) -> (r: Self)
        ensures
            r == *self,
    {
        TelegramConfig {
            enabled: self.enabled,
            bot_token: self.bot_token.clone(),
            chat_id: self.chat_id.clone(),
        }
    }
}

impl Clone for BinanceConfig {
    fn clone(&self) -> (r: Self)
        ensures
            r == *self,
    {
        BinanceConfig {
            api_key: self.api_key.clone(),
            api_secret: self.api_secret.clone(),
            testnet: self.testnet,
        }
    }
}

impl Clone for TradingConfig {
    fn clone(&self) -> (r: Self)
        ensures
            r == *self,
    {
        TradingConfig {
            symbol: self.symbol.clone(),
            leverage: self.leverage,
            position_size_pct: self.position_size_pct,
            max_positions: self.max_positions,
            dry_run: self.dry_run,
            initial_balance: self.initial_balance,
        }
    }
}

impl Clone for DatabaseConfig {
    fn clone(&self) -> (r: Self)
        ensures
            r == *self,
    {
        DatabaseConfig { path: self.path.clone() }
    }
}

impl Clone for LoggingConfig {
    fn clone(&self) -> (r: Self)
        ensures
            r == *self,
    {
        LoggingConfig { level: self.level.clone() }
    }
}

impl Clone for Config {
    fn clone(&self) -> (r: Self)
        ensures
            r == *self,
    {
        Config {
            binance: self.binance.clone(),
            trading: self.trading.clone(),
            telegram: self.telegram.clone(),
            risk: self.risk,
            signal: self.signal,
            database: self.database.clone(),
            logging: self.logging.clone(),
        }
    }
}

impl Config {
    /// The built-in configuration: BTCUSDT on the testnet with 10x leverage,
    /// 5% positions, a simulated balance of 1000, 2% stop loss, 1% take
    /// profit, 300 s holding limit, 0.5% trailing stop, and signals at an
    /// imbalance of +0.40 / -0.30 with a price difference of 30 inside a
    /// 10 s to 45 s window.
    pub fn default() -> (r: Self)
        ensures
            r.binance.api_key@ == Seq::<char>::empty(),
            r.binance.api_secret@ == Seq::<char>::empty(),
            r.binance.testnet,
            r.trading.symbol@ == "BTCUSDT"@,
            r.trading.leverage == 10,
            r.trading.position_size_pct == 50_000,
            r.trading.max_positions == 1,
            r.trading.dry_run,
            r.trading.initial_balance == 100_000_000_000,
            !r.telegram.enabled,
            r.telegram.bot_token@ == Seq::<char>::empty(),
            r.telegram.chat_id@ == Seq::<char>::empty(),
            r.risk.stop_loss_pct == 20_000,
            r.risk.take_profit_pct == 10_000,
            r.risk.max_hold_time_secs == 300,
            r.risk.trailing_stop,
            r.risk.trailing_stop_pct == 5_000,
            r.signal.gold_bull_obi == 400_000,
            r.signal.bear_no_obi == -300_000,
            r.signal.diff_threshold == 3_000_000_000,
            r.signal.time_min == 10_000,
            r.signal.time_max == 45_000,
            r.signal.obi_reversal_check,
            r.database.path@ == "./data/trades.db"@,
            r.logging.level@ == "info"@,
    {
        Config {
            binance: BinanceConfig { api_key: String::new(), api_secret: String::new(), testnet: true },
            trading: TradingConfig {
                symbol: "BTCUSDT".to_owned(),
                leverage: 10,
                position_size_pct: 50_000,
                max_positions: 1,
                dry_run: true,
                initial_balance: 100_000_000_000,
            },
            telegram: TelegramConfig { enabled: false, bot_token: String::new(), chat_id: String::new() },
            risk: RiskConfig {
                stop_loss_pct: 20_000,
                take_profit_pct: 10_000,
                max_hold_time_secs: 300,
                trailing_stop: true,
                trailing_stop_pct: 5_000,
            },
            signal: SignalConfig {
                gold_bull_obi: 400_000,
                bear_no_obi: -300_000,
                diff_threshold: 3_000_000_000,
                time_min: 10_000,
                time_max: 45_000,
                obi_reversal_check: true,
            },
            database: DatabaseConfig { path: "./data/trades.db".to_owned() },
            logging: LoggingConfig { level: "info".to_owned() },
        }
    }
}

} // verus!
