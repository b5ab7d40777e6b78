//! A futures trading assistant built on order-book imbalance: signals, risk
//! control, the order book, simulated and live trading decisions, the
//! exchange and notification requests, and trade statistics.
pub mod decimal;
pub mod binance_ws;
pub mod config;
pub mod signal;
pub mod risk;
pub mod report;
pub mod dry_run;
mod http;
pub mod binance_rest;
pub mod trader;
pub mod telegram;
