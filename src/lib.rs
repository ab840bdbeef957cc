//! Streaming kline aggregation and market-event detection for perpetual futures.
//!
//! Prices, volumes, funding rates and amplitudes are fixed-point integers with
//! eight decimal places (see [`decimal::SCALE`]).

pub mod aggregator;
pub mod config;
pub mod decimal;
pub mod detectors;
pub mod encode;
pub mod helper;
pub mod queue;
pub mod types;
pub mod worker;
