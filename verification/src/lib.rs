//! Per-symbol equity analysis engine.
//!
//! The engine ingests a log of OHLCV candles and level-one ticks for a
//! symbol, reconstructs multi-timeframe aggregations, maintains a
//! column-oriented data frame of prices and indicator series, classifies
//! the multi-timeframe trend, searches for price/indicator divergences and
//! support/resistance rejections, and produces structured chart snapshots.
//!
//! Prices are fixed-point integers: one currency unit is `10_000` price
//! units, so comparisons, minima, maxima and sums are exact. Instants are
//! naive market wall-clock timestamps in seconds; calendar dates are day
//! numbers counted from the epoch. Indicator series (EMA, RSI, ATR) are
//! numeric-library primitives computed outside the engine and handed in as
//! ready-made columns; a missing value marks an indicator warm-up gap.

use vstd::prelude::*;

pub mod aggregate;
pub mod candle;
pub mod chart;
pub mod config;
pub mod controller;
pub mod dataframe;
pub mod dispatcher;
pub mod divergence;
pub mod levels;
pub mod market_hours;
pub mod provider;
pub mod smooth;
pub mod support_resistance;
pub mod trend;
pub mod volume;

