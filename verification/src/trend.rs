//! Multi-timeframe trend classification.
//!
//! From the last four-hour EMA value `z`, the last three one-hour EMA
//! values `x, y, z1`, and the last close `c`:
//! bullish iff `z < z1`, `z1 < c` and `x < y < z1`; bearish iff the
//! mirrored strict inequalities all hold; anything else is no trend.

use vstd::prelude::*;

use crate::candle::Candle;

verus! {

/// The direction of the market on the configured higher timeframes.
#[derive(Clone, Copy, Debug, PartialEq, Eq, Structural)]
pub enum Trend {
    Flat,
    Bullish,
    Bearish,
}

/// The bullish condition of the classification.
pub open spec fn bullish_cond(z: i64, x: i64, y: i64, z1: i64, c: i64) -> bool {
    z < z1 && z1 < c && x < y && y < z1
}

/// The bearish condition of the classification.
pub open spec fn bearish_cond(z: i64, x: i64, y: i64, z1: i64, c: i64) -> bool {
    z > z1 && z1 > c && x > y && y > z1
}

/// What the classification returns for the five inputs.
pub open spec fn classify_spec(z: i64, x: i64, y: i64, z1: i64, c: i64) -> Trend {
    if bullish_cond(z, x, y, z1, c) {
        Trend::Bullish
    } else if bearish_cond(z, x, y, z1, c) {
        Trend::Bearish
    } else {
        Trend::Flat
    }
}

/// Classify the trend from the five characteristic values: `z` the last
/// four-hour EMA, `x, y, z1` the trailing one-hour EMA values (oldest
/// first), `c` the last close.
pub fn classify_trend(z: i64, x: i64, y: i64, z1: i64, c: i64) -> (r: Trend)
    ensures
        r == classify_spec(z, x, y, z1, c),
        (r == Trend::Bullish) == bullish_cond(z, x, y, z1, c),
        (r == Trend::Bearish) == bearish_cond(z, x, y, z1, c),
{
    if z < z1 && z1 < c && x < y && y < z1 {
        Trend::Bullish
    } else if z > z1 && z1 > c && x > y && y > z1 {
        Trend::Bearish
    } else {
        Trend::Flat
    }
}

/// What `check_trend` returns for the two EMA series and the candle log:
/// no trend unless the four-hour EMA has a value, the one-hour EMA has at
/// least three, and a candle exists; else the classification of the
/// characteristic values.
pub open spec fn check_trend_spec(ema_4h: Seq<i64>, ema_1h: Seq<i64>, candles: Seq<Candle>) -> Trend {
    if ema_4h.len() == 0 || ema_1h.len() < 3 || candles.len() == 0 {
        Trend::Flat
    } else {
        classify_spec(
            ema_4h.last(),
            ema_1h[ema_1h.len() - 3],
            ema_1h[ema_1h.len() - 2],
            ema_1h.last(),
            candles.last().close,
        )
    }
}

/// Classify the multi-timeframe trend. `ema_4h` is the EMA series over
/// the four-hour aggregation of the log, `ema_1h` the EMA series over the
/// one-hour aggregation; both are computed by the caller's numeric
/// indicator library over the closes and may be shorter than the
/// aggregations when the indicator has not warmed up.
pub fn check_trend(ema_4h: &Vec<i64>, ema_1h: &Vec<i64>, candles: &Vec<Candle>) -> (r: Trend)
    ensures
        r == check_trend_spec(ema_4h@, ema_1h@, candles@),
{
    if ema_4h.len() == 0 || ema_1h.len() < 3 || candles.len() == 0 {
        return Trend::Flat;
    }
    let z = ema_4h[ema_4h.len() - 1];
    let x = ema_1h[ema_1h.len() - 3];
    let y = ema_1h[ema_1h.len() - 2];
    let z1 = ema_1h[ema_1h.len() - 1];
    let c = candles[candles.len() - 1].close;
    classify_trend(z, x, y, z1, c)
}

/// The two strict trends exclude each other: no input classifies as both
/// bullish and bearish.
pub proof fn lemma_trend_exclusive(z: i64, x: i64, y: i64, z1: i64, c: i64)
    ensures
        !(bullish_cond(z, x, y, z1, c) && bearish_cond(z, x, y, z1, c)),
{
}

} // verus!
