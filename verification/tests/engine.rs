//! Aggregation, smoothing, trend classification, volume analytics and
//! market-hours arithmetic, on concrete values. Prices are fixed-point:
//! ten thousand units per currency unit.

use options_maker::aggregate::aggregate;
use options_maker::candle::Candle;
use options_maker::market_hours::{find_mode, percentile, round_to_5min, MarketHours};
use options_maker::smooth::{gaussian_kernel_sigma_half, gaussian_kernel_sigma_one, gaussian_smooth};
use options_maker::trend::{check_trend, classify_trend, Trend};
use options_maker::config::parse_duration;
use options_maker::volume::{avg_vol_same_tod, normalized_volume};

const S: i64 = 10_000;

fn mk(t: i64, o: i64, h: i64, l: i64, c: i64, v: u64) -> Candle {
    Candle { open: o, low: l, high: h, close: c, volume: v, time: t, duration: 60 }
}

/// Five one-minute candles collapse into one five-minute bucket.
#[test]
fn five_minutes_into_one_bucket() {
    let t0: i64 = 19724 * 86_400 + 34_200; // 09:30 wall clock
    let candles = vec![
        mk(t0, 100 * S, 105 * S, 99 * S, 101 * S, 10),
        mk(t0 + 60, 101 * S, 106 * S, 100 * S, 102 * S, 20),
        mk(t0 + 120, 102 * S, 107 * S, 101 * S, 103 * S, 30),
        mk(t0 + 180, 103 * S, 108 * S, 102 * S, 104 * S, 40),
        mk(t0 + 240, 104 * S, 109 * S, 103 * S, 105 * S, 50),
    ];
    let out = aggregate(&candles, 300);
    assert_eq!(out.len(), 1);
    assert_eq!(out[0].time, t0);
    assert_eq!(out[0].open, 100 * S);
    assert_eq!(out[0].high, 109 * S);
    assert_eq!(out[0].low, 99 * S);
    assert_eq!(out[0].close, 105 * S);
    assert_eq!(out[0].volume, 150);
    assert_eq!(out[0].duration, 300);
}

/// A zero-volume candle occupies a bucket that is then suppressed.
#[test]
fn zero_volume_bucket_suppressed() {
    let t0: i64 = 19724 * 86_400 + 34_200;
    let mut candles = vec![
        mk(t0, 100 * S, 105 * S, 99 * S, 101 * S, 10),
        mk(t0 + 60, 101 * S, 106 * S, 100 * S, 102 * S, 20),
        mk(t0 + 120, 102 * S, 107 * S, 101 * S, 103 * S, 30),
        mk(t0 + 180, 103 * S, 108 * S, 102 * S, 104 * S, 40),
        mk(t0 + 240, 104 * S, 109 * S, 103 * S, 105 * S, 50),
    ];
    candles.push(mk(t0 + 300, 105 * S, 105 * S, 105 * S, 105 * S, 0));
    let out = aggregate(&candles, 300);
    assert_eq!(out.len(), 1);
    assert_eq!(out[0].time, t0);
    assert_eq!(out[0].volume, 150);
}

/// Each bucket is well formed and volumes add up.
#[test]
fn aggregation_monotone_on_concrete_buckets() {
    let t0: i64 = 19724 * 86_400 + 34_200;
    let candles = vec![
        mk(t0, 100 * S, 105 * S, 99 * S, 101 * S, 7),
        mk(t0 + 60, 101 * S, 103 * S, 97 * S, 98 * S, 8),
        mk(t0 + 300, 98 * S, 99 * S, 96 * S, 97 * S, 9),
    ];
    let out = aggregate(&candles, 300);
    assert_eq!(out.len(), 2);
    for b in &out {
        assert!(b.low <= b.open.min(b.close));
        assert!(b.open.max(b.close) <= b.high);
        assert!(b.volume > 0);
    }
    assert_eq!(out[0].volume, 15);
    assert_eq!(out[1].volume, 9);
    assert_eq!(out[0].low, 97 * S);
    assert_eq!(out[0].high, 105 * S);
}

/// Aggregating an aggregation changes nothing.
#[test]
fn aggregation_idempotent() {
    let t0: i64 = 19_724 * 86_400 + 34_200;
    let candles = vec![
        mk(t0, 100 * S, 105 * S, 99 * S, 101 * S, 7),
        mk(t0 + 60, 101 * S, 103 * S, 97 * S, 98 * S, 8),
        mk(t0 + 310, 98 * S, 99 * S, 96 * S, 97 * S, 9),
        mk(t0 + 900, 97 * S, 98 * S, 95 * S, 96 * S, 3),
    ];
    let once = aggregate(&candles, 300);
    let twice = aggregate(&once, 300);
    assert_eq!(once.len(), twice.len());
    for (a, b) in once.iter().zip(twice.iter()) {
        assert_eq!(a, b);
    }
}

/// Kernel weights sum to exactly one unit of scale; smoothing keeps the
/// length and the endpoints, and averages the interior.
#[test]
fn gaussian_kernel_normalised_and_endpoints_kept() {
    let k5 = gaussian_kernel_sigma_one();
    assert_eq!(k5.iter().sum::<u64>(), 1_000_000);
    let k3 = gaussian_kernel_sigma_half();
    assert_eq!(k3.iter().sum::<u64>(), 1_000_000);

    let data: Vec<i64> = vec![0, 0, 1_000_000, 0, 0];
    let out = gaussian_smooth(&data, &k5);
    assert_eq!(out.len(), data.len());
    assert_eq!(out[0], 0);
    assert_eq!(out[1], 0);
    assert_eq!(out[2], 402_620);
    assert_eq!(out[3], 0);
    assert_eq!(out[4], 0);

    let rising: Vec<i64> = vec![10, 20, 30, 40, 50];
    let sm = gaussian_smooth(&rising, &k3);
    assert_eq!(sm.len(), 5);
    assert_eq!(sm[0], 10);
    assert_eq!(sm[4], 50);
}

/// The constructed trend log classifies as bullish; the flipped one as
/// bearish; a mixed one as flat.
#[test]
fn trend_classification() {
    assert_eq!(classify_trend(90 * S, 95 * S, 97 * S, 99 * S, 101 * S), Trend::Bullish);
    assert_eq!(classify_trend(110 * S, 105 * S, 103 * S, 101 * S, 99 * S), Trend::Bearish);
    assert_eq!(classify_trend(90 * S, 97 * S, 95 * S, 99 * S, 101 * S), Trend::Flat);

    let ema_4h = vec![90 * S];
    let ema_1h = vec![95 * S, 97 * S, 99 * S];
    let candles = vec![mk(0, 100 * S, 102 * S, 99 * S, 101 * S, 5)];
    assert_eq!(check_trend(&ema_4h, &ema_1h, &candles), Trend::Bullish);
    assert_eq!(check_trend(&Vec::new(), &ema_1h, &candles), Trend::Flat);
}

/// Normalised volume scales the bucket to the full timeframe.
#[test]
fn normalised_volume_scales() {
    let t: i64 = 1_000_000;
    assert_eq!(normalized_volume(100, 300, t + 60, t), Some(500));
    assert_eq!(normalized_volume(100, 300, t, t), None);
}

/// The same-time-of-day average looks at earlier rows only.
#[test]
fn same_time_of_day_average() {
    let d1: i64 = 19_723 * 86_400;
    let d2: i64 = 19_724 * 86_400;
    let times = vec![d1 + 3_600, d1 + 7_200, d2 + 3_600, d2 + 7_200];
    let vols: Vec<u64> = vec![10, 30, 20, 999];
    assert_eq!(avg_vol_same_tod(&times, &vols), Some(30));
}

/// Market-hours arithmetic.
#[test]
fn market_hours_arithmetic() {
    let us = MarketHours::us_stock_market();
    assert_eq!(us.total_trading_minutes(), 390);
    assert_eq!(us.expected_candles_per_day(), 78);
    let custom = MarketHours::custom(9, 0, 17, 30);
    assert_eq!(custom.total_trading_minutes(), 510);
    assert_eq!(round_to_5min(17), 15);
    assert_eq!(round_to_5min(20), 20);
    let sorted = vec![10u32, 20, 30, 40, 50, 60, 70, 80, 90, 100];
    assert_eq!(percentile(&sorted, 50), 10);
    assert_eq!(percentile(&sorted, 950), 100);
    let data = vec![5u32, 7, 7, 3, 7, 5];
    assert_eq!(find_mode(&data), 7);
}

/// The timeframe grammar: digits plus a case-folded unit suffix.
#[test]
fn duration_grammar() {
    assert_eq!(parse_duration("1M"), Some(60));
    assert_eq!(parse_duration("15Min"), Some(900));
    assert_eq!(parse_duration("1Hour"), Some(3_600));
    assert_eq!(parse_duration("1Day"), Some(86_400));
    assert_eq!(parse_duration("2hour"), Some(7_200));
    assert_eq!(parse_duration("1mm"), None);
    assert_eq!(parse_duration("1minutes"), None);
    assert_eq!(parse_duration(""), None);
    assert_eq!(parse_duration("m"), None);
    assert_eq!(parse_duration("x5m"), None);
}
